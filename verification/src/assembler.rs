//! The passes of the assembler, from composed lines to the memory image.

use crate::asm_macro::{disassemble_macro, expanded_macro};
use crate::constants::WORD_SIZE;
use crate::datum::{
    extract_data_from_lines, extracted_data, lemma_extracted_data_error, Datum, DatumView,
};
use crate::error::AsmError;
use crate::label::{
    addressed_labels, declared_label, declared_labels, get_addressed_labels, instruction_count,
    is_label, is_label_line, is_text_line, lemma_addressed_labels_error, resolve_labels, Label,
    LabelView, LABEL_PATTERN,
};
use crate::line::{
    composed_addresses_fit, composed_lines, try_compose_lines, Line, LineView,
};
use crate::pattern::regex_refused;
use crate::section::{resolve_section, section_of, Section};
use crate::strings::{trim_end, trim_start, without_leading_whitespace, without_trailing_whitespace};
use crate::text::{
    argument_type, get_text_from_code, lemma_nop_encoding, lemma_text_from_code_error,
    operand_patterns_refused, text_from_code, ArgumentType, Text, TextView,
};
use crate::utils::{
    binary_digits, convert_int_to_decimal, decimal_text, hex_digits, is_machine_address,
};
use vstd::prelude::*;
use vstd::string::StringExecFns;

verus! {

/// Whether `line` is a line of the instruction section other than the directive that
/// opens it.
pub open spec fn is_code_line(line: LineView) -> bool {
    is_text_line(line) && section_of(line.text->0) is None
}

/// The code of one line of the instruction section, given whether it declares a label: a
/// label line stays as it is, a pseudo instruction is replaced by its expansion, and any
/// other line loses its leading whitespace.
pub open spec fn line_code(text: Seq<char>, declares_label: bool) -> Seq<Seq<char>> {
    if declares_label {
        seq![text]
    } else {
        match expanded_macro(text) {
            Some(codes) => codes,
            None => seq![without_leading_whitespace(text)],
        }
    }
}

/// The code of one line of the instruction section.
pub open spec fn code_of(text: Seq<char>) -> Seq<Seq<char>> {
    line_code(text, is_label_line(text))
}

/// The code of a program: the code of each line of its instruction section, in order.
pub open spec fn extracted_codes(lines: Seq<LineView>) -> Seq<Seq<char>>
    decreases lines.len(),
{
    if lines.len() == 0 {
        Seq::<Seq<char>>::empty()
    } else if is_code_line(lines.last()) {
        extracted_codes(lines.drop_last()) + code_of(lines.last().text->0)
    } else {
        extracted_codes(lines.drop_last())
    }
}

/// Gives the code of one line of the instruction section, told whether the line declares
/// a label.
pub fn code_of_line(text: &str, declares_label: bool, data: &Vec<Datum>) -> (codes: Vec<String>)
    ensures
        codes.deep_view() == line_code(text@, declares_label),
{
    if !declares_label {
        match disassemble_macro(text, data) {
            Some(expansion) => expansion,
            None => {
                let mut codes: Vec<String> = Vec::new();
                let code = trim_start(text).to_owned();
                codes.push(code);
                assert(codes.deep_view() =~= seq![code@]);
                codes
            },
        }
    } else {
        let mut codes: Vec<String> = Vec::new();
        let code = text.to_owned();
        codes.push(code);
        assert(codes.deep_view() =~= seq![text@]);
        codes
    }
}

/// Whether one of `lines` is a line of code.
pub open spec fn has_code_line(lines: Seq<LineView>) -> bool {
    exists|i: int| 0 <= i < lines.len() && is_code_line(#[trigger] lines[i])
}

/// Collects the code of the instruction section, with pseudo instructions expanded. The
/// pass fails where, and only where, the label pattern is refused and there is a line of
/// code to match it against.
pub fn extract_codes(
    lines: &Vec<Line>,
    data: &Vec<Datum>,
) -> (extracted: Result<Vec<String>, AsmError>)
    ensures
        extracted is Err <==> regex_refused(LABEL_PATTERN@) && has_code_line(lines.deep_view()),
        extracted matches Ok(codes) ==> codes.deep_view() == extracted_codes(lines.deep_view()),
        extracted matches Err(error) ==> error == AsmError::Pattern,
{
    let ghost source = lines.deep_view();
    let mut codes: Vec<String> = Vec::new();
    let mut i: usize = 0;
    proof {
        assert(source.take(0) =~= Seq::<LineView>::empty());
        assert(codes.deep_view() =~= Seq::<Seq<char>>::empty());
    }
    while i < lines.len()
        invariant
            i <= lines.len(),
            source == lines.deep_view(),
            codes.deep_view() == extracted_codes(source.take(i as int)),
            regex_refused(LABEL_PATTERN@) ==> forall|k: int|
                0 <= k < i ==> !is_code_line(#[trigger] source[k]),
        decreases lines.len() - i,
    {
        proof {
            assert(source.take(i + 1).drop_last() =~= source.take(i as int));
            assert(source.take(i + 1).last() == lines[i as int]@);
        }
        let line = &lines[i];
        match (&line.section, &line.text) {
            (Section::TEXT, Some(text)) => {
                if resolve_section(text.as_str()).is_none() {
                    assert(is_code_line(source[i as int]));
                    let declares_label = is_label(text.as_str())?;
                    let mut code = code_of_line(text.as_str(), declares_label, data);
                    let ghost before = codes.deep_view();
                    let ghost added = code.deep_view();
                    codes.append(&mut code);
                    assert(codes.deep_view() =~= before + added);
                }
            },
            _ => {},
        }
        i += 1;
    }
    assert(source.take(lines.len() as int) =~= source);
    Ok(codes)
}

/// The records of the instructions of `codes`: one for each line that declares no label,
/// in order, the first at `base` and each next one a word further. The first line that
/// stands beyond the machine's addresses or cannot be encoded makes the whole fail.
pub open spec fn disassembled(
    data: Seq<DatumView>,
    labels: Seq<LabelView>,
    codes: Seq<Seq<char>>,
    base: int,
) -> Result<Seq<TextView>, AsmError>
    decreases codes.len(),
{
    if codes.len() == 0 {
        Ok(Seq::<TextView>::empty())
    } else {
        match disassembled(data, labels, codes.drop_last(), base) {
            Err(error) => Err(error),
            Ok(texts) => if declared_label(codes.last()) is None {
                let address = base + WORD_SIZE * instruction_count(codes.drop_last());
                if !is_machine_address(address) {
                    Err(AsmError::AddressOverflow)
                } else {
                    match text_from_code(codes.last(), address, data, labels) {
                        Ok(text) => Ok(texts.push(text)),
                        Err(error) => Err(error),
                    }
                }
            } else {
                Ok(texts)
            },
        }
    }
}

/// Once a prefix of the code has failed, the whole has failed in the same way.
proof fn lemma_disassembly_fails_for_good(
    data: Seq<DatumView>,
    labels: Seq<LabelView>,
    codes: Seq<Seq<char>>,
    base: int,
    k: int,
)
    requires
        0 <= k <= codes.len(),
        disassembled(data, labels, codes.take(k), base) is Err,
    ensures
        disassembled(data, labels, codes, base) == disassembled(data, labels, codes.take(k), base),
    decreases codes.len() - k,
{
    if k == codes.len() {
        assert(codes.take(k) =~= codes);
    } else {
        assert(codes.take(k + 1).drop_last() =~= codes.take(k));
        lemma_disassembly_fails_for_good(data, labels, codes, base, k + 1);
    }
}

/// Encoding the code never fails for want of a pattern.
pub proof fn lemma_disassembled_error(
    data: Seq<DatumView>,
    labels: Seq<LabelView>,
    codes: Seq<Seq<char>>,
    base: int,
)
    ensures
        disassembled(data, labels, codes, base) matches Err(error) ==> error != AsmError::Pattern,
    decreases codes.len(),
{
    if codes.len() > 0 {
        lemma_disassembled_error(data, labels, codes.drop_last(), base);
        lemma_text_from_code_error(
            codes.last(),
            base + WORD_SIZE * instruction_count(codes.drop_last()),
            data,
            labels,
        );
    }
}

/// The record of a line of code that declares no label stands at the place that its count
/// among the instructions gives it, and it is the line's encoding at the base plus one word
/// for each instruction before it. So the records keep the order of the code.
pub proof fn lemma_disassembled_record(
    data: Seq<DatumView>,
    labels: Seq<LabelView>,
    codes: Seq<Seq<char>>,
    base: int,
    i: int,
)
    requires
        0 <= i < codes.len(),
    ensures
        declared_label(codes[i]) is None ==> (disassembled(data, labels, codes, base) matches Ok(
            texts,
        ) ==> {
            let place = instruction_count(codes.take(i));
            &&& place < texts.len()
            &&& text_from_code(codes[i], base + WORD_SIZE * place, data, labels) == Ok::<
                TextView,
                AsmError,
            >(texts[place as int])
        }),
    decreases codes.len(),
{
    if let Ok(texts) = disassembled(data, labels, codes, base) {
        let shorter = codes.drop_last();
        lemma_one_text_per_instruction(data, labels, shorter, base);
        assert(shorter =~= codes.take(codes.len() - 1));
        if i < codes.len() - 1 {
            lemma_disassembled_record(data, labels, shorter, base, i);
            assert(shorter.take(i) =~= codes.take(i));
            assert(shorter[i] == codes[i]);
        }
    }
}

/// Wherever the expansion of `nop` stands in the code, its record is the word `0001883a`,
/// provided that the patterns take the line for an instruction and `r0` for a register,
/// which is not proved here.
pub proof fn lemma_expanded_nop_word(
    data: Seq<DatumView>,
    labels: Seq<LabelView>,
    codes: Seq<Seq<char>>,
    base: int,
    i: int,
)
    requires
        0 <= i < codes.len(),
        codes[i] == "add\tr0,r0,r0"@,
    ensures
        declared_label(codes[i]) is None && argument_type("r0"@) == Some(ArgumentType::REGISTER)
            ==> (disassembled(data, labels, codes, base) matches Ok(texts) ==> {
            let place = instruction_count(codes.take(i));
            &&& place < texts.len()
            &&& texts[place as int].hex_text() == Some("0001883a"@)
        }),
{
    if declared_label(codes[i]) is None {
        lemma_disassembled_record(data, labels, codes, base, i);
        lemma_nop_encoding(base + WORD_SIZE * instruction_count(codes.take(i)), data, labels);
    }
}

/// Exactly one record is made for each line of code that declares no label.
pub proof fn lemma_one_text_per_instruction(
    data: Seq<DatumView>,
    labels: Seq<LabelView>,
    codes: Seq<Seq<char>>,
    base: int,
)
    ensures
        disassembled(data, labels, codes, base) matches Ok(texts) ==> texts.len()
            == instruction_count(codes),
    decreases codes.len(),
{
    if codes.len() > 0 {
        lemma_one_text_per_instruction(data, labels, codes.drop_last(), base);
    }
}

/// Whether one of the five patterns of the assembler is refused.
pub open spec fn patterns_refused() -> bool {
    regex_refused(LABEL_PATTERN@) || operand_patterns_refused()
}

/// Encodes every instruction of `codes`, the first standing at `text_min_address`. The
/// pattern error comes only where there is code and a pattern is refused, and it does come
/// where there is code and the label pattern is refused.
pub fn disassemble_instructions(
    data: &Vec<Datum>,
    labels: &Vec<Label>,
    codes: &Vec<String>,
    text_min_address: i32,
) -> (encoded: Result<Vec<Text>, AsmError>)
    ensures
        encoded == Err::<Vec<Text>, AsmError>(AsmError::Pattern) ==> codes.len() > 0
            && patterns_refused(),
        codes.len() > 0 && regex_refused(LABEL_PATTERN@) ==> encoded == Err::<
            Vec<Text>,
            AsmError,
        >(AsmError::Pattern),
        encoded matches Ok(texts) ==> disassembled(
            data.deep_view(),
            labels.deep_view(),
            codes.deep_view(),
            text_min_address as int,
        ) == Ok::<Seq<TextView>, AsmError>(texts.deep_view()),
        encoded matches Ok(texts) ==> texts.len() == instruction_count(codes.deep_view()),
        encoded matches Err(error) ==> error == AsmError::Pattern || disassembled(
            data.deep_view(),
            labels.deep_view(),
            codes.deep_view(),
            text_min_address as int,
        ) == Err::<Seq<TextView>, AsmError>(error),
{
    let ghost source = codes.deep_view();
    let ghost base = text_min_address as int;
    let mut texts: Vec<Text> = Vec::new();
    let mut instructions: usize = 0;
    let mut i: usize = 0;
    proof {
        assert(source.take(0) =~= Seq::<Seq<char>>::empty());
        assert(texts.deep_view() =~= Seq::<TextView>::empty());
    }
    while i < codes.len()
        invariant
            i <= codes.len(),
            source == codes.deep_view(),
            base == text_min_address as int,
            instructions <= i,
            instructions == instruction_count(source.take(i as int)),
            i > 0 ==> !regex_refused(LABEL_PATTERN@),
            disassembled(data.deep_view(), labels.deep_view(), source.take(i as int), base) == Ok::<
                Seq<TextView>,
                AsmError,
            >(texts.deep_view()),
        decreases codes.len() - i,
    {
        proof {
            assert(source.take(i + 1).drop_last() =~= source.take(i as int));
            assert(source.take(i + 1).last() == codes[i as int]@);
        }
        if resolve_labels(codes[i].as_str())?.is_none() {
            let address: i128 = text_min_address as i128 + WORD_SIZE as i128
                * instructions as i128;
            if address > i32::MAX as i128 {
                proof {
                    lemma_disassembly_fails_for_good(
                        data.deep_view(),
                        labels.deep_view(),
                        source,
                        base,
                        i + 1,
                    );
                }
                return Err(AsmError::AddressOverflow);
            }
            match get_text_from_code(codes[i].as_str(), address as i32, data, labels) {
                Ok(text) => {
                    let ghost before = texts.deep_view();
                    texts.push(text);
                    assert(texts.deep_view() =~= before.push(text@));
                    instructions = instructions + 1;
                },
                Err(error) => {
                    proof {
                        if error != AsmError::Pattern {
                            lemma_disassembly_fails_for_good(
                                data.deep_view(),
                                labels.deep_view(),
                                source,
                                base,
                                i + 1,
                            );
                        }
                    }
                    return Err(error);
                },
            }
        }
        i += 1;
    }
    proof {
        assert(source.take(codes.len() as int) =~= source);
        lemma_one_text_per_instruction(data.deep_view(), labels.deep_view(), source, base);
    }
    Ok(texts)
}

/// The words of the instruction region as text: eight hexadecimal digits and a space for
/// each record. A record of a pseudo instruction makes the whole fail.
pub open spec fn words_text(texts: Seq<TextView>) -> Result<Seq<char>, AsmError>
    decreases texts.len(),
{
    if texts.len() == 0 {
        Ok(Seq::<char>::empty())
    } else {
        match words_text(texts.drop_last()) {
            Err(error) => Err(error),
            Ok(before) => match texts.last().hex_text() {
                Some(hex) => Ok(before + hex + " "@),
                None => Err(AsmError::PseudoInstruction),
            },
        }
    }
}

/// The words of the data region as text: eight hexadecimal digits and a space for each
/// datum.
pub open spec fn data_text(data: Seq<DatumView>) -> Seq<char>
    decreases data.len(),
{
    if data.len() == 0 {
        Seq::<char>::empty()
    } else {
        data_text(data.drop_last()) + hex_digits(binary_digits(data.last().value, 32)) + " "@
    }
}

/// The size of the instruction region of `count` instructions, in addresses.
pub open spec fn text_section_size(count: nat) -> int {
    count * WORD_SIZE
}

/// Whether the region of `count` instructions, which starts at `text_start`, ends below
/// `data_start`.
pub open spec fn sections_apart(count: nat, text_start: int, data_start: int) -> bool {
    text_start + text_section_size(count) < data_start
}

/// The memory image: the header line; the instruction block, which opens with `text_start`
/// in decimal and the marker `*0` and holds the instruction words; and on a new line the
/// data block, which opens with the data base less the size of the instruction region, in
/// decimal, and the marker `*0`, and holds the data words. Whitespace at the end is cut off.
/// There is no image where the two regions overlap.
pub open spec fn output_image(
    data: Seq<DatumView>,
    texts: Seq<TextView>,
    text_start: int,
    data_start: int,
) -> Result<Seq<char>, AsmError> {
    if !sections_apart(texts.len(), text_start, data_start) {
        Err(AsmError::SectionsOverlap)
    } else {
        match words_text(texts) {
            Err(error) => Err(error),
            Ok(words) => Ok(
                without_trailing_whitespace(
                    "v2.0 raw\n"@ + decimal_text(text_start) + "*0 "@ + words + "\n"@
                        + decimal_text(data_start - text_section_size(texts.len())) + "*0 "@
                        + data_text(data),
                ),
            ),
        }
    }
}

/// Lays the encoded instructions and the data out as the text of a memory image.
pub fn render_output(
    data: &Vec<Datum>,
    texts: &Vec<Text>,
    text_start_address: i32,
    data_start_address: i32,
) -> (image: Result<String, AsmError>)
    ensures
        image == Err::<String, AsmError>(AsmError::SectionsOverlap) <==> !sections_apart(
            texts.len() as nat,
            text_start_address as int,
            data_start_address as int,
        ),
        image matches Ok(text) ==> output_image(
            data.deep_view(),
            texts.deep_view(),
            text_start_address as int,
            data_start_address as int,
        ) == Ok::<Seq<char>, AsmError>(text@),
        image matches Err(error) ==> output_image(
            data.deep_view(),
            texts.deep_view(),
            text_start_address as int,
            data_start_address as int,
        ) == Err::<Seq<char>, AsmError>(error),
{
    let section_size: i128 = texts.len() as i128 * WORD_SIZE as i128;
    if text_start_address as i128 + section_size >= data_start_address as i128 {
        return Err(AsmError::SectionsOverlap);
    }
    let mut image = String::from_str("v2.0 raw\n");
    image.append(convert_int_to_decimal(text_start_address as i64).as_str());
    image.append("*0 ");
    let ghost head = image@;
    let ghost records = texts.deep_view();
    let mut i: usize = 0;
    proof {
        assert(records.take(0) =~= Seq::<TextView>::empty());
        assert(image@ =~= head + Seq::<char>::empty());
    }
    while i < texts.len()
        invariant
            i <= texts.len(),
            records == texts.deep_view(),
            sections_apart(
                texts.len() as nat,
                text_start_address as int,
                data_start_address as int,
            ),
            words_text(records.take(i as int)) matches Ok(words) && image@ == head + words,
        decreases texts.len() - i,
    {
        proof {
            assert(records.take(i + 1).drop_last() =~= records.take(i as int));
            assert(records.take(i + 1).last() == texts[i as int]@);
        }
        let ghost before = words_text(records.take(i as int))->Ok_0;
        match texts[i].to_hex() {
            Ok(hex) => {
                image.append(hex.as_str());
                image.append(" ");
                assert(image@ =~= head + (before + hex@ + " "@));
            },
            Err(error) => {
                proof {
                    lemma_words_fail_for_good(records, i + 1);
                }
                return Err(error);
            },
        }
        i += 1;
    }
    proof {
        assert(records.take(texts.len() as int) =~= records);
    }
    image.append("\n");
    image.append(
        convert_int_to_decimal((data_start_address as i128 - section_size) as i64).as_str(),
    );
    image.append("*0 ");
    let ghost body = image@;
    let ghost table = data.deep_view();
    let mut j: usize = 0;
    proof {
        assert(table.take(0) =~= Seq::<DatumView>::empty());
        assert(image@ =~= body + Seq::<char>::empty());
    }
    while j < data.len()
        invariant
            j <= data.len(),
            table == data.deep_view(),
            image@ == body + data_text(table.take(j as int)),
        decreases data.len() - j,
    {
        proof {
            assert(table.take(j + 1).drop_last() =~= table.take(j as int));
            assert(table.take(j + 1).last() == data[j as int]@);
        }
        let ghost before = data_text(table.take(j as int));
        let hex = data[j].to_hex();
        image.append(hex.as_str());
        image.append(" ");
        assert(image@ =~= body + (before + hex@ + " "@));
        j += 1;
    }
    proof {
        assert(table.take(data.len() as int) =~= table);
        let words = words_text(records)->Ok_0;
        assert(image@ =~= "v2.0 raw\n"@ + decimal_text(text_start_address as int) + "*0 "@ + words
            + "\n"@ + decimal_text(
            data_start_address as int - text_section_size(texts.len() as nat),
        ) + "*0 "@ + data_text(table));
    }
    Ok(trim_end(image.as_str()).to_owned())
}

/// The only failure of the instruction words is a pseudo instruction.
pub proof fn lemma_words_error(texts: Seq<TextView>)
    ensures
        words_text(texts) matches Err(error) ==> error == AsmError::PseudoInstruction,
    decreases texts.len(),
{
    if texts.len() > 0 {
        lemma_words_error(texts.drop_last());
    }
}

/// Once a prefix of the records has failed, the whole has failed in the same way.
proof fn lemma_words_fail_for_good(texts: Seq<TextView>, k: int)
    requires
        0 <= k <= texts.len(),
        words_text(texts.take(k)) is Err,
    ensures
        words_text(texts) == words_text(texts.take(k)),
    decreases texts.len() - k,
{
    if k == texts.len() {
        assert(texts.take(k) =~= texts);
    } else {
        assert(texts.take(k + 1).drop_last() =~= texts.take(k));
        lemma_words_fail_for_good(texts, k + 1);
    }
}

/// The memory image of the program `lines`, with its instructions from `text_start` on
/// and its data from `data_start` on: the lines are composed; the data section gives the
/// datum table and the instruction section the code; the labels of the code are addressed;
/// the instructions are encoded; and the words are laid out. The first pass that fails
/// decides the error.
pub open spec fn assembled(
    lines: Seq<Seq<char>>,
    text_start: int,
    data_start: int,
) -> Result<Seq<char>, AsmError> {
    if !composed_addresses_fit(lines) {
        Err(AsmError::AddressOverflow)
    } else {
        let composed = composed_lines(lines);
        let codes = extracted_codes(composed);
        match extracted_data(composed, data_start) {
            Err(error) => Err(error),
            Ok(data) => match addressed_labels(declared_labels(composed), codes, text_start) {
                Err(error) => Err(error),
                Ok(labels) => match disassembled(data, labels, codes, text_start) {
                    Err(error) => Err(error),
                    Ok(texts) => output_image(data, texts, text_start, data_start),
                },
            },
        }
    }
}

/// The image of a program never fails for want of a pattern.
pub proof fn lemma_assembled_error(lines: Seq<Seq<char>>, text_start: int, data_start: int)
    ensures
        assembled(lines, text_start, data_start) matches Err(error) ==> error
            != AsmError::Pattern,
{
    let composed = composed_lines(lines);
    let codes = extracted_codes(composed);
    lemma_extracted_data_error(composed, data_start);
    lemma_addressed_labels_error(declared_labels(composed), codes, text_start);
    if let Ok(data) = extracted_data(composed, data_start) {
        if let Ok(labels) = addressed_labels(declared_labels(composed), codes, text_start) {
            lemma_disassembled_error(data, labels, codes, text_start);
            if let Ok(texts) = disassembled(data, labels, codes, text_start) {
                lemma_words_error(texts);
            }
        }
    }
}

/// Assembles the program `lines` into the text of a memory image. The pattern error comes
/// only where one of the assembler's patterns is refused; where none is refused, the result
/// is the image or the error of the model.
pub fn assemble(
    lines: &Vec<String>,
    text_start_address: i32,
    data_start_address: i32,
) -> (image: Result<String, AsmError>)
    ensures
        image == Err::<String, AsmError>(AsmError::Pattern) ==> patterns_refused(),
        image matches Ok(text) ==> assembled(
            lines.deep_view(),
            text_start_address as int,
            data_start_address as int,
        ) == Ok::<Seq<char>, AsmError>(text@),
        image matches Err(error) ==> error == AsmError::Pattern || assembled(
            lines.deep_view(),
            text_start_address as int,
            data_start_address as int,
        ) == Err::<Seq<char>, AsmError>(error),
{
    let composed = match try_compose_lines(lines) {
        Some(composed) => composed,
        None => {
            return Err(AsmError::AddressOverflow);
        },
    };
    proof {
        lemma_extracted_data_error(composed.deep_view(), data_start_address as int);
    }
    let data = extract_data_from_lines(&composed, data_start_address)?;
    let codes = extract_codes(&composed, &data)?;
    proof {
        lemma_addressed_labels_error(
            declared_labels(composed.deep_view()),
            codes.deep_view(),
            text_start_address as int,
        );
    }
    let labels = get_addressed_labels(&composed, &codes, text_start_address)?;
    proof {
        lemma_disassembled_error(
            data.deep_view(),
            labels.deep_view(),
            codes.deep_view(),
            text_start_address as int,
        );
    }
    let texts = disassemble_instructions(&data, &labels, &codes, text_start_address)?;
    proof {
        lemma_words_error(texts.deep_view());
    }
    render_output(&data, &texts, text_start_address, data_start_address)
}

} // verus!
