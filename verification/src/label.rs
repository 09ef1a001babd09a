//! Labels of the instruction section and their addresses.

use crate::constants::WORD_SIZE;
use crate::error::AsmError;
use crate::line::{Line, LineView};
use crate::pattern::{find_match, is_match, regex_accepts, regex_leftmost, regex_refused};
use crate::section::Section;
use crate::strings::{same_text, trim_end_matches, without_trailing};
use crate::utils::is_machine_address;
use vstd::prelude::*;

verus! {

/// The pattern of a line that declares a label: anything up to a colon.
pub const LABEL_PATTERN: &'static str = "^.*:";

/// A name for an address of the instruction region.
#[derive(Clone, Debug, PartialEq, Eq)]
pub struct Label {
    pub name: String,
    pub address: i32,
}

/// What a [`Label`] holds, as plain values.
pub struct LabelView {
    pub name: Seq<char>,
    pub address: int,
}

impl View for Label {
    type V = LabelView;

    open spec fn view(&self) -> LabelView {
        LabelView { name: self.name@, address: self.address as int }
    }
}

impl DeepView for Label {
    type V = LabelView;

    open spec fn deep_view(&self) -> LabelView {
        self@
    }
}

impl Label {
    /// The label `name` at `address`.
    pub fn new(name: &str, address: i32) -> (label: Label)
        ensures
            label@ == (LabelView { name: name@, address: address as int }),
    {
        Label { name: name.to_owned(), address }
    }
}

/// The first label of `labels` that is called `name`.
pub open spec fn first_label(name: Seq<char>, labels: Seq<LabelView>) -> Option<LabelView>
    decreases labels.len(),
{
    if labels.len() == 0 {
        None
    } else if labels[0].name == name {
        Some(labels[0])
    } else {
        first_label(name, labels.drop_first())
    }
}

/// A label found under a name bears that name and is one of the table.
pub proof fn lemma_first_label_found(name: Seq<char>, labels: Seq<LabelView>)
    ensures
        first_label(name, labels) matches Some(label) ==> label.name == name && labels.contains(
            label,
        ),
    decreases labels.len(),
{
    if labels.len() > 0 && labels[0].name != name {
        lemma_first_label_found(name, labels.drop_first());
        if let Some(label) = first_label(name, labels) {
            let i = choose|i: int|
                0 <= i < labels.drop_first().len() && labels.drop_first()[i] == label;
            assert(labels[i + 1] == label);
        }
    }
}

/// Looks `name` up in a label table. Where a name occurs twice the first entry wins.
pub fn find_label<'a>(name: &str, labels: &'a Vec<Label>) -> (found: Option<&'a Label>)
    ensures
        found matches Some(label) ==> first_label(name@, labels.deep_view()) == Some(label@),
        found is None ==> first_label(name@, labels.deep_view()) is None,
{
    let ghost table = labels.deep_view();
    let mut i: usize = 0;
    assert(table.skip(0) =~= table);
    while i < labels.len()
        invariant
            i <= labels.len(),
            table == labels.deep_view(),
            first_label(name@, table) == first_label(name@, table.skip(i as int)),
        decreases labels.len() - i,
    {
        assert(table.skip(i as int).drop_first() =~= table.skip(i + 1));
        assert(table.skip(i as int)[0] == labels[i as int]@);
        if same_text(labels[i].name.as_str(), name) {
            return Some(&labels[i]);
        }
        i += 1;
    }
    None
}

/// Whether `code` declares a label: the label pattern matches it.
pub open spec fn is_label_line(code: Seq<char>) -> bool {
    regex_accepts(LABEL_PATTERN@, code)
}

/// The name that the matched part of a label line declares: the match without the colons
/// at its end.
pub open spec fn label_name(matched: Seq<char>) -> Seq<char> {
    without_trailing(matched, ':')
}

/// The name of the label that `code` declares, if it declares one.
pub open spec fn declared_label(code: Seq<char>) -> Option<Seq<char>> {
    match regex_leftmost(LABEL_PATTERN@, code) {
        Some(matched) => Some(label_name(matched)),
        None => None,
    }
}

/// Tells whether `code` declares a label. There is no answer where, and only where, the
/// label pattern is refused.
pub fn is_label(code: &str) -> (answer: Result<bool, AsmError>)
    ensures
        answer is Err <==> regex_refused(LABEL_PATTERN@),
        answer matches Ok(b) ==> b == is_label_line(code@),
        answer matches Err(error) ==> error == AsmError::Pattern,
{
    is_match(LABEL_PATTERN, code)
}

/// The label that a match of the label pattern declares. Its address is not known yet and
/// is set to zero.
pub fn label_from_match(matched: &str) -> (label: Label)
    ensures
        label@ == (LabelView { name: label_name(matched@), address: 0 }),
{
    Label::new(trim_end_matches(matched, ':'), 0)
}

/// The label that `code` declares, without an address yet, or `None` where it declares none.
/// There is no answer where, and only where, the label pattern is refused.
pub fn resolve_labels(code: &str) -> (resolved: Result<Option<Label>, AsmError>)
    ensures
        resolved is Err <==> regex_refused(LABEL_PATTERN@),
        resolved matches Ok(Some(label)) ==> declared_label(code@) == Some(label@.name)
            && label.address == 0,
        resolved matches Ok(None) ==> declared_label(code@) is None,
        resolved matches Err(error) ==> error == AsmError::Pattern,
{
    match find_match(LABEL_PATTERN, code) {
        Ok(Some(matched)) => Ok(Some(label_from_match(matched.as_str()))),
        Ok(None) => Ok(None),
        Err(error) => Err(error),
    }
}

/// Whether `line` is a line of the instruction section that holds text.
pub open spec fn is_text_line(line: LineView) -> bool {
    line.section == Section::TEXT && line.text is Some
}

/// The labels that the lines of the instruction section declare, in source order and
/// without addresses.
pub open spec fn declared_labels(lines: Seq<LineView>) -> Seq<LabelView>
    decreases lines.len(),
{
    if lines.len() == 0 {
        Seq::<LabelView>::empty()
    } else {
        let before = declared_labels(lines.drop_last());
        if is_text_line(lines.last()) {
            match declared_label(lines.last().text->0) {
                Some(name) => before.push(LabelView { name, address: 0 }),
                None => before,
            }
        } else {
            before
        }
    }
}

/// Whether one of `lines` is a line of the instruction section that holds text.
pub open spec fn has_text_line(lines: Seq<LineView>) -> bool {
    exists|i: int| 0 <= i < lines.len() && is_text_line(#[trigger] lines[i])
}

/// Collects the labels that the instruction section declares. The pass fails where, and
/// only where, the label pattern is refused and there is a line to match it against.
pub fn extract_labels_from_lines(lines: &Vec<Line>) -> (extracted: Result<Vec<Label>, AsmError>)
    ensures
        extracted is Err <==> regex_refused(LABEL_PATTERN@) && has_text_line(lines.deep_view()),
        extracted matches Ok(labels) ==> labels.deep_view() == declared_labels(lines.deep_view()),
        extracted matches Err(error) ==> error == AsmError::Pattern,
{
    let ghost source = lines.deep_view();
    let mut labels: Vec<Label> = Vec::new();
    let mut i: usize = 0;
    proof {
        assert(source.take(0) =~= Seq::<LineView>::empty());
        assert(labels.deep_view() =~= Seq::<LabelView>::empty());
    }
    while i < lines.len()
        invariant
            i <= lines.len(),
            source == lines.deep_view(),
            labels.deep_view() == declared_labels(source.take(i as int)),
            regex_refused(LABEL_PATTERN@) ==> forall|k: int|
                0 <= k < i ==> !is_text_line(#[trigger] source[k]),
        decreases lines.len() - i,
    {
        proof {
            assert(source.take(i + 1).drop_last() =~= source.take(i as int));
            assert(source.take(i + 1).last() == lines[i as int]@);
        }
        let line = &lines[i];
        match (&line.section, &line.text) {
            (Section::TEXT, Some(text)) => {
                match resolve_labels(text.as_str()) {
                    Ok(Some(label)) => {
                        let ghost before = labels.deep_view();
                        labels.push(label);
                        assert(labels.deep_view() =~= before.push(label@));
                    },
                    Ok(None) => {},
                    Err(error) => {
                        assert(is_text_line(source[i as int]));
                        return Err(error);
                    },
                }
            },
            _ => {},
        }
        i += 1;
    }
    assert(source.take(lines.len() as int) =~= source);
    Ok(labels)
}

/// The number of lines of `codes` that declare no label: each of them is one instruction.
pub open spec fn instruction_count(codes: Seq<Seq<char>>) -> nat
    decreases codes.len(),
{
    if codes.len() == 0 {
        0
    } else {
        instruction_count(codes.drop_last()) + if declared_label(codes.last()) is None {
            1nat
        } else {
            0nat
        }
    }
}

/// The label `name` at `address`, where `declared` holds a label of this name.
pub open spec fn addressed_label(name: Seq<char>, declared: Seq<LabelView>, address: int) -> Result<
    LabelView,
    AsmError,
> {
    match first_label(name, declared) {
        Some(label) => Ok(LabelView { name: label.name, address }),
        None => Err(AsmError::UndeclaredLabel),
    }
}

/// Gives the label that a line of code declares its address, provided that the label is
/// among the declared ones.
pub fn address_label(name: &str, declared: &Vec<Label>, address: i32) -> (addressed: Result<
    Label,
    AsmError,
>)
    ensures
        addressed matches Ok(label) ==> addressed_label(
            name@,
            declared.deep_view(),
            address as int,
        ) == Ok::<LabelView, AsmError>(label@),
        addressed matches Err(error) ==> addressed_label(
            name@,
            declared.deep_view(),
            address as int,
        ) == Err::<LabelView, AsmError>(error),
{
    match find_label(name, declared) {
        Some(found) => Ok(Label::new(found.name.as_str(), address)),
        None => Err(AsmError::UndeclaredLabel),
    }
}

/// The labels of `codes` with their addresses. A label line takes no address of its own:
/// its label gets the address of the next instruction, which is `base` plus one word for
/// each instruction before it. The first label line whose address is no machine address,
/// or whose name `declared` does not hold, makes the whole fail.
pub open spec fn addressed_labels(
    declared: Seq<LabelView>,
    codes: Seq<Seq<char>>,
    base: int,
) -> Result<Seq<LabelView>, AsmError>
    decreases codes.len(),
{
    if codes.len() == 0 {
        Ok(Seq::<LabelView>::empty())
    } else {
        match addressed_labels(declared, codes.drop_last(), base) {
            Err(error) => Err(error),
            Ok(labels) => match declared_label(codes.last()) {
                None => Ok(labels),
                Some(name) => {
                    let address = base + WORD_SIZE * instruction_count(codes.drop_last());
                    if !is_machine_address(address) {
                        Err(AsmError::AddressOverflow)
                    } else {
                        match addressed_label(name, declared, address) {
                            Ok(label) => Ok(labels.push(label)),
                            Err(error) => Err(error),
                        }
                    }
                },
            },
        }
    }
}

/// Addressing fails only for a label that is not declared or that lies beyond the machine's
/// addresses.
pub proof fn lemma_addressed_labels_error(
    declared: Seq<LabelView>,
    codes: Seq<Seq<char>>,
    base: int,
)
    ensures
        addressed_labels(declared, codes, base) matches Err(error) ==> error
            == AsmError::UndeclaredLabel || error == AsmError::AddressOverflow,
    decreases codes.len(),
{
    if codes.len() > 0 {
        lemma_addressed_labels_error(declared, codes.drop_last(), base);
    }
}

/// Once a prefix of the code has failed, the whole has failed in the same way.
proof fn lemma_addressing_fails_for_good(
    declared: Seq<LabelView>,
    codes: Seq<Seq<char>>,
    base: int,
    k: int,
)
    requires
        0 <= k <= codes.len(),
        addressed_labels(declared, codes.take(k), base) is Err,
    ensures
        addressed_labels(declared, codes, base) == addressed_labels(declared, codes.take(k), base),
    decreases codes.len() - k,
{
    if k == codes.len() {
        assert(codes.take(k) =~= codes);
    } else {
        assert(codes.take(k + 1).drop_last() =~= codes.take(k));
        lemma_addressing_fails_for_good(declared, codes, base, k + 1);
    }
}

/// Gives every label of `codes` its address, counting instructions from `text_min_address`.
/// The labels must be among those that `lines` declare. The pattern error comes where, and
/// only where, the label pattern is refused and there is a line to match it against.
pub fn get_addressed_labels(
    lines: &Vec<Line>,
    codes: &Vec<String>,
    text_min_address: i32,
) -> (addressed: Result<Vec<Label>, AsmError>)
    ensures
        addressed == Err::<Vec<Label>, AsmError>(AsmError::Pattern) <==> regex_refused(
            LABEL_PATTERN@,
        ) && (codes.len() > 0 || has_text_line(lines.deep_view())),
        addressed matches Ok(labels) ==> addressed_labels(
            declared_labels(lines.deep_view()),
            codes.deep_view(),
            text_min_address as int,
        ) == Ok::<Seq<LabelView>, AsmError>(labels.deep_view()),
        addressed matches Err(error) ==> error == AsmError::Pattern || addressed_labels(
            declared_labels(lines.deep_view()),
            codes.deep_view(),
            text_min_address as int,
        ) == Err::<Seq<LabelView>, AsmError>(error),
        addressed matches Ok(labels) ==> forall|j: int, k: int|
            0 <= j <= k < labels.len() ==> text_min_address <= (#[trigger] labels[j]).address <= (
            #[trigger] labels[k]).address <= text_min_address + WORD_SIZE * instruction_count(
                codes.deep_view(),
            ),
{
    let declared = match extract_labels_from_lines(lines) {
        Ok(declared) => declared,
        Err(error) => {
            return Err(error);
        },
    };
    let ghost table = declared.deep_view();
    let ghost source = codes.deep_view();
    let ghost base = text_min_address as int;
    let mut labels: Vec<Label> = Vec::new();
    let mut instructions: usize = 0;
    let mut i: usize = 0;
    proof {
        assert(source.take(0) =~= Seq::<Seq<char>>::empty());
        assert(labels.deep_view() =~= Seq::<LabelView>::empty());
        lemma_addressed_labels_error(table, source, base);
    }
    while i < codes.len()
        invariant
            i <= codes.len(),
            source == codes.deep_view(),
            table == declared.deep_view(),
            table == declared_labels(lines.deep_view()),
            base == text_min_address as int,
            instructions <= i,
            instructions == instruction_count(source.take(i as int)),
            i > 0 ==> !regex_refused(LABEL_PATTERN@),
            addressed_labels(table, source.take(i as int), base) == Ok::<
                Seq<LabelView>,
                AsmError,
            >(labels.deep_view()),
        decreases codes.len() - i,
    {
        proof {
            assert(source.take(i + 1).drop_last() =~= source.take(i as int));
            assert(source.take(i + 1).last() == codes[i as int]@);
        }
        match resolve_labels(codes[i].as_str()) {
            Ok(Some(label)) => {
                let address: i128 = text_min_address as i128 + WORD_SIZE as i128
                    * instructions as i128;
                if address > i32::MAX as i128 {
                    proof {
                        lemma_addressing_fails_for_good(table, source, base, i + 1);
                    }
                    return Err(AsmError::AddressOverflow);
                }
                match address_label(label.name.as_str(), &declared, address as i32) {
                    Ok(addressed) => {
                        let ghost before = labels.deep_view();
                        labels.push(addressed);
                        assert(labels.deep_view() =~= before.push(addressed@));
                    },
                    Err(error) => {
                        proof {
                            lemma_addressing_fails_for_good(table, source, base, i + 1);
                            lemma_addressed_labels_error(table, source, base);
                        }
                        return Err(error);
                    },
                }
            },
            Ok(None) => {
                instructions = instructions + 1;
            },
            Err(error) => {
                return Err(error);
            },
        }
        i += 1;
    }
    proof {
        assert(source.take(codes.len() as int) =~= source);
        lemma_label_addresses(table, source, base);
        assert forall|j: int, k: int| 0 <= j <= k < labels.len() implies base <= (
        #[trigger] labels[j]).address <= (#[trigger] labels[k]).address <= base + WORD_SIZE
            * instruction_count(source) by {
            assert(labels.deep_view()[j] == labels[j]@);
            assert(labels.deep_view()[k] == labels[k]@);
            let first = label_positions(source)[j];
            let second = label_positions(source)[k];
            assert(0 <= first < source.len());
            assert(0 <= second < source.len());
        }
    }
    Ok(labels)
}

/// The positions in `codes` of the lines that declare a label, in order.
pub open spec fn label_positions(codes: Seq<Seq<char>>) -> Seq<int>
    decreases codes.len(),
{
    if codes.len() == 0 {
        Seq::<int>::empty()
    } else {
        let before = label_positions(codes.drop_last());
        if declared_label(codes.last()) is Some {
            before.push(codes.len() - 1)
        } else {
            before
        }
    }
}

/// Label addresses are the base plus one word for each instruction that comes before the
/// label's line, and they never decrease from one label to the next.
pub proof fn lemma_label_addresses(declared: Seq<LabelView>, codes: Seq<Seq<char>>, base: int)
    ensures
        addressed_labels(declared, codes, base) matches Ok(labels) ==> {
            &&& labels.len() == label_positions(codes).len()
            &&& forall|k: int|
                0 <= k < labels.len() ==> {
                    let position = #[trigger] label_positions(codes)[k];
                    &&& 0 <= position < codes.len()
                    &&& declared_label(codes[position]) == Some(labels[k].name)
                    &&& labels[k].address == base + WORD_SIZE * instruction_count(
                        codes.take(position),
                    )
                    &&& labels[k].address <= base + WORD_SIZE * instruction_count(codes)
                }
            &&& forall|j: int, k: int|
                0 <= j <= k < labels.len() ==> (#[trigger] labels[j]).address <= (
                #[trigger] labels[k]).address
        },
    decreases codes.len(),
{
    if codes.len() > 0 {
        let shorter = codes.drop_last();
        lemma_label_addresses(declared, shorter, base);
        if let Ok(labels) = addressed_labels(declared, codes, base) {
            let before = addressed_labels(declared, shorter, base)->Ok_0;
            let positions = label_positions(codes);
            assert(shorter =~= codes.take(codes.len() - 1));
            assert(instruction_count(shorter) <= instruction_count(codes));
            assert forall|k: int| 0 <= k < labels.len() implies {
                let position = #[trigger] positions[k];
                &&& 0 <= position < codes.len()
                &&& declared_label(codes[position]) == Some(labels[k].name)
                &&& labels[k].address == base + WORD_SIZE * instruction_count(codes.take(position))
                &&& labels[k].address <= base + WORD_SIZE * instruction_count(codes)
            } by {
                if k < before.len() {
                    let position = label_positions(shorter)[k];
                    assert(positions[k] == position);
                    assert(shorter.take(position) =~= codes.take(position));
                    assert(shorter[position] == codes[position]);
                    assert(labels[k] == before[k]);
                } else {
                    assert(positions[k] == codes.len() - 1);
                    lemma_first_label_found(declared_label(codes.last())->0, declared);
                }
            }
            assert forall|j: int, k: int| 0 <= j <= k < labels.len() implies (
            #[trigger] labels[j]).address <= (#[trigger] labels[k]).address by {
                if k < before.len() {
                    assert(labels[j] == before[j]);
                    assert(labels[k] == before[k]);
                } else if j < before.len() {
                    let position = label_positions(shorter)[j];
                    assert(0 <= position < shorter.len());
                    assert(labels[j] == before[j]);
                }
            }
        }
    }
}

} // verus!
