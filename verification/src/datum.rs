//! Named words of the data section.

use crate::constants::WORD_SIZE;
use crate::error::AsmError;
use crate::line::{Line, LineView};
use crate::section::Section;
use crate::strings::{same_text, split, split_on, trim, trim_end_matches, trimmed, without_trailing};
use crate::utils::{
    binary_digits, convert_int_to_binary, convert_string_to_hex, convert_string_to_int,
    hex_digits, integer_literal, is_machine_address, lemma_binary_digits_len,
    lemma_hex_digits_len,
};
use vstd::prelude::*;

verus! {

/// A named word of data and the address it is loaded at.
#[derive(Clone, Debug, PartialEq, Eq)]
pub struct Datum {
    pub name: String,
    pub value: i32,
    pub address: i32,
}

/// What a [`Datum`] holds, as plain values.
pub struct DatumView {
    pub name: Seq<char>,
    pub value: int,
    pub address: int,
}

impl View for Datum {
    type V = DatumView;

    open spec fn view(&self) -> DatumView {
        DatumView { name: self.name@, value: self.value as int, address: self.address as int }
    }
}

impl DeepView for Datum {
    type V = DatumView;

    open spec fn deep_view(&self) -> DatumView {
        self@
    }
}

impl Datum {
    /// The datum `name` with `value`, at `address`.
    pub fn new(name: &str, value: i32, address: i32) -> (datum: Datum)
        ensures
            datum@ == (DatumView { name: name@, value: value as int, address: address as int }),
    {
        Datum { name: name.to_owned(), value, address }
    }

    /// The value as a machine word: eight hexadecimal digits, two's complement.
    pub fn to_hex(&self) -> (hex: String)
        ensures
            hex@ == hex_digits(binary_digits(self.value as int, 32)),
            hex@.len() == 8,
    {
        proof {
            lemma_binary_digits_len(self.value as int, 32);
            lemma_hex_digits_len(binary_digits(self.value as int, 32));
        }
        let binary = convert_int_to_binary(self.value, 32);
        convert_string_to_hex(binary.as_str())
    }
}

/// The first datum of `data` that is called `name`.
pub open spec fn first_datum(name: Seq<char>, data: Seq<DatumView>) -> Option<DatumView>
    decreases data.len(),
{
    if data.len() == 0 {
        None
    } else if data[0].name == name {
        Some(data[0])
    } else {
        first_datum(name, data.drop_first())
    }
}

/// Looks `name` up in the datum table. Where a name occurs twice the first entry wins.
pub fn find_datum<'a>(name: &str, data: &'a Vec<Datum>) -> (found: Option<&'a Datum>)
    ensures
        found matches Some(datum) ==> first_datum(name@, data.deep_view()) == Some(datum@),
        found is None ==> first_datum(name@, data.deep_view()) is None,
{
    let ghost table = data.deep_view();
    let mut i: usize = 0;
    assert(table.skip(0) =~= table);
    while i < data.len()
        invariant
            i <= data.len(),
            table == data.deep_view(),
            first_datum(name@, table) == first_datum(name@, table.skip(i as int)),
        decreases data.len() - i,
    {
        assert(table.skip(i as int).drop_first() =~= table.skip(i + 1));
        assert(table.skip(i as int)[0] == data[i as int]@);
        if same_text(data[i].name.as_str(), name) {
            return Some(&data[i]);
        }
        i += 1;
    }
    None
}

/// The name and the value that a line of the data section declares. The line has the fields
/// name, directive and value, parted by tabs; a colon after the name does not belong to it.
pub open spec fn datum_declaration(line: Seq<char>) -> Option<(Seq<char>, int)> {
    let fields = split_on(line, '\t');
    if fields.len() >= 3 {
        match integer_literal(trimmed(fields[2])) {
            Some(value) => Some((without_trailing(trimmed(fields[0]), ':'), value)),
            None => None,
        }
    } else {
        None
    }
}

/// Whether `line` is a line of the data section that holds text.
pub open spec fn is_data_line(line: LineView) -> bool {
    line.section == Section::DATA && line.text is Some
}

/// The datum table of `lines`: one datum for each data line, in source order, the first at
/// `base` and each next one a word further. The first data line that declares no datum, or
/// whose datum would lie beyond the machine's addresses, makes the whole table fail.
pub open spec fn extracted_data(lines: Seq<LineView>, base: int) -> Result<Seq<DatumView>, AsmError>
    decreases lines.len(),
{
    if lines.len() == 0 {
        Ok(Seq::<DatumView>::empty())
    } else {
        match extracted_data(lines.drop_last(), base) {
            Err(error) => Err(error),
            Ok(data) => if is_data_line(lines.last()) {
                match datum_declaration(lines.last().text->0) {
                    Some((name, value)) => {
                        let address = base + WORD_SIZE * data.len();
                        if is_machine_address(address) {
                            Ok(data.push(DatumView { name, value, address }))
                        } else {
                            Err(AsmError::AddressOverflow)
                        }
                    },
                    None => Err(AsmError::InvalidDatum),
                }
            } else {
                Ok(data)
            },
        }
    }
}

/// A datum table fails only for a data line that declares no datum or for a datum beyond
/// the machine's addresses.
pub proof fn lemma_extracted_data_error(lines: Seq<LineView>, base: int)
    ensures
        extracted_data(lines, base) matches Err(error) ==> error == AsmError::InvalidDatum
            || error == AsmError::AddressOverflow,
    decreases lines.len(),
{
    if lines.len() > 0 {
        lemma_extracted_data_error(lines.drop_last(), base);
    }
}

/// Datum addresses start at the base and are one word apart, in declaration order.
pub proof fn lemma_data_addresses_sequential(lines: Seq<LineView>, base: int)
    ensures
        extracted_data(lines, base) matches Ok(data) ==> forall|i: int|
            0 <= i < data.len() ==> (#[trigger] data[i]).address == base + WORD_SIZE * i,
    decreases lines.len(),
{
    if lines.len() > 0 {
        lemma_data_addresses_sequential(lines.drop_last(), base);
    }
}

/// Reads the name and the value out of a line of the data section.
pub fn parse_datum(line: &str) -> (parsed: Option<(String, i32)>)
    ensures
        parsed matches Some((name, value)) ==> datum_declaration(line@) == Some(
            (name@, value as int),
        ),
        parsed is None ==> datum_declaration(line@) is None,
{
    let fields = split(line, '\t');
    if fields.len() >= 3 {
        assert(fields.deep_view()[0] == fields[0]@);
        assert(fields.deep_view()[2] == fields[2]@);
        match convert_string_to_int(trim(fields[2].as_str())) {
            Some(value) => {
                let name = trim_end_matches(trim(fields[0].as_str()), ':');
                Some((name.to_owned(), value))
            },
            None => None,
        }
    } else {
        None
    }
}

/// Builds the datum table from the composed lines, the first datum at `data_min_address`.
pub fn extract_data_from_lines(
    lines: &Vec<Line>,
    data_min_address: i32,
) -> (extracted: Result<Vec<Datum>, AsmError>)
    ensures
        extracted matches Ok(data) ==> extracted_data(lines.deep_view(), data_min_address as int)
            == Ok::<Seq<DatumView>, AsmError>(data.deep_view()),
        extracted matches Err(error) ==> extracted_data(
            lines.deep_view(),
            data_min_address as int,
        ) == Err::<Seq<DatumView>, AsmError>(error),
        extracted matches Ok(data) ==> forall|i: int|
            0 <= i < data.len() ==> (#[trigger] data[i]).address == data_min_address + WORD_SIZE
                * i,
{
    let ghost source = lines.deep_view();
    let ghost base = data_min_address as int;
    let mut data: Vec<Datum> = Vec::new();
    let mut i: usize = 0;
    proof {
        assert(source.take(0) =~= Seq::<LineView>::empty());
        assert(data.deep_view() =~= Seq::<DatumView>::empty());
    }
    while i < lines.len()
        invariant
            i <= lines.len(),
            source == lines.deep_view(),
            base == data_min_address as int,
            data.len() <= i,
            extracted_data(source.take(i as int), base) == Ok::<Seq<DatumView>, AsmError>(
                data.deep_view(),
            ),
        decreases lines.len() - i,
    {
        proof {
            assert(source.take(i + 1).drop_last() =~= source.take(i as int));
            assert(source.take(i + 1).last() == lines[i as int]@);
        }
        let line = &lines[i];
        match (&line.section, &line.text) {
            (Section::DATA, Some(text)) => {
                match parse_datum(text.as_str()) {
                    Some((name, value)) => {
                        let address: i128 = data_min_address as i128 + WORD_SIZE as i128
                            * data.len() as i128;
                        if address > i32::MAX as i128 {
                            proof {
                                lemma_extraction_fails_for_good(source, base, i + 1);
                            }
                            return Err(AsmError::AddressOverflow);
                        }
                        let datum = Datum { name, value, address: address as i32 };
                        let ghost before = data.deep_view();
                        data.push(datum);
                        assert(data.deep_view() =~= before.push(datum@));
                    },
                    None => {
                        proof {
                            lemma_extraction_fails_for_good(source, base, i + 1);
                        }
                        return Err(AsmError::InvalidDatum);
                    },
                }
            },
            _ => {},
        }
        i += 1;
    }
    proof {
        assert(source.take(lines.len() as int) =~= source);
        lemma_data_addresses_sequential(source, base);
        let table = extracted_data(source, base)->Ok_0;
        assert(table == data.deep_view());
        assert forall|i: int| 0 <= i < data.len() implies (#[trigger] data[i]).address == base
            + WORD_SIZE * i by {
            assert(table[i].address == base + WORD_SIZE * i);
            assert(table[i] == data[i]@);
        }
    }
    Ok(data)
}

/// Once a prefix of the lines has failed, the whole has failed in the same way.
proof fn lemma_extraction_fails_for_good(lines: Seq<LineView>, base: int, k: int)
    requires
        0 <= k <= lines.len(),
        extracted_data(lines.take(k), base) is Err,
    ensures
        extracted_data(lines, base) == extracted_data(lines.take(k), base),
    decreases lines.len() - k,
{
    if k == lines.len() {
        assert(lines.take(k) =~= lines);
    } else {
        assert(lines.take(k + 1).drop_last() =~= lines.take(k));
        lemma_extraction_fails_for_good(lines, base, k + 1);
    }
}

} // verus!
