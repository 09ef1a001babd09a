use nios2asm::datum::{extract_data_from_lines, find_datum, parse_datum, Datum};
use nios2asm::error::AsmError;
use nios2asm::line::{compose_lines, Line};
use nios2asm::section::Section;

fn lines_of(source: &[&str]) -> Vec<String> {
    source.iter().map(|line| line.to_string()).collect()
}

#[test]
fn datum_new_keeps_its_fields() {
    let datum = Datum::new("data1", 10, 0x100);
    assert_eq!(datum.name, "data1");
    assert_eq!(datum.value, 10);
    assert_eq!(datum.address, 0x100);
}

#[test]
fn datum_to_hex_is_a_word_in_twos_complement() {
    assert_eq!(Datum::new("a", 10, 0).to_hex(), "0000000a");
    assert_eq!(Datum::new("a", -20, 0).to_hex(), "ffffffec");
    assert_eq!(Datum::new("a", 0, 0).to_hex(), "00000000");
    assert_eq!(Datum::new("a", i32::MIN, 0).to_hex(), "80000000");
    assert_eq!(Datum::new("a", i32::MAX, 0).to_hex(), "7fffffff");
}

#[test]
fn parse_datum_reads_name_and_value() {
    assert_eq!(
        parse_datum("data1:\t.word\t10"),
        Some(("data1".to_string(), 10))
    );
    assert_eq!(
        parse_datum(" x :\t.word\t -0x10 "),
        Some(("x ".to_string(), -16))
    );
    assert_eq!(
        parse_datum("y::\t.word\t7\tnote"),
        Some(("y".to_string(), 7))
    );
    assert_eq!(parse_datum("z\t\t1"), Some(("z".to_string(), 1)));
}

#[test]
fn parse_datum_refuses_other_lines() {
    assert_eq!(parse_datum("data1: .word 10"), None);
    assert_eq!(parse_datum("data1:\t.word"), None);
    assert_eq!(parse_datum("data1:\t.word\tten"), None);
    assert_eq!(parse_datum("data1:\t.word\t"), None);
    assert_eq!(parse_datum("# note"), None);
}

#[test]
fn find_datum_takes_the_first_of_a_name() {
    let data = vec![
        Datum::new("a", 1, 0x100),
        Datum::new("b", 2, 0x101),
        Datum::new("a", 3, 0x102),
    ];
    assert_eq!(find_datum("a", &data), Some(&data[0]));
    assert_eq!(find_datum("b", &data), Some(&data[1]));
    assert_eq!(find_datum("c", &data), None);
    assert_eq!(find_datum("a", &Vec::new()), None);
}

#[test]
fn datum_addresses_are_sequential_from_the_base() {
    let composed = compose_lines(&lines_of(&[
        ".data",
        "a:\t.word\t1",
        "",
        ".data",
        "b:\t.word\t-2",
        "c:\t.word\t0x30",
        ".text",
        "d:\t.word\t4",
    ]));
    let data = extract_data_from_lines(&composed, 0x200).unwrap();
    assert_eq!(
        data,
        vec![
            Datum::new("a", 1, 0x200),
            Datum::new("b", -2, 0x201),
            Datum::new("c", 0x30, 0x202)
        ]
    );
    let data = extract_data_from_lines(&composed, -1).unwrap();
    let addresses: Vec<i32> = data.iter().map(|datum| datum.address).collect();
    assert_eq!(addresses, vec![-1, 0, 1]);
}

#[test]
fn only_data_lines_with_text_declare_data() {
    let lines = vec![
        Line::new(Section::NONE, 0, Some("a:\t.word\t1".to_string())),
        Line::new(Section::TEXT, 0, Some("b:\t.word\t2".to_string())),
        Line::new(Section::DATA, 0, None),
        Line::new(Section::DATA, 9, Some("c:\t.word\t3".to_string())),
    ];
    assert_eq!(
        extract_data_from_lines(&lines, 0x100),
        Ok(vec![Datum::new("c", 3, 0x100)])
    );
    assert_eq!(extract_data_from_lines(&Vec::new(), 0x100), Ok(Vec::new()));
}

#[test]
fn a_datum_beyond_the_last_address_fails() {
    let composed = compose_lines(&lines_of(&[".data", "a:\t.word\t1", "b:\t.word\t2"]));
    assert_eq!(
        extract_data_from_lines(&composed, i32::MAX - 1),
        Ok(vec![
            Datum::new("a", 1, i32::MAX - 1),
            Datum::new("b", 2, i32::MAX)
        ])
    );
    assert_eq!(
        extract_data_from_lines(&composed, i32::MAX),
        Err(AsmError::AddressOverflow)
    );
    let composed = compose_lines(&lines_of(&[".data", "a:\t.word\t1", "", "", ".text", "x"]));
    assert_eq!(
        extract_data_from_lines(&composed, i32::MAX),
        Ok(vec![Datum::new("a", 1, i32::MAX)])
    );
    let composed = compose_lines(&lines_of(&[".data", "a:\t.word\t1", "b\t.word"]));
    assert_eq!(
        extract_data_from_lines(&composed, i32::MAX),
        Err(AsmError::InvalidDatum)
    );
}

#[test]
fn a_data_line_without_a_declaration_fails() {
    let composed = compose_lines(&lines_of(&[
        ".data",
        "a:\t.word\t1",
        "# note",
        "b:\t.word\t2",
    ]));
    assert_eq!(
        extract_data_from_lines(&composed, 0x100),
        Err(AsmError::InvalidDatum)
    );
}
