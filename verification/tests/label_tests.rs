use nios2asm::error::AsmError;
use nios2asm::label::{
    address_label, extract_labels_from_lines, find_label, get_addressed_labels, is_label,
    label_from_match, resolve_labels, Label, LABEL_PATTERN,
};
use nios2asm::line::{compose_lines, Line};
use nios2asm::section::Section;

fn lines_of(source: &[&str]) -> Vec<String> {
    source.iter().map(|line| line.to_string()).collect()
}

#[test]
fn the_label_pattern() {
    assert_eq!(LABEL_PATTERN, "^.*:");
}

#[test]
fn label_new_keeps_its_fields() {
    let label = Label::new("main", 4);
    assert_eq!(label.name, "main");
    assert_eq!(label.address, 4);
}

#[test]
fn a_line_with_a_colon_declares_a_label() {
    assert_eq!(is_label("main:"), Ok(true));
    assert_eq!(is_label(".L2:"), Ok(true));
    assert_eq!(is_label("x: y"), Ok(true));
    assert_eq!(is_label(":"), Ok(true));
    assert_eq!(is_label("\taddi\tr1, r2, 3 ; note: x"), Ok(true));
}

#[test]
fn a_line_without_a_colon_declares_none() {
    assert_eq!(is_label(""), Ok(false));
    assert_eq!(is_label("\taddi\tr1, r2, 3"), Ok(false));
    assert_eq!(is_label("ret"), Ok(false));
    assert_eq!(is_label("first\nsecond:"), Ok(false));
}

#[test]
fn the_name_of_a_label_ends_before_its_colons() {
    assert_eq!(resolve_labels("main:"), Ok(Some(Label::new("main", 0))));
    assert_eq!(resolve_labels("foo: bar"), Ok(Some(Label::new("foo", 0))));
    assert_eq!(resolve_labels("a:b:c"), Ok(Some(Label::new("a:b", 0))));
    assert_eq!(resolve_labels("x::"), Ok(Some(Label::new("x", 0))));
    assert_eq!(resolve_labels(":"), Ok(Some(Label::new("", 0))));
    assert_eq!(resolve_labels("\tfoo:"), Ok(Some(Label::new("\tfoo", 0))));
    assert_eq!(resolve_labels("ret"), Ok(None));
    assert_eq!(resolve_labels(""), Ok(None));
}

#[test]
fn label_from_match_cuts_the_colons() {
    assert_eq!(label_from_match("loop:"), Label::new("loop", 0));
    assert_eq!(label_from_match("loop"), Label::new("loop", 0));
    assert_eq!(label_from_match("::"), Label::new("", 0));
}

#[test]
fn find_label_takes_the_first_of_a_name() {
    let labels = vec![Label::new("a", 1), Label::new("b", 2), Label::new("a", 3)];
    assert_eq!(find_label("a", &labels), Some(&labels[0]));
    assert_eq!(find_label("b", &labels), Some(&labels[1]));
    assert_eq!(find_label("c", &labels), None);
    assert_eq!(find_label("a", &Vec::new()), None);
}

#[test]
fn a_declared_label_gets_the_given_address() {
    let declared = vec![Label::new("main", 0), Label::new("loop", 0)];
    assert_eq!(
        address_label("loop", &declared, 17),
        Ok(Label::new("loop", 17))
    );
    assert_eq!(
        address_label("main", &declared, -1),
        Ok(Label::new("main", -1))
    );
    assert_eq!(
        address_label("ghost", &declared, 17),
        Err(AsmError::UndeclaredLabel)
    );
    assert_eq!(
        address_label("main", &Vec::new(), 0),
        Err(AsmError::UndeclaredLabel)
    );
}

#[test]
fn labels_are_declared_in_the_instruction_section_only() {
    let composed = compose_lines(&lines_of(&[
        "early:",
        ".data",
        "data1:\t.word\t10",
        ".text",
        "main:",
        "\taddi\tr1, r0, 1",
        ".L2: ",
        "",
        "late:",
    ]));
    assert_eq!(
        extract_labels_from_lines(&composed),
        Ok(vec![Label::new("main", 0), Label::new(".L2", 0)])
    );
}

#[test]
fn a_label_gets_the_address_of_the_next_instruction() {
    let source = lines_of(&[
        ".text",
        "main:",
        "\taddi\tr4, r0, 4",
        "\tcall\tfact",
        "fact:",
        "both:",
        "\tret",
        "end:",
    ]);
    let composed = compose_lines(&source);
    let codes = lines_of(&[
        "main:",
        "addi\tr4, r0, 4",
        "call\tfact",
        "fact:",
        "both:",
        "ret",
        "end:",
    ]);
    assert_eq!(
        get_addressed_labels(&composed, &codes, 0),
        Ok(vec![
            Label::new("main", 0),
            Label::new("fact", 2),
            Label::new("both", 2),
            Label::new("end", 3),
        ])
    );
    assert_eq!(
        get_addressed_labels(&composed, &codes, 0x40),
        Ok(vec![
            Label::new("main", 0x40),
            Label::new("fact", 0x42),
            Label::new("both", 0x42),
            Label::new("end", 0x43),
        ])
    );
}

#[test]
fn label_addresses_never_decrease() {
    let source = lines_of(&[".text", "a:", "\tret", "\tret", "b:", "c:", "\tret", "d:"]);
    let composed = compose_lines(&source);
    let codes = lines_of(&["a:", "ret", "ret", "b:", "c:", "ret", "d:"]);
    let labels = get_addressed_labels(&composed, &codes, 0x10).unwrap();
    let addresses: Vec<i32> = labels.iter().map(|label| label.address).collect();
    assert_eq!(addresses, vec![0x10, 0x12, 0x12, 0x13]);
    assert!(addresses.windows(2).all(|pair| pair[0] <= pair[1]));
}

#[test]
fn a_label_that_no_line_declares_is_an_error() {
    let composed = compose_lines(&lines_of(&[".text", "main:", "\tret"]));
    let codes = lines_of(&["main:", "ret", "ghost:"]);
    assert_eq!(
        get_addressed_labels(&composed, &codes, 0),
        Err(AsmError::UndeclaredLabel)
    );
    let codes = lines_of(&["ghost:", "main:"]);
    assert_eq!(
        get_addressed_labels(&composed, &codes, 0),
        Err(AsmError::UndeclaredLabel)
    );
}

#[test]
fn a_label_beyond_the_last_address_is_an_error() {
    let composed = compose_lines(&lines_of(&[".text", "a:", "\tret", "b:"]));
    let codes = lines_of(&["a:", "ret", "b:"]);
    assert_eq!(
        get_addressed_labels(&composed, &codes, i32::MAX - 1),
        Ok(vec![
            Label::new("a", i32::MAX - 1),
            Label::new("b", i32::MAX)
        ])
    );
    assert_eq!(
        get_addressed_labels(&composed, &codes, i32::MAX),
        Err(AsmError::AddressOverflow)
    );
    let codes = lines_of(&["a:", "ret", "ret", "ret"]);
    assert_eq!(
        get_addressed_labels(&composed, &codes, i32::MAX),
        Ok(vec![Label::new("a", i32::MAX)])
    );
    let codes = lines_of(&["ret", "ghost:"]);
    assert_eq!(
        get_addressed_labels(&composed, &codes, i32::MAX),
        Err(AsmError::AddressOverflow)
    );
}

#[test]
fn code_without_labels_has_no_addressed_labels() {
    let lines = vec![Line::new(Section::TEXT, 0, Some("main:".to_string()))];
    assert_eq!(
        get_addressed_labels(&lines, &lines_of(&["ret", "ret"]), 0),
        Ok(Vec::new())
    );
    assert_eq!(get_addressed_labels(&lines, &Vec::new(), 0), Ok(Vec::new()));
}
