use nios2asm::line::{compose_lines, try_compose_lines, Line};
use nios2asm::section::{resolve_section, Section};

fn lines_of(source: &[&str]) -> Vec<String> {
    source.iter().map(|line| line.to_string()).collect()
}

#[test]
fn directives_open_their_sections() {
    assert_eq!(resolve_section(".data"), Some(Section::DATA));
    assert_eq!(resolve_section("\t.data"), Some(Section::DATA));
    assert_eq!(resolve_section("  .text  "), Some(Section::TEXT));
    assert_eq!(resolve_section(".text\r"), Some(Section::TEXT));
}

#[test]
fn other_lines_open_no_section() {
    assert_eq!(resolve_section(""), None);
    assert_eq!(resolve_section("main:"), None);
    assert_eq!(resolve_section(".data x"), None);
    assert_eq!(resolve_section(".word"), None);
    assert_eq!(resolve_section("data1:\t.word\t10"), None);
    assert_eq!(resolve_section(".DATA"), None);
}

#[test]
fn line_new_keeps_its_fields() {
    let line = Line::new(Section::TEXT, 7, Some("ret".to_string()));
    assert_eq!(line.section, Section::TEXT);
    assert_eq!(line.address, 7);
    assert_eq!(line.text, Some("ret".to_string()));
}

#[test]
fn lines_before_any_directive_are_placeholders() {
    let composed = compose_lines(&lines_of(&["addi\tr1, r0, 1", "x:\t.word\t1"]));
    assert_eq!(
        composed,
        vec![
            Line::new(Section::NONE, 0xff, None),
            Line::new(Section::NONE, 0xff, None)
        ]
    );
}

#[test]
fn data_lines_take_one_word_each() {
    let composed = compose_lines(&lines_of(&[
        "\t.data",
        "a:\t.word\t1",
        "# note",
        "b:\t.word\t2",
    ]));
    assert_eq!(
        composed,
        vec![
            Line::new(Section::NONE, 0xff, None),
            Line::new(Section::DATA, 0x100, Some("a:\t.word\t1".to_string())),
            Line::new(Section::DATA, 0x101, Some("# note".to_string())),
            Line::new(Section::DATA, 0x102, Some("b:\t.word\t2".to_string())),
        ]
    );
}

#[test]
fn instruction_lines_are_trimmed_at_the_end_and_keep_the_counter() {
    let composed = compose_lines(&lines_of(&[
        ".data", ".text", "\tret \t", "; note", "#note", "main: ",
    ]));
    assert_eq!(
        composed,
        vec![
            Line::new(Section::NONE, 0xff, None),
            Line::new(Section::TEXT, 0x100, Some(".text".to_string())),
            Line::new(Section::TEXT, 0x100, Some("\tret".to_string())),
            Line::new(Section::NONE, 0x100, None),
            Line::new(Section::NONE, 0x100, None),
            Line::new(Section::TEXT, 0x100, Some("main:".to_string())),
        ]
    );
}

#[test]
fn an_indented_comment_is_kept_as_an_instruction_line() {
    let composed = compose_lines(&lines_of(&[".text", "\t; note"]));
    assert_eq!(
        composed[1],
        Line::new(Section::TEXT, 0xff, Some("\t; note".to_string()))
    );
}

#[test]
fn a_blank_line_closes_the_section() {
    let composed = compose_lines(&lines_of(&[
        ".text", "\tret", "", "\tret", "   ", ".text", "\tret",
    ]));
    let sections: Vec<Section> = composed.iter().map(|line| line.section).collect();
    assert_eq!(
        sections,
        vec![
            Section::TEXT,
            Section::TEXT,
            Section::NONE,
            Section::NONE,
            Section::NONE,
            Section::TEXT,
            Section::TEXT,
        ]
    );
    assert_eq!(composed[3].text, None);
}

#[test]
fn a_second_data_directive_takes_a_word_too() {
    let composed = compose_lines(&lines_of(&[
        ".data",
        "a:\t.word\t1",
        "",
        ".data",
        "b:\t.word\t2",
    ]));
    let addresses: Vec<i32> = composed.iter().map(|line| line.address).collect();
    assert_eq!(addresses, vec![0xff, 0x100, 0x101, 0x101, 0x102]);
    assert_eq!(composed[3].section, Section::NONE);
    assert_eq!(composed[4].section, Section::DATA);
}

#[test]
fn composing_with_a_check_gives_the_same_lines() {
    let source = lines_of(&[".data", "a:\t.word\t1", ".text", "\tret", "", "x"]);
    assert_eq!(try_compose_lines(&source), Some(compose_lines(&source)));
    assert_eq!(try_compose_lines(&Vec::new()), Some(Vec::new()));
}

#[test]
fn no_lines_compose_to_no_lines() {
    assert_eq!(compose_lines(&Vec::new()), Vec::<Line>::new());
}
