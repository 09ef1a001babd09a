use nios2asm::constants::{
    find_instruction, AT_REGISTER, DATA_SECTION_MIN_ADDRESS, RA_REGISTER, R_INSTRUCTION_OPCODE,
    SP_REGISTER, TEXT_SECTION_MIN_ADDRESS, WORD_SIZE, ZERO_REGISTER,
};
use nios2asm::instruction::{
    convert_opcode_to_format, Instruction, InstructionFormat, PSEUDO_OPCODE,
};
use nios2asm::text::Text;

const TABLE: [(&str, i32, i32); 76] = [
    ("call", 0x0, 0x0),
    ("jmpi", 0x1, 0x0),
    ("ldbu", 0x3, 0x0),
    ("addi", 0x4, 0x0),
    ("stb", 0x5, 0x0),
    ("br", 0x6, 0x0),
    ("ldb", 0x7, 0x0),
    ("cmpgei", 0x8, 0x0),
    ("ldhu", 0x0B, 0x0),
    ("andi", 0x0C, 0x0),
    ("sth", 0x0D, 0x0),
    ("bge", 0x0E, 0x0),
    ("ldh", 0x0F, 0x0),
    ("stw", 0x15, 0x0),
    ("blt", 0x16, 0x0),
    ("ldw", 0x17, 0x0),
    ("cmpnei", 0x17, 0x0),
    ("flushda", 0x1B, 0x0),
    ("xori", 0x1C, 0x0),
    ("bne", 0x1E, 0x0),
    ("stbio", 0x25, 0x0),
    ("beq", 0x26, 0x0),
    ("ldbio", 0x27, 0x0),
    ("cmpgeui", 0x28, 0x0),
    ("ldhuio", 0x2B, 0x0),
    ("andhi", 0x2C, 0x0),
    ("sthio", 0x2D, 0x0),
    ("bgeu", 0x2E, 0x0),
    ("ldhio", 0x2F, 0x0),
    ("stwio", 0x35, 0x0),
    ("bltu", 0x36, 0x0),
    ("ldwio", 0x37, 0x0),
    ("rdprs", 0x38, 0x0),
    ("flushd", 0x3B, 0x0),
    ("xorhi", 0x3C, 0x0),
    ("eret", 0x3A, 0x01),
    ("roli", 0x3A, 0x02),
    ("rol", 0x3A, 0x03),
    ("flushp", 0x3A, 0x04),
    ("ret", 0x3A, 0x05),
    ("nor", 0x3A, 0x06),
    ("mulxuu", 0x3A, 0x07),
    ("cmpge", 0x3A, 0x08),
    ("bret", 0x3A, 0x09),
    ("ror", 0x3A, 0x0B),
    ("flushi", 0x3A, 0x0C),
    ("jmp", 0x3A, 0x0D),
    ("and", 0x3A, 0x0E),
    ("cmplt", 0x3A, 0x10),
    ("slli", 0x3A, 0x12),
    ("sll", 0x3A, 0x13),
    ("wrprs", 0x3A, 0x14),
    ("or", 0x3A, 0x16),
    ("mulxsu", 0x3A, 0x17),
    ("cmpne", 0x3A, 0x18),
    ("srli", 0x3A, 0x1A),
    ("srl", 0x3A, 0x1B),
    ("nextpc", 0x3A, 0x1C),
    ("callr", 0x3A, 0x1D),
    ("xor", 0x3A, 0x1E),
    ("mulxss", 0x3A, 0x1F),
    ("cmpeq", 0x3A, 0x20),
    ("divu", 0x3A, 0x24),
    ("div", 0x3A, 0x25),
    ("rdctl", 0x3A, 0x26),
    ("mul", 0x3A, 0x27),
    ("cmpgeu", 0x3A, 0x28),
    ("initi", 0x3A, 0x29),
    ("trap", 0x3A, 0x2D),
    ("cmpltu", 0x3A, 0x30),
    ("add", 0x3A, 0x31),
    ("break", 0x3A, 0x34),
    ("sync", 0x3A, 0x36),
    ("sub", 0x3A, 0x39),
    ("srai", 0x3A, 0x3A),
    ("sra", 0x3A, 0x3B),
];

#[test]
fn constants_of_the_machine() {
    assert_eq!(WORD_SIZE, 1);
    assert_eq!(ZERO_REGISTER, 0);
    assert_eq!(AT_REGISTER, 1);
    assert_eq!(SP_REGISTER, 28);
    assert_eq!(RA_REGISTER, 31);
    assert_eq!(R_INSTRUCTION_OPCODE, 0x3A);
    assert_eq!(DATA_SECTION_MIN_ADDRESS, 0x100);
    assert_eq!(TEXT_SECTION_MIN_ADDRESS, 0);
    assert_eq!(PSEUDO_OPCODE, -1);
}

#[test]
fn every_mnemonic_has_its_opcode_and_extension() {
    for (name, opcode, opx) in TABLE {
        let found = find_instruction(name).unwrap();
        assert_eq!(found.name, name);
        assert_eq!(found.opcode, opcode, "{}", name);
        assert_eq!(found.opx, opx, "{}", name);
    }
}

#[test]
fn other_names_are_not_in_the_table() {
    for name in [
        "", "nop", "ADD", "add ", " add", "addx", "ad", "mov", "cmp", "bldhio",
    ] {
        assert_eq!(find_instruction(name), None, "{:?}", name);
    }
}

#[test]
fn the_opcode_selects_the_format() {
    assert_eq!(convert_opcode_to_format(0x3A), InstructionFormat::REGISTER);
    assert_eq!(convert_opcode_to_format(0), InstructionFormat::JUMP);
    assert_eq!(convert_opcode_to_format(1), InstructionFormat::JUMP);
    assert_eq!(convert_opcode_to_format(-1), InstructionFormat::PSEUDO);
    assert_eq!(convert_opcode_to_format(2), InstructionFormat::IMMEDIATE);
    assert_eq!(convert_opcode_to_format(4), InstructionFormat::IMMEDIATE);
    assert_eq!(convert_opcode_to_format(0x3B), InstructionFormat::IMMEDIATE);
    assert_eq!(convert_opcode_to_format(-2), InstructionFormat::IMMEDIATE);
    assert_eq!(
        convert_opcode_to_format(i32::MAX),
        InstructionFormat::IMMEDIATE
    );
}

#[test]
fn every_table_entry_has_an_encoding() {
    for (name, opcode, _) in TABLE {
        assert_ne!(
            convert_opcode_to_format(opcode),
            InstructionFormat::PSEUDO,
            "{}",
            name
        );
    }
}

#[test]
fn instruction_new_keeps_its_fields() {
    let instruction = Instruction::new("addi", 0x4, 0x0);
    assert_eq!(instruction.name, "addi");
    assert_eq!(instruction.opcode, 4);
    assert_eq!(instruction.opx, 0);
}

#[test]
fn conditional_branches_are_told_by_their_opcode() {
    for name in ["beq", "bne", "bge", "blt"] {
        assert!(
            find_instruction(name).unwrap().is_conditional_branch(),
            "{}",
            name
        );
    }
    for name in ["br", "bgeu", "bltu", "addi", "call", "add", "ret"] {
        assert!(
            !find_instruction(name).unwrap().is_conditional_branch(),
            "{}",
            name
        );
    }
}

#[test]
fn the_relative_branch_is_br() {
    assert!(find_instruction("br").unwrap().is_relative_branch());
    for name in ["beq", "bne", "call", "jmpi", "add"] {
        assert!(
            !find_instruction(name).unwrap().is_relative_branch(),
            "{}",
            name
        );
    }
}

#[test]
fn the_register_jump_is_told_by_its_extension() {
    assert!(find_instruction("ret").unwrap().is_register_jump());
    assert!(Instruction::new("x", 0x4, 0x5).is_register_jump());
    for name in ["eret", "jmp", "callr", "add", "addi"] {
        assert!(
            !find_instruction(name).unwrap().is_register_jump(),
            "{}",
            name
        );
    }
}

#[test]
fn register_format_record() {
    let mul = Instruction::new("mul", 0x3A, 0x27);
    assert_eq!(
        mul.to_register_format_text(2, 4, 3, 1),
        Text::new(2, 4, 3, 1, 0x27, 0x3A, 0, 0)
    );
    let odd = Instruction::new("odd", 0x04, 0x27);
    assert_eq!(
        odd.to_register_format_text(2, 4, 3, 1),
        Text::new(2, 4, 3, 1, 0x27, 0x3A, 0, 0)
    );
}

#[test]
fn jump_format_record() {
    let call = Instruction::new("call", 0x0, 0x0);
    assert_eq!(
        call.to_jump_format_text(4),
        Text::new(0, 0, 0, 0, 0, 0, 0, 4)
    );
    let jmpi = Instruction::new("jmpi", 0x1, 0x7);
    assert_eq!(
        jmpi.to_jump_format_text(-1),
        Text::new(0, 0, 0, 0, 7, 1, 0, -1)
    );
}

#[test]
fn immediate_format_record() {
    let addi = Instruction::new("addi", 0x4, 0x0);
    assert_eq!(
        addi.to_immediate_format_text(28, 0, 0x200),
        Text::new(28, 0, 0, 0, 0, 4, 0x200, 0)
    );
}
