//! Fixed parameters of the target machine and its instruction table.

use crate::instruction::Instruction;
use crate::strings::{chars_of, text_is};
use vstd::prelude::*;

verus! {

/// Distance between two consecutive addresses of the memory image.
pub const WORD_SIZE: i32 = 1;

/// Register number of the alias `zero`.
pub const ZERO_REGISTER: i32 = 0;

/// Register number of the alias `at`.
pub const AT_REGISTER: i32 = 1;

/// Register number of the alias `sp`.
pub const SP_REGISTER: i32 = 28;

/// Register number of the alias `ra`.
pub const RA_REGISTER: i32 = 31;

/// Opcode shared by all register-format instructions.
pub const R_INSTRUCTION_OPCODE: i32 = 0x3A;

/// Default first address of the data region.
pub const DATA_SECTION_MIN_ADDRESS: i32 = 0x100;

/// Default first address of the instruction region.
pub const TEXT_SECTION_MIN_ADDRESS: i32 = 0x0;

/// The opcode of the jump-format instruction `name`.
pub open spec fn jump_opcode(name: Seq<char>) -> Option<i32> {
    if name == "call"@ {
        Some(0x0)
    } else if name == "jmpi"@ {
        Some(0x1)
    } else {
        None
    }
}

/// The opcode of the immediate-format instruction `name`.
pub open spec fn immediate_opcode(name: Seq<char>) -> Option<i32> {
    if name == "ldbu"@ {
        Some(0x3)
    } else if name == "addi"@ {
        Some(0x4)
    } else if name == "stb"@ {
        Some(0x5)
    } else if name == "br"@ {
        Some(0x6)
    } else if name == "ldb"@ {
        Some(0x7)
    } else if name == "cmpgei"@ {
        Some(0x8)
    } else if name == "ldhu"@ {
        Some(0x0B)
    } else if name == "andi"@ {
        Some(0x0C)
    } else if name == "sth"@ {
        Some(0x0D)
    } else if name == "bge"@ {
        Some(0x0E)
    } else if name == "ldh"@ {
        Some(0x0F)
    } else if name == "stw"@ {
        Some(0x15)
    } else if name == "blt"@ {
        Some(0x16)
    } else if name == "ldw"@ {
        Some(0x17)
    } else if name == "cmpnei"@ {
        Some(0x17)
    } else if name == "flushda"@ {
        Some(0x1B)
    } else if name == "xori"@ {
        Some(0x1C)
    } else if name == "bne"@ {
        Some(0x1E)
    } else if name == "stbio"@ {
        Some(0x25)
    } else if name == "beq"@ {
        Some(0x26)
    } else if name == "ldbio"@ {
        Some(0x27)
    } else if name == "cmpgeui"@ {
        Some(0x28)
    } else if name == "ldhuio"@ {
        Some(0x2B)
    } else if name == "andhi"@ {
        Some(0x2C)
    } else if name == "sthio"@ {
        Some(0x2D)
    } else if name == "bgeu"@ {
        Some(0x2E)
    } else if name == "ldhio"@ {
        Some(0x2F)
    } else if name == "stwio"@ {
        Some(0x35)
    } else if name == "bltu"@ {
        Some(0x36)
    } else if name == "ldwio"@ {
        Some(0x37)
    } else if name == "rdprs"@ {
        Some(0x38)
    } else if name == "flushd"@ {
        Some(0x3B)
    } else if name == "xorhi"@ {
        Some(0x3C)
    } else {
        None
    }
}

/// The opcode extension of the register-format instruction `name`.
pub open spec fn register_extension(name: Seq<char>) -> Option<i32> {
    if name == "eret"@ {
        Some(0x01)
    } else if name == "roli"@ {
        Some(0x02)
    } else if name == "rol"@ {
        Some(0x03)
    } else if name == "flushp"@ {
        Some(0x04)
    } else if name == "ret"@ {
        Some(0x05)
    } else if name == "nor"@ {
        Some(0x06)
    } else if name == "mulxuu"@ {
        Some(0x07)
    } else if name == "cmpge"@ {
        Some(0x08)
    } else if name == "bret"@ {
        Some(0x09)
    } else if name == "ror"@ {
        Some(0x0B)
    } else if name == "flushi"@ {
        Some(0x0C)
    } else if name == "jmp"@ {
        Some(0x0D)
    } else if name == "and"@ {
        Some(0x0E)
    } else if name == "cmplt"@ {
        Some(0x10)
    } else if name == "slli"@ {
        Some(0x12)
    } else if name == "sll"@ {
        Some(0x13)
    } else if name == "wrprs"@ {
        Some(0x14)
    } else if name == "or"@ {
        Some(0x16)
    } else if name == "mulxsu"@ {
        Some(0x17)
    } else if name == "cmpne"@ {
        Some(0x18)
    } else if name == "srli"@ {
        Some(0x1A)
    } else if name == "srl"@ {
        Some(0x1B)
    } else if name == "nextpc"@ {
        Some(0x1C)
    } else if name == "callr"@ {
        Some(0x1D)
    } else if name == "xor"@ {
        Some(0x1E)
    } else if name == "mulxss"@ {
        Some(0x1F)
    } else if name == "cmpeq"@ {
        Some(0x20)
    } else if name == "divu"@ {
        Some(0x24)
    } else if name == "div"@ {
        Some(0x25)
    } else if name == "rdctl"@ {
        Some(0x26)
    } else if name == "mul"@ {
        Some(0x27)
    } else if name == "cmpgeu"@ {
        Some(0x28)
    } else if name == "initi"@ {
        Some(0x29)
    } else if name == "trap"@ {
        Some(0x2D)
    } else if name == "cmpltu"@ {
        Some(0x30)
    } else if name == "add"@ {
        Some(0x31)
    } else if name == "break"@ {
        Some(0x34)
    } else if name == "sync"@ {
        Some(0x36)
    } else if name == "sub"@ {
        Some(0x39)
    } else if name == "srai"@ {
        Some(0x3A)
    } else if name == "sra"@ {
        Some(0x3B)
    } else {
        None
    }
}

/// The opcode and the opcode extension of the mnemonic `name`, for every mnemonic that the
/// assembler knows. Only register-format instructions have an extension other than zero,
/// and they all share one opcode.
pub open spec fn instruction_entry(name: Seq<char>) -> Option<(int, int)> {
    match (jump_opcode(name), immediate_opcode(name), register_extension(name)) {
        (Some(opcode), _, _) => Some((opcode as int, 0int)),
        (None, Some(opcode), _) => Some((opcode as int, 0int)),
        (None, None, Some(opx)) => Some((R_INSTRUCTION_OPCODE as int, opx as int)),
        (None, None, None) => None,
    }
}

/// The table holds `add` as the register-format instruction with the extension `0x31`.
pub proof fn lemma_add_entry()
    ensures
        instruction_entry("add"@) == Some((0x3Aint, 0x31int)),
{
    reveal_strlit("add");
    reveal_strlit("call");
    assert("add"@.len() != "call"@.len());
    reveal_strlit("jmpi");
    assert("add"@.len() != "jmpi"@.len());
    assert(jump_opcode("add"@) is None);
    reveal_strlit("ldbu");
    assert("add"@.len() != "ldbu"@.len());
    reveal_strlit("addi");
    assert("add"@.len() != "addi"@.len());
    reveal_strlit("stb");
    assert("add"@[0] != "stb"@[0]);
    reveal_strlit("br");
    assert("add"@.len() != "br"@.len());
    reveal_strlit("ldb");
    assert("add"@[0] != "ldb"@[0]);
    reveal_strlit("cmpgei");
    assert("add"@.len() != "cmpgei"@.len());
    reveal_strlit("ldhu");
    assert("add"@.len() != "ldhu"@.len());
    reveal_strlit("andi");
    assert("add"@.len() != "andi"@.len());
    reveal_strlit("sth");
    assert("add"@[0] != "sth"@[0]);
    reveal_strlit("bge");
    assert("add"@[0] != "bge"@[0]);
    reveal_strlit("ldh");
    assert("add"@[0] != "ldh"@[0]);
    reveal_strlit("stw");
    assert("add"@[0] != "stw"@[0]);
    reveal_strlit("blt");
    assert("add"@[0] != "blt"@[0]);
    reveal_strlit("ldw");
    assert("add"@[0] != "ldw"@[0]);
    reveal_strlit("cmpnei");
    assert("add"@.len() != "cmpnei"@.len());
    reveal_strlit("flushda");
    assert("add"@.len() != "flushda"@.len());
    reveal_strlit("xori");
    assert("add"@.len() != "xori"@.len());
    reveal_strlit("bne");
    assert("add"@[0] != "bne"@[0]);
    reveal_strlit("stbio");
    assert("add"@.len() != "stbio"@.len());
    reveal_strlit("beq");
    assert("add"@[0] != "beq"@[0]);
    reveal_strlit("ldbio");
    assert("add"@.len() != "ldbio"@.len());
    reveal_strlit("cmpgeui");
    assert("add"@.len() != "cmpgeui"@.len());
    reveal_strlit("ldhuio");
    assert("add"@.len() != "ldhuio"@.len());
    reveal_strlit("andhi");
    assert("add"@.len() != "andhi"@.len());
    reveal_strlit("sthio");
    assert("add"@.len() != "sthio"@.len());
    reveal_strlit("bgeu");
    assert("add"@.len() != "bgeu"@.len());
    reveal_strlit("ldhio");
    assert("add"@.len() != "ldhio"@.len());
    reveal_strlit("stwio");
    assert("add"@.len() != "stwio"@.len());
    reveal_strlit("bltu");
    assert("add"@.len() != "bltu"@.len());
    reveal_strlit("ldwio");
    assert("add"@.len() != "ldwio"@.len());
    reveal_strlit("rdprs");
    assert("add"@.len() != "rdprs"@.len());
    reveal_strlit("flushd");
    assert("add"@.len() != "flushd"@.len());
    reveal_strlit("xorhi");
    assert("add"@.len() != "xorhi"@.len());
    assert(immediate_opcode("add"@) is None);
    reveal_strlit("eret");
    assert("add"@.len() != "eret"@.len());
    reveal_strlit("roli");
    assert("add"@.len() != "roli"@.len());
    reveal_strlit("rol");
    assert("add"@[0] != "rol"@[0]);
    reveal_strlit("flushp");
    assert("add"@.len() != "flushp"@.len());
    reveal_strlit("ret");
    assert("add"@[0] != "ret"@[0]);
    reveal_strlit("nor");
    assert("add"@[0] != "nor"@[0]);
    reveal_strlit("mulxuu");
    assert("add"@.len() != "mulxuu"@.len());
    reveal_strlit("cmpge");
    assert("add"@.len() != "cmpge"@.len());
    reveal_strlit("bret");
    assert("add"@.len() != "bret"@.len());
    reveal_strlit("ror");
    assert("add"@[0] != "ror"@[0]);
    reveal_strlit("flushi");
    assert("add"@.len() != "flushi"@.len());
    reveal_strlit("jmp");
    assert("add"@[0] != "jmp"@[0]);
    reveal_strlit("and");
    assert("add"@[1] != "and"@[1]);
    reveal_strlit("cmplt");
    assert("add"@.len() != "cmplt"@.len());
    reveal_strlit("slli");
    assert("add"@.len() != "slli"@.len());
    reveal_strlit("sll");
    assert("add"@[0] != "sll"@[0]);
    reveal_strlit("wrprs");
    assert("add"@.len() != "wrprs"@.len());
    reveal_strlit("or");
    assert("add"@.len() != "or"@.len());
    reveal_strlit("mulxsu");
    assert("add"@.len() != "mulxsu"@.len());
    reveal_strlit("cmpne");
    assert("add"@.len() != "cmpne"@.len());
    reveal_strlit("srli");
    assert("add"@.len() != "srli"@.len());
    reveal_strlit("srl");
    assert("add"@[0] != "srl"@[0]);
    reveal_strlit("nextpc");
    assert("add"@.len() != "nextpc"@.len());
    reveal_strlit("callr");
    assert("add"@.len() != "callr"@.len());
    reveal_strlit("xor");
    assert("add"@[0] != "xor"@[0]);
    reveal_strlit("mulxss");
    assert("add"@.len() != "mulxss"@.len());
    reveal_strlit("cmpeq");
    assert("add"@.len() != "cmpeq"@.len());
    reveal_strlit("divu");
    assert("add"@.len() != "divu"@.len());
    reveal_strlit("div");
    assert("add"@[0] != "div"@[0]);
    reveal_strlit("rdctl");
    assert("add"@.len() != "rdctl"@.len());
    reveal_strlit("mul");
    assert("add"@[0] != "mul"@[0]);
    reveal_strlit("cmpgeu");
    assert("add"@.len() != "cmpgeu"@.len());
    reveal_strlit("initi");
    assert("add"@.len() != "initi"@.len());
    reveal_strlit("trap");
    assert("add"@.len() != "trap"@.len());
    reveal_strlit("cmpltu");
    assert("add"@.len() != "cmpltu"@.len());
}

/// Looks a mnemonic up among the jump-format instructions.
fn find_jump_instruction(mnemonic: &Vec<char>) -> (found: Option<Instruction>)
    ensures
        found matches Some(instruction) ==> jump_opcode(mnemonic@) == Some(instruction.opcode)
            && instruction.opx == 0 && instruction.name@ == mnemonic@,
        found is None ==> jump_opcode(mnemonic@) is None,
{
    if text_is(mnemonic, "call") {
        return Some(Instruction::new("call", 0x0, 0x0));
    }
    if text_is(mnemonic, "jmpi") {
        return Some(Instruction::new("jmpi", 0x1, 0x0));
    }
    None
}

/// Looks a mnemonic up among the immediate-format instructions.
fn find_immediate_instruction(mnemonic: &Vec<char>) -> (found: Option<Instruction>)
    ensures
        found matches Some(instruction) ==> immediate_opcode(mnemonic@) == Some(
            instruction.opcode,
        ) && instruction.opx == 0 && instruction.name@ == mnemonic@,
        found is None ==> immediate_opcode(mnemonic@) is None,
{
    if text_is(mnemonic, "ldbu") {
        return Some(Instruction::new("ldbu", 0x3, 0x0));
    }
    if text_is(mnemonic, "addi") {
        return Some(Instruction::new("addi", 0x4, 0x0));
    }
    if text_is(mnemonic, "stb") {
        return Some(Instruction::new("stb", 0x5, 0x0));
    }
    if text_is(mnemonic, "br") {
        return Some(Instruction::new("br", 0x6, 0x0));
    }
    if text_is(mnemonic, "ldb") {
        return Some(Instruction::new("ldb", 0x7, 0x0));
    }
    if text_is(mnemonic, "cmpgei") {
        return Some(Instruction::new("cmpgei", 0x8, 0x0));
    }
    if text_is(mnemonic, "ldhu") {
        return Some(Instruction::new("ldhu", 0x0B, 0x0));
    }
    if text_is(mnemonic, "andi") {
        return Some(Instruction::new("andi", 0x0C, 0x0));
    }
    if text_is(mnemonic, "sth") {
        return Some(Instruction::new("sth", 0x0D, 0x0));
    }
    if text_is(mnemonic, "bge") {
        return Some(Instruction::new("bge", 0x0E, 0x0));
    }
    if text_is(mnemonic, "ldh") {
        return Some(Instruction::new("ldh", 0x0F, 0x0));
    }
    if text_is(mnemonic, "stw") {
        return Some(Instruction::new("stw", 0x15, 0x0));
    }
    if text_is(mnemonic, "blt") {
        return Some(Instruction::new("blt", 0x16, 0x0));
    }
    if text_is(mnemonic, "ldw") {
        return Some(Instruction::new("ldw", 0x17, 0x0));
    }
    if text_is(mnemonic, "cmpnei") {
        return Some(Instruction::new("cmpnei", 0x17, 0x0));
    }
    if text_is(mnemonic, "flushda") {
        return Some(Instruction::new("flushda", 0x1B, 0x0));
    }
    if text_is(mnemonic, "xori") {
        return Some(Instruction::new("xori", 0x1C, 0x0));
    }
    if text_is(mnemonic, "bne") {
        return Some(Instruction::new("bne", 0x1E, 0x0));
    }
    if text_is(mnemonic, "stbio") {
        return Some(Instruction::new("stbio", 0x25, 0x0));
    }
    if text_is(mnemonic, "beq") {
        return Some(Instruction::new("beq", 0x26, 0x0));
    }
    if text_is(mnemonic, "ldbio") {
        return Some(Instruction::new("ldbio", 0x27, 0x0));
    }
    if text_is(mnemonic, "cmpgeui") {
        return Some(Instruction::new("cmpgeui", 0x28, 0x0));
    }
    if text_is(mnemonic, "ldhuio") {
        return Some(Instruction::new("ldhuio", 0x2B, 0x0));
    }
    if text_is(mnemonic, "andhi") {
        return Some(Instruction::new("andhi", 0x2C, 0x0));
    }
    if text_is(mnemonic, "sthio") {
        return Some(Instruction::new("sthio", 0x2D, 0x0));
    }
    if text_is(mnemonic, "bgeu") {
        return Some(Instruction::new("bgeu", 0x2E, 0x0));
    }
    if text_is(mnemonic, "ldhio") {
        return Some(Instruction::new("ldhio", 0x2F, 0x0));
    }
    if text_is(mnemonic, "stwio") {
        return Some(Instruction::new("stwio", 0x35, 0x0));
    }
    if text_is(mnemonic, "bltu") {
        return Some(Instruction::new("bltu", 0x36, 0x0));
    }
    if text_is(mnemonic, "ldwio") {
        return Some(Instruction::new("ldwio", 0x37, 0x0));
    }
    if text_is(mnemonic, "rdprs") {
        return Some(Instruction::new("rdprs", 0x38, 0x0));
    }
    if text_is(mnemonic, "flushd") {
        return Some(Instruction::new("flushd", 0x3B, 0x0));
    }
    if text_is(mnemonic, "xorhi") {
        return Some(Instruction::new("xorhi", 0x3C, 0x0));
    }
    None
}

/// Looks a mnemonic up among the register-format instructions.
fn find_register_instruction(mnemonic: &Vec<char>) -> (found: Option<Instruction>)
    ensures
        found matches Some(instruction) ==> register_extension(mnemonic@) == Some(
            instruction.opx,
        ) && instruction.opcode == R_INSTRUCTION_OPCODE && instruction.name@ == mnemonic@,
        found is None ==> register_extension(mnemonic@) is None,
{
    if text_is(mnemonic, "eret") {
        return Some(Instruction::new("eret", R_INSTRUCTION_OPCODE, 0x01));
    }
    if text_is(mnemonic, "roli") {
        return Some(Instruction::new("roli", R_INSTRUCTION_OPCODE, 0x02));
    }
    if text_is(mnemonic, "rol") {
        return Some(Instruction::new("rol", R_INSTRUCTION_OPCODE, 0x03));
    }
    if text_is(mnemonic, "flushp") {
        return Some(Instruction::new("flushp", R_INSTRUCTION_OPCODE, 0x04));
    }
    if text_is(mnemonic, "ret") {
        return Some(Instruction::new("ret", R_INSTRUCTION_OPCODE, 0x05));
    }
    if text_is(mnemonic, "nor") {
        return Some(Instruction::new("nor", R_INSTRUCTION_OPCODE, 0x06));
    }
    if text_is(mnemonic, "mulxuu") {
        return Some(Instruction::new("mulxuu", R_INSTRUCTION_OPCODE, 0x07));
    }
    if text_is(mnemonic, "cmpge") {
        return Some(Instruction::new("cmpge", R_INSTRUCTION_OPCODE, 0x08));
    }
    if text_is(mnemonic, "bret") {
        return Some(Instruction::new("bret", R_INSTRUCTION_OPCODE, 0x09));
    }
    if text_is(mnemonic, "ror") {
        return Some(Instruction::new("ror", R_INSTRUCTION_OPCODE, 0x0B));
    }
    if text_is(mnemonic, "flushi") {
        return Some(Instruction::new("flushi", R_INSTRUCTION_OPCODE, 0x0C));
    }
    if text_is(mnemonic, "jmp") {
        return Some(Instruction::new("jmp", R_INSTRUCTION_OPCODE, 0x0D));
    }
    if text_is(mnemonic, "and") {
        return Some(Instruction::new("and", R_INSTRUCTION_OPCODE, 0x0E));
    }
    if text_is(mnemonic, "cmplt") {
        return Some(Instruction::new("cmplt", R_INSTRUCTION_OPCODE, 0x10));
    }
    if text_is(mnemonic, "slli") {
        return Some(Instruction::new("slli", R_INSTRUCTION_OPCODE, 0x12));
    }
    if text_is(mnemonic, "sll") {
        return Some(Instruction::new("sll", R_INSTRUCTION_OPCODE, 0x13));
    }
    if text_is(mnemonic, "wrprs") {
        return Some(Instruction::new("wrprs", R_INSTRUCTION_OPCODE, 0x14));
    }
    if text_is(mnemonic, "or") {
        return Some(Instruction::new("or", R_INSTRUCTION_OPCODE, 0x16));
    }
    if text_is(mnemonic, "mulxsu") {
        return Some(Instruction::new("mulxsu", R_INSTRUCTION_OPCODE, 0x17));
    }
    if text_is(mnemonic, "cmpne") {
        return Some(Instruction::new("cmpne", R_INSTRUCTION_OPCODE, 0x18));
    }
    if text_is(mnemonic, "srli") {
        return Some(Instruction::new("srli", R_INSTRUCTION_OPCODE, 0x1A));
    }
    if text_is(mnemonic, "srl") {
        return Some(Instruction::new("srl", R_INSTRUCTION_OPCODE, 0x1B));
    }
    if text_is(mnemonic, "nextpc") {
        return Some(Instruction::new("nextpc", R_INSTRUCTION_OPCODE, 0x1C));
    }
    if text_is(mnemonic, "callr") {
        return Some(Instruction::new("callr", R_INSTRUCTION_OPCODE, 0x1D));
    }
    if text_is(mnemonic, "xor") {
        return Some(Instruction::new("xor", R_INSTRUCTION_OPCODE, 0x1E));
    }
    if text_is(mnemonic, "mulxss") {
        return Some(Instruction::new("mulxss", R_INSTRUCTION_OPCODE, 0x1F));
    }
    if text_is(mnemonic, "cmpeq") {
        return Some(Instruction::new("cmpeq", R_INSTRUCTION_OPCODE, 0x20));
    }
    if text_is(mnemonic, "divu") {
        return Some(Instruction::new("divu", R_INSTRUCTION_OPCODE, 0x24));
    }
    if text_is(mnemonic, "div") {
        return Some(Instruction::new("div", R_INSTRUCTION_OPCODE, 0x25));
    }
    if text_is(mnemonic, "rdctl") {
        return Some(Instruction::new("rdctl", R_INSTRUCTION_OPCODE, 0x26));
    }
    if text_is(mnemonic, "mul") {
        return Some(Instruction::new("mul", R_INSTRUCTION_OPCODE, 0x27));
    }
    if text_is(mnemonic, "cmpgeu") {
        return Some(Instruction::new("cmpgeu", R_INSTRUCTION_OPCODE, 0x28));
    }
    if text_is(mnemonic, "initi") {
        return Some(Instruction::new("initi", R_INSTRUCTION_OPCODE, 0x29));
    }
    if text_is(mnemonic, "trap") {
        return Some(Instruction::new("trap", R_INSTRUCTION_OPCODE, 0x2D));
    }
    if text_is(mnemonic, "cmpltu") {
        return Some(Instruction::new("cmpltu", R_INSTRUCTION_OPCODE, 0x30));
    }
    if text_is(mnemonic, "add") {
        return Some(Instruction::new("add", R_INSTRUCTION_OPCODE, 0x31));
    }
    if text_is(mnemonic, "break") {
        return Some(Instruction::new("break", R_INSTRUCTION_OPCODE, 0x34));
    }
    if text_is(mnemonic, "sync") {
        return Some(Instruction::new("sync", R_INSTRUCTION_OPCODE, 0x36));
    }
    if text_is(mnemonic, "sub") {
        return Some(Instruction::new("sub", R_INSTRUCTION_OPCODE, 0x39));
    }
    if text_is(mnemonic, "srai") {
        return Some(Instruction::new("srai", R_INSTRUCTION_OPCODE, 0x3A));
    }
    if text_is(mnemonic, "sra") {
        return Some(Instruction::new("sra", R_INSTRUCTION_OPCODE, 0x3B));
    }
    None
}

/// Looks the mnemonic `name` up in the instruction table.
pub fn find_instruction(name: &str) -> (found: Option<Instruction>)
    ensures
        found matches Some(instruction) ==> instruction_entry(name@) == Some(
            (instruction.opcode as int, instruction.opx as int),
        ) && instruction.name@ == name@,
        found is None ==> instruction_entry(name@) is None,
{
    let mnemonic = chars_of(name);
    if let Some(instruction) = find_jump_instruction(&mnemonic) {
        Some(instruction)
    } else if let Some(instruction) = find_immediate_instruction(&mnemonic) {
        Some(instruction)
    } else {
        find_register_instruction(&mnemonic)
    }
}

} // verus!
