//! Instruction descriptors and the three encoding formats.

use crate::constants::R_INSTRUCTION_OPCODE;
use crate::strings::{split_on, without_leading_whitespace};
use crate::text::{Text, TextView};
use vstd::prelude::*;

verus! {

/// The opcode that marks a pseudo instruction, which has no encoding.
pub const PSEUDO_OPCODE: i32 = -1;

/// The layout in which an instruction is encoded.
#[derive(Clone, Copy, Debug, PartialEq, Eq, Structural)]
pub enum InstructionFormat {
    /// Three registers, an opcode extension and a shift amount.
    REGISTER,
    /// Two registers and a 16-bit immediate.
    IMMEDIATE,
    /// A 26-bit address.
    JUMP,
    /// No encoding at all.
    PSEUDO,
}

/// A mnemonic with its opcode and opcode extension.
#[derive(Clone, Copy, Debug, PartialEq, Eq)]
pub struct Instruction {
    pub name: &'static str,
    pub opcode: i32,
    pub opx: i32,
}

/// The format that `opcode` selects.
pub open spec fn format_of(opcode: int) -> InstructionFormat {
    if opcode == R_INSTRUCTION_OPCODE {
        InstructionFormat::REGISTER
    } else if opcode == 0 || opcode == 1 {
        InstructionFormat::JUMP
    } else if opcode == PSEUDO_OPCODE {
        InstructionFormat::PSEUDO
    } else {
        InstructionFormat::IMMEDIATE
    }
}

/// Tells in which format instructions with `opcode` are encoded.
pub fn convert_opcode_to_format(opcode: i32) -> (format: InstructionFormat)
    ensures
        format == format_of(opcode as int),
{
    if opcode == R_INSTRUCTION_OPCODE {
        InstructionFormat::REGISTER
    } else if opcode == 0 || opcode == 1 {
        InstructionFormat::JUMP
    } else if opcode == PSEUDO_OPCODE {
        InstructionFormat::PSEUDO
    } else {
        InstructionFormat::IMMEDIATE
    }
}

/// The mnemonic of an instruction line: what stands before the first tab, leading
/// whitespace aside.
pub open spec fn mnemonic_of(code: Seq<char>) -> Seq<char> {
    split_on(without_leading_whitespace(code), '\t')[0]
}

/// Whether `opcode` is that of `beq`, `bne`, `bge` or `blt`.
pub open spec fn is_conditional_branch_opcode(opcode: int) -> bool {
    opcode == 0x26 || opcode == 0x1E || opcode == 0x0E || opcode == 0x16
}

/// Whether `opcode` is that of `br`.
pub open spec fn is_relative_branch_opcode(opcode: int) -> bool {
    opcode == 0x6
}

/// Whether `opx` is the opcode extension of `ret`.
pub open spec fn is_register_jump_extension(opx: int) -> bool {
    opx == 0x5
}

/// A register-format record: the opcode is the one that all register-format instructions
/// share, and the extension tells them apart.
pub open spec fn register_record(opx: int, ra: int, rb: int, rc: int, shamt: int) -> TextView {
    TextView {
        ra,
        rb,
        rc,
        shamt,
        opx,
        opcode: R_INSTRUCTION_OPCODE as int,
        immediate: 0,
        address: 0,
    }
}

/// A jump-format record.
pub open spec fn jump_record(opcode: int, opx: int, address: int) -> TextView {
    TextView { ra: 0, rb: 0, rc: 0, shamt: 0, opx, opcode, immediate: 0, address }
}

/// An immediate-format record.
pub open spec fn immediate_record(
    opcode: int,
    opx: int,
    ra: int,
    rb: int,
    immediate: int,
) -> TextView {
    TextView { ra, rb, rc: 0, shamt: 0, opx, opcode, immediate, address: 0 }
}

impl Instruction {
    /// The descriptor of the mnemonic `name`.
    pub fn new(name: &'static str, opcode: i32, opx: i32) -> (instruction: Instruction)
        ensures
            instruction.name == name,
            instruction.opcode == opcode,
            instruction.opx == opx,
    {
        Instruction { name, opcode, opx }
    }

    /// Whether the instruction branches on a comparison of two registers.
    pub fn is_conditional_branch(&self) -> (answer: bool)
        ensures
            answer == is_conditional_branch_opcode(self.opcode as int),
    {
        self.opcode == 0x26 || self.opcode == 0x1E || self.opcode == 0x0E || self.opcode == 0x16
    }

    /// Whether the instruction branches without a condition.
    pub fn is_relative_branch(&self) -> (answer: bool)
        ensures
            answer == is_relative_branch_opcode(self.opcode as int),
    {
        self.opcode == 0x6
    }

    /// Whether the instruction returns through a register.
    pub fn is_register_jump(&self) -> (answer: bool)
        ensures
            answer == is_register_jump_extension(self.opx as int),
    {
        self.opx == 0x5
    }

    /// Fills a register-format record.
    pub fn to_register_format_text(&self, ra: i32, rb: i32, rc: i32, shamt: i32) -> (text: Text)
        ensures
            text@ == register_record(
                self.opx as int,
                ra as int,
                rb as int,
                rc as int,
                shamt as int,
            ),
    {
        Text::new(ra, rb, rc, shamt, self.opx, R_INSTRUCTION_OPCODE, 0, 0)
    }

    /// Fills a jump-format record.
    pub fn to_jump_format_text(&self, address: i32) -> (text: Text)
        ensures
            text@ == jump_record(self.opcode as int, self.opx as int, address as int),
    {
        Text::new(0, 0, 0, 0, self.opx, self.opcode, 0, address)
    }

    /// Fills an immediate-format record.
    pub fn to_immediate_format_text(&self, ra: i32, rb: i32, immediate: i32) -> (text: Text)
        ensures
            text@ == immediate_record(
                self.opcode as int,
                self.opx as int,
                ra as int,
                rb as int,
                immediate as int,
            ),
    {
        Text::new(ra, rb, 0, 0, self.opx, self.opcode, immediate, 0)
    }
}

} // verus!
