//! The ways in which assembling a program can fail.

use vstd::prelude::*;
use vstd::string::StringExecFns;

verus! {

/// Why a run was abandoned. The first problem found ends the run.
#[derive(Clone, Copy, Debug, PartialEq, Eq, Structural)]
pub enum AsmError {
    /// The mnemonic of an instruction line is not in the instruction table.
    UnknownInstruction,
    /// An operand has none of the four operand shapes.
    UnknownArgument,
    /// An operand names neither a datum nor a label, or a stack expression does not have
    /// its two parts.
    UnresolvedArgument,
    /// A label line of the code is not declared in the instruction section.
    UndeclaredLabel,
    /// A register number, an offset or an immediate is not an integer literal.
    InvalidNumber,
    /// A line of the data section does not declare a datum.
    InvalidDatum,
    /// A pseudo instruction reached the encoder.
    PseudoInstruction,
    /// The instruction region reaches into the data region.
    SectionsOverlap,
    /// An address or an offset does not fit the machine's address type.
    AddressOverflow,
    /// The pattern matcher refused one of the assembler's patterns.
    Pattern,
}

impl AsmError {
    /// The text of the message, for each kind of error.
    pub open spec fn message_text(self) -> Seq<char> {
        match self {
            AsmError::UnknownInstruction => "Unknown instruction."@,
            AsmError::UnknownArgument => "Failed to resolve argument."@,
            AsmError::UnresolvedArgument => "Failed to resolve argument value."@,
            AsmError::UndeclaredLabel => "Use of undeclared label."@,
            AsmError::InvalidNumber => "Invalid number."@,
            AsmError::InvalidDatum => "Invalid data declaration."@,
            AsmError::PseudoInstruction => "A pseudo instruction found."@,
            AsmError::SectionsOverlap => "The .text section overlap the .data section!"@,
            AsmError::AddressOverflow => "Address out of range."@,
            AsmError::Pattern => "Invalid pattern."@,
        }
    }

    /// A message for the user.
    pub fn message(&self) -> (text: String)
        ensures
            text@ == self.message_text(),
    {
        match self {
            AsmError::UnknownInstruction => String::from_str("Unknown instruction."),
            AsmError::UnknownArgument => String::from_str("Failed to resolve argument."),
            AsmError::UnresolvedArgument => String::from_str("Failed to resolve argument value."),
            AsmError::UndeclaredLabel => String::from_str("Use of undeclared label."),
            AsmError::InvalidNumber => String::from_str("Invalid number."),
            AsmError::InvalidDatum => String::from_str("Invalid data declaration."),
            AsmError::PseudoInstruction => String::from_str("A pseudo instruction found."),
            AsmError::SectionsOverlap => String::from_str(
                "The .text section overlap the .data section!",
            ),
            AsmError::AddressOverflow => String::from_str("Address out of range."),
            AsmError::Pattern => String::from_str("Invalid pattern."),
        }
    }
}

} // verus!
