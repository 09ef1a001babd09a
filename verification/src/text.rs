//! Encoded instructions: operand resolution and the bit layout of each format.

use crate::constants::{
    find_instruction, instruction_entry, lemma_add_entry, AT_REGISTER, RA_REGISTER, SP_REGISTER,
    ZERO_REGISTER,
};
use crate::datum::{find_datum, first_datum, Datum, DatumView};
use crate::error::AsmError;
use crate::instruction::{
    convert_opcode_to_format, format_of, immediate_record, is_conditional_branch_opcode,
    is_register_jump_extension, is_relative_branch_opcode, jump_record, mnemonic_of,
    register_record, Instruction, InstructionFormat,
};
use crate::label::{find_label, first_label, Label, LabelView};
use crate::pattern::{is_match, regex_accepts, regex_refused};
use crate::strings::{
    lemma_split_on_joined, lemma_split_on_without_separator, same_text, split, split_on, trim,
    trim_start, trimmed, without_leading_whitespace,
};
use crate::utils::{
    as_ints, binary_digits, binary_value, branch_offset, convert_int_to_binary,
    convert_string_to_hex, convert_string_to_int, digit_value, get_address_difference,
    hex_digits, integer_literal, is_numeral, lemma_binary_digits_len, lemma_hex_digits_len,
    lemma_hex_digits_of_group, lemma_hex_digits_with_group, numeral_value,
};
use vstd::prelude::*;
use vstd::string::StringExecFns;

verus! {

/// The fields of an encoded instruction. Each format uses the fields of its layout and
/// leaves the others alone.
#[derive(Clone, Copy, Debug, PartialEq, Eq, Structural)]
pub struct Text {
    pub ra: i32,
    pub rb: i32,
    pub rc: i32,
    pub shamt: i32,
    pub opx: i32,
    pub opcode: i32,
    pub immediate: i32,
    pub address: i32,
}

/// What a [`Text`] holds, as plain values.
pub struct TextView {
    pub ra: int,
    pub rb: int,
    pub rc: int,
    pub shamt: int,
    pub opx: int,
    pub opcode: int,
    pub immediate: int,
    pub address: int,
}

impl View for Text {
    type V = TextView;

    open spec fn view(&self) -> TextView {
        TextView {
            ra: self.ra as int,
            rb: self.rb as int,
            rc: self.rc as int,
            shamt: self.shamt as int,
            opx: self.opx as int,
            opcode: self.opcode as int,
            immediate: self.immediate as int,
            address: self.address as int,
        }
    }
}

impl DeepView for Text {
    type V = TextView;

    open spec fn deep_view(&self) -> TextView {
        self@
    }
}

impl TextView {
    /// The 32 bits of the instruction, highest first. Each field is cut to the width that
    /// the layout gives it, in two's complement. A pseudo instruction has no bits.
    pub open spec fn binary_text(self) -> Option<Seq<char>> {
        match format_of(self.opcode) {
            InstructionFormat::REGISTER => Some(
                binary_digits(self.rb, 5) + binary_digits(self.rc, 5) + binary_digits(self.ra, 5)
                    + binary_digits(self.opx, 6) + binary_digits(self.shamt, 5) + binary_digits(
                    self.opcode,
                    6,
                ),
            ),
            InstructionFormat::IMMEDIATE => Some(
                binary_digits(self.rb, 5) + binary_digits(self.ra, 5) + binary_digits(
                    self.immediate,
                    16,
                ) + binary_digits(self.opcode, 6),
            ),
            InstructionFormat::JUMP => Some(
                binary_digits(self.address, 26) + binary_digits(self.opcode, 6),
            ),
            InstructionFormat::PSEUDO => None,
        }
    }

    /// The instruction as eight hexadecimal digits.
    pub open spec fn hex_text(self) -> Option<Seq<char>> {
        match self.binary_text() {
            Some(bits) => Some(hex_digits(bits)),
            None => None,
        }
    }

    /// An encoding has 32 bits.
    pub proof fn lemma_binary_text_len(self)
        ensures
            self.binary_text() matches Some(bits) ==> bits.len() == 32,
    {
        lemma_binary_digits_len(self.rb, 5);
        lemma_binary_digits_len(self.rc, 5);
        lemma_binary_digits_len(self.ra, 5);
        lemma_binary_digits_len(self.opx, 6);
        lemma_binary_digits_len(self.shamt, 5);
        lemma_binary_digits_len(self.opcode, 6);
        lemma_binary_digits_len(self.immediate, 16);
        lemma_binary_digits_len(self.address, 26);
    }
}

impl Text {
    /// A record with the given fields.
    pub fn new(
        ra: i32,
        rb: i32,
        rc: i32,
        shamt: i32,
        opx: i32,
        opcode: i32,
        immediate: i32,
        address: i32,
    ) -> (text: Text)
        ensures
            text == (Text { ra, rb, rc, shamt, opx, opcode, immediate, address }),
    {
        Text { ra, rb, rc, shamt, opx, opcode, immediate, address }
    }

    /// Encodes the instruction as 32 binary digits.
    pub fn to_binary(&self) -> (binary: Result<String, AsmError>)
        ensures
            binary matches Ok(bits) ==> self@.binary_text() == Some(bits@) && bits@.len() == 32,
            binary matches Err(error) ==> error == AsmError::PseudoInstruction
                && self@.binary_text() is None,
    {
        proof {
            self@.lemma_binary_text_len();
        }
        let mut bits = String::new();
        match convert_opcode_to_format(self.opcode) {
            InstructionFormat::REGISTER => {
                bits.append(convert_int_to_binary(self.rb, 5).as_str());
                bits.append(convert_int_to_binary(self.rc, 5).as_str());
                bits.append(convert_int_to_binary(self.ra, 5).as_str());
                bits.append(convert_int_to_binary(self.opx, 6).as_str());
                bits.append(convert_int_to_binary(self.shamt, 5).as_str());
                bits.append(convert_int_to_binary(self.opcode, 6).as_str());
                assert(bits@ =~= self@.binary_text()->0);
                Ok(bits)
            },
            InstructionFormat::IMMEDIATE => {
                bits.append(convert_int_to_binary(self.rb, 5).as_str());
                bits.append(convert_int_to_binary(self.ra, 5).as_str());
                bits.append(convert_int_to_binary(self.immediate, 16).as_str());
                bits.append(convert_int_to_binary(self.opcode, 6).as_str());
                assert(bits@ =~= self@.binary_text()->0);
                Ok(bits)
            },
            InstructionFormat::JUMP => {
                bits.append(convert_int_to_binary(self.address, 26).as_str());
                bits.append(convert_int_to_binary(self.opcode, 6).as_str());
                assert(bits@ =~= self@.binary_text()->0);
                Ok(bits)
            },
            InstructionFormat::PSEUDO => Err(AsmError::PseudoInstruction),
        }
    }

    /// Encodes the instruction as eight hexadecimal digits.
    pub fn to_hex(&self) -> (hex: Result<String, AsmError>)
        ensures
            hex matches Ok(digits) ==> self@.hex_text() == Some(digits@) && digits@.len() == 8,
            hex matches Err(error) ==> error == AsmError::PseudoInstruction
                && self@.hex_text() is None,
    {
        match self.to_binary() {
            Ok(bits) => {
                proof {
                    lemma_hex_digits_len(bits@);
                }
                Ok(convert_string_to_hex(bits.as_str()))
            },
            Err(error) => Err(error),
        }
    }
}

/// The pattern of a stack expression: an offset, in decimal or after `0x` in hexadecimal,
/// with or without a minus sign, and behind it a numbered register or an alias in brackets.
/// It has to match the whole operand.
pub const STACK_PATTERN: &'static str =
    r"^-?(0x[0-9A-Fa-f]+|\d+)\((r\d+|sp|zero|ra|at)\)$";

/// The pattern of a register: `r` and a number, or one of the four aliases. It has to match
/// the whole operand.
pub const REGISTER_PATTERN: &'static str = r"^(r\d+|sp|zero|ra|at)$";

/// The pattern of a reference to a datum or a label. It matches a text that starts with a
/// letter, a dot or a percent sign. A name is whatever a label line or a data line
/// declares, so what follows the first character is left to the lookup of the name.
pub const SYMBOL_PATTERN: &'static str = r"^[\.A-Za-z%d]\w*";

/// The pattern of an integer literal: digits, in decimal or after `0x` in hexadecimal, with
/// or without a minus sign. It has to match the whole operand.
pub const NUMBER_PATTERN: &'static str = r"^-?(0x[0-9A-Fa-f]+|\d+)$";

/// Whether one of the four operand patterns is refused.
pub open spec fn operand_patterns_refused() -> bool {
    ||| regex_refused(STACK_PATTERN@)
    ||| regex_refused(REGISTER_PATTERN@)
    ||| regex_refused(SYMBOL_PATTERN@)
    ||| regex_refused(NUMBER_PATTERN@)
}

/// The four shapes of an operand.
#[derive(Clone, Copy, Debug, PartialEq, Eq, Structural)]
pub enum ArgumentType {
    /// An integer literal.
    NUMBER,
    /// A register, by number or by alias.
    REGISTER,
    /// The name of a datum or of a label.
    LABEL,
    /// An offset from a base register.
    STACK,
}

/// The shape of an operand, given which of the four patterns match it. The patterns are
/// tried in the order stack, register, symbol, number, and the first that matches decides.
pub open spec fn first_matching(
    stack: bool,
    register: bool,
    symbol: bool,
    number: bool,
) -> Option<ArgumentType> {
    if stack {
        Some(ArgumentType::STACK)
    } else if register {
        Some(ArgumentType::REGISTER)
    } else if symbol {
        Some(ArgumentType::LABEL)
    } else if number {
        Some(ArgumentType::NUMBER)
    } else {
        None
    }
}

/// The shape of the operand `text`, or `None` where no pattern matches it.
pub open spec fn argument_type(text: Seq<char>) -> Option<ArgumentType> {
    first_matching(
        regex_accepts(STACK_PATTERN@, text),
        regex_accepts(REGISTER_PATTERN@, text),
        regex_accepts(SYMBOL_PATTERN@, text),
        regex_accepts(NUMBER_PATTERN@, text),
    )
}

/// Decides the shape of an operand from the patterns that match it.
pub fn classify_argument(
    stack: bool,
    register: bool,
    symbol: bool,
    number: bool,
) -> (kind: Option<ArgumentType>)
    ensures
        kind == first_matching(stack, register, symbol, number),
{
    if stack {
        Some(ArgumentType::STACK)
    } else if register {
        Some(ArgumentType::REGISTER)
    } else if symbol {
        Some(ArgumentType::LABEL)
    } else if number {
        Some(ArgumentType::NUMBER)
    } else {
        None
    }
}

/// Finds the shape of the operand `text`. All four patterns are consulted; the pattern
/// error comes where, and only where, one of them is refused.
pub fn resolve_argument_type(text: &str) -> (kind: Result<ArgumentType, AsmError>)
    ensures
        kind == Err::<ArgumentType, AsmError>(AsmError::Pattern) <==> operand_patterns_refused(),
        kind matches Ok(found) ==> argument_type(text@) == Some(found),
        kind matches Err(error) ==> error == AsmError::Pattern || (error
            == AsmError::UnknownArgument && argument_type(text@) is None),
{
    let stack = is_match(STACK_PATTERN, text)?;
    let register = is_match(REGISTER_PATTERN, text)?;
    let symbol = is_match(SYMBOL_PATTERN, text)?;
    let number = is_match(NUMBER_PATTERN, text)?;
    match classify_argument(stack, register, symbol, number) {
        Some(kind) => Ok(kind),
        None => Err(AsmError::UnknownArgument),
    }
}

/// The number of the register `name`: the fixed number of an alias, or else what follows
/// the first character, read as an integer.
pub open spec fn register_number(name: Seq<char>) -> Option<int> {
    if name == "zero"@ {
        Some(ZERO_REGISTER as int)
    } else if name == "sp"@ {
        Some(SP_REGISTER as int)
    } else if name == "ra"@ {
        Some(RA_REGISTER as int)
    } else if name == "at"@ {
        Some(AT_REGISTER as int)
    } else if name.len() == 0 {
        None
    } else {
        integer_literal(name.drop_first())
    }
}

/// The values of a stack expression: the base register, then the offset. The text has one
/// opening bracket; the offset stands before it, and behind it the register and one closing
/// character.
pub open spec fn stack_values(text: Seq<char>) -> Result<Seq<int>, AsmError> {
    let parts = split_on(text, '(');
    if parts.len() != 2 || parts[1].len() == 0 {
        Err(AsmError::UnresolvedArgument)
    } else {
        match integer_literal(parts[0]) {
            None => Err(AsmError::InvalidNumber),
            Some(offset) => match register_number(parts[1].drop_last()) {
                None => Err(AsmError::InvalidNumber),
                Some(base) => Ok(seq![base, offset]),
            },
        }
    }
}

/// The address that the symbol `name` stands for: that of the datum of this name, or else
/// that of the label of this name.
pub open spec fn symbol_address(
    name: Seq<char>,
    data: Seq<DatumView>,
    labels: Seq<LabelView>,
) -> Option<int> {
    match first_datum(name, data) {
        Some(datum) => Some(datum.address),
        None => match first_label(name, labels) {
            Some(label) => Some(label.address),
            None => None,
        },
    }
}

/// The values that an operand of shape `kind` resolves to.
pub open spec fn resolved_argument(
    kind: ArgumentType,
    text: Seq<char>,
    data: Seq<DatumView>,
    labels: Seq<LabelView>,
) -> Result<Seq<int>, AsmError> {
    match kind {
        ArgumentType::NUMBER => match integer_literal(text) {
            Some(value) => Ok(seq![value]),
            None => Err(AsmError::InvalidNumber),
        },
        ArgumentType::REGISTER => match register_number(text) {
            Some(number) => Ok(seq![number]),
            None => Err(AsmError::InvalidNumber),
        },
        ArgumentType::LABEL => match symbol_address(text, data, labels) {
            Some(address) => Ok(seq![address]),
            None => Err(AsmError::UnresolvedArgument),
        },
        ArgumentType::STACK => stack_values(text),
    }
}

/// Each of the four aliases stands for its fixed register, whatever the tables hold:
/// `zero` for 0, `at` for 1, `sp` for 28 and `ra` for 31.
pub proof fn lemma_alias_registers(data: Seq<DatumView>, labels: Seq<LabelView>)
    ensures
        resolved_argument(ArgumentType::REGISTER, "zero"@, data, labels) == Ok::<
            Seq<int>,
            AsmError,
        >(seq![0int]),
        resolved_argument(ArgumentType::REGISTER, "at"@, data, labels) == Ok::<Seq<int>, AsmError>(
            seq![1int],
        ),
        resolved_argument(ArgumentType::REGISTER, "sp"@, data, labels) == Ok::<Seq<int>, AsmError>(
            seq![28int],
        ),
        resolved_argument(ArgumentType::REGISTER, "ra"@, data, labels) == Ok::<Seq<int>, AsmError>(
            seq![31int],
        ),
{
    reveal_strlit("zero");
    reveal_strlit("at");
    reveal_strlit("sp");
    reveal_strlit("ra");
    assert("sp"@[0] != "ra"@[0]);
    assert("sp"@[0] != "at"@[0]);
    assert("ra"@[0] != "at"@[0]);
}

/// Resolves a register name to its number.
pub fn resolve_register(name: &str) -> (number: Option<i32>)
    ensures
        number matches Some(n) ==> register_number(name@) == Some(n as int),
        number is None ==> register_number(name@) is None,
{
    if same_text(name, "zero") {
        Some(ZERO_REGISTER)
    } else if same_text(name, "sp") {
        Some(SP_REGISTER)
    } else if same_text(name, "ra") {
        Some(RA_REGISTER)
    } else if same_text(name, "at") {
        Some(AT_REGISTER)
    } else {
        let length = name.unicode_len();
        if length == 0 {
            None
        } else {
            let digits = name.substring_char(1, length);
            assert(digits@ =~= name@.drop_first());
            convert_string_to_int(digits)
        }
    }
}

/// Resolves a stack expression to its base register and its offset.
fn resolve_stack(text: &str) -> (values: Result<Vec<i32>, AsmError>)
    ensures
        values matches Ok(v) ==> stack_values(text@) == Ok::<Seq<int>, AsmError>(as_ints(v@)),
        values matches Err(error) ==> stack_values(text@) == Err::<Seq<int>, AsmError>(error),
{
    let parts = split(text, '(');
    if parts.len() != 2 {
        return Err(AsmError::UnresolvedArgument);
    }
    assert(parts.deep_view()[0] == parts[0]@);
    assert(parts.deep_view()[1] == parts[1]@);
    let base = parts[1].as_str();
    let length = base.unicode_len();
    if length == 0 {
        return Err(AsmError::UnresolvedArgument);
    }
    let offset = match convert_string_to_int(parts[0].as_str()) {
        Some(offset) => offset,
        None => {
            return Err(AsmError::InvalidNumber);
        },
    };
    let register = base.substring_char(0, length - 1);
    assert(register@ =~= base@.drop_last());
    match resolve_register(register) {
        Some(number) => {
            let values = vec![number, offset];
            assert(as_ints(values@) =~= seq![number as int, offset as int]);
            Ok(values)
        },
        None => Err(AsmError::InvalidNumber),
    }
}

/// Resolves an operand of a known shape to its values: one value, or two for a stack
/// expression.
pub fn resolve_argument(
    kind: ArgumentType,
    text: &str,
    data: &Vec<Datum>,
    labels: &Vec<Label>,
) -> (values: Result<Vec<i32>, AsmError>)
    ensures
        values matches Ok(v) ==> resolved_argument(
            kind,
            text@,
            data.deep_view(),
            labels.deep_view(),
        ) == Ok::<Seq<int>, AsmError>(as_ints(v@)),
        values matches Err(error) ==> resolved_argument(
            kind,
            text@,
            data.deep_view(),
            labels.deep_view(),
        ) == Err::<Seq<int>, AsmError>(error),
{
    match kind {
        ArgumentType::NUMBER => match convert_string_to_int(text) {
            Some(value) => {
                let values = vec![value];
                assert(as_ints(values@) =~= seq![value as int]);
                Ok(values)
            },
            None => Err(AsmError::InvalidNumber),
        },
        ArgumentType::REGISTER => match resolve_register(text) {
            Some(number) => {
                let values = vec![number];
                assert(as_ints(values@) =~= seq![number as int]);
                Ok(values)
            },
            None => Err(AsmError::InvalidNumber),
        },
        ArgumentType::LABEL => {
            if let Some(datum) = find_datum(text, data) {
                let values = vec![datum.address];
                assert(as_ints(values@) =~= seq![datum.address as int]);
                Ok(values)
            } else if let Some(label) = find_label(text, labels) {
                let values = vec![label.address];
                assert(as_ints(values@) =~= seq![label.address as int]);
                Ok(values)
            } else {
                Err(AsmError::UnresolvedArgument)
            }
        },
        ArgumentType::STACK => resolve_stack(text),
    }
}

/// The value at `position` of the resolved operands, or zero where there is none.
pub open spec fn argument_or_zero(arguments: Seq<int>, position: int) -> int {
    if 0 <= position < arguments.len() {
        arguments[position]
    } else {
        0
    }
}

/// The record of an instruction with `opcode` and `opx` and the resolved operands
/// `arguments`, for an instruction that stands at `current`.
///
/// - Register format: the operands are `ra`, `rb`, `rc` in this order; `ret` keeps only the
///   first. The shift amount is zero.
/// - Jump format: the operand is the address.
/// - Immediate format, conditional branch: the operands are `rb`, `ra` and the target, and
///   the immediate is the offset to the target.
/// - Immediate format, `br`: the operand is the target; both registers are zero.
/// - Immediate format, fewer than three operands: the immediate and `rb`; `ra` is zero.
/// - Immediate format, otherwise: `ra`, `rb` and the immediate.
///
/// An operand that is missing counts as zero.
pub open spec fn text_by_format(
    opcode: int,
    opx: int,
    arguments: Seq<int>,
    current: int,
) -> Result<TextView, AsmError> {
    let first = argument_or_zero(arguments, 0);
    let second = argument_or_zero(arguments, 1);
    let third = argument_or_zero(arguments, 2);
    match format_of(opcode) {
        InstructionFormat::REGISTER => if is_register_jump_extension(opx) {
            Ok(register_record(opx, first, 0, 0, 0))
        } else {
            Ok(register_record(opx, first, second, third, 0))
        },
        InstructionFormat::JUMP => Ok(jump_record(opcode, opx, first)),
        InstructionFormat::IMMEDIATE => if is_conditional_branch_opcode(opcode) {
            match branch_offset(current, third) {
                Some(offset) => Ok(immediate_record(opcode, opx, second, first, offset)),
                None => Err(AsmError::AddressOverflow),
            }
        } else if is_relative_branch_opcode(opcode) {
            match branch_offset(current, first) {
                Some(offset) => Ok(immediate_record(opcode, opx, 0, 0, offset)),
                None => Err(AsmError::AddressOverflow),
            }
        } else if arguments.len() < 3 {
            Ok(immediate_record(opcode, opx, 0, second, first))
        } else {
            Ok(immediate_record(opcode, opx, first, second, third))
        },
        InstructionFormat::PSEUDO => Err(AsmError::PseudoInstruction),
    }
}

/// Lays the resolved operands out in the record of the instruction's format.
pub fn get_text_by_format(
    instruction: &Instruction,
    arguments: &Vec<i32>,
    current_address: i32,
) -> (text: Result<Text, AsmError>)
    ensures
        text matches Ok(record) ==> text_by_format(
            instruction.opcode as int,
            instruction.opx as int,
            as_ints(arguments@),
            current_address as int,
        ) == Ok::<TextView, AsmError>(record@),
        text matches Err(error) ==> text_by_format(
            instruction.opcode as int,
            instruction.opx as int,
            as_ints(arguments@),
            current_address as int,
        ) == Err::<TextView, AsmError>(error),
{
    let first_arg: i32 = if arguments.len() > 0 { arguments[0] } else { 0 };
    let second_arg: i32 = if arguments.len() > 1 { arguments[1] } else { 0 };
    let third_arg: i32 = if arguments.len() > 2 { arguments[2] } else { 0 };
    match convert_opcode_to_format(instruction.opcode) {
        InstructionFormat::REGISTER => {
            if instruction.is_register_jump() {
                Ok(instruction.to_register_format_text(first_arg, 0, 0, 0))
            } else {
                Ok(instruction.to_register_format_text(first_arg, second_arg, third_arg, 0))
            }
        },
        InstructionFormat::JUMP => Ok(instruction.to_jump_format_text(first_arg)),
        InstructionFormat::IMMEDIATE => {
            if instruction.is_conditional_branch() {
                match get_address_difference(current_address, third_arg) {
                    Some(difference) => Ok(
                        instruction.to_immediate_format_text(second_arg, first_arg, difference),
                    ),
                    None => Err(AsmError::AddressOverflow),
                }
            } else if instruction.is_relative_branch() {
                match get_address_difference(current_address, first_arg) {
                    Some(difference) => Ok(instruction.to_immediate_format_text(0, 0, difference)),
                    None => Err(AsmError::AddressOverflow),
                }
            } else if arguments.len() < 3 {
                Ok(instruction.to_immediate_format_text(0, second_arg, first_arg))
            } else {
                Ok(instruction.to_immediate_format_text(first_arg, second_arg, third_arg))
            }
        },
        InstructionFormat::PSEUDO => Err(AsmError::PseudoInstruction),
    }
}

/// The values of all operands, in order; a stack expression gives two. The first operand
/// that has no shape or no value makes the whole fail.
pub open spec fn resolved_arguments(
    arguments: Seq<Seq<char>>,
    data: Seq<DatumView>,
    labels: Seq<LabelView>,
) -> Result<Seq<int>, AsmError>
    decreases arguments.len(),
{
    if arguments.len() == 0 {
        Ok(Seq::<int>::empty())
    } else {
        match resolved_arguments(arguments.drop_last(), data, labels) {
            Err(error) => Err(error),
            Ok(values) => match argument_type(arguments.last()) {
                None => Err(AsmError::UnknownArgument),
                Some(kind) => match resolved_argument(kind, arguments.last(), data, labels) {
                    Err(error) => Err(error),
                    Ok(more) => Ok(values + more),
                },
            },
        }
    }
}

/// Resolving operands of known shapes never fails for want of a pattern.
pub proof fn lemma_resolved_arguments_error(
    arguments: Seq<Seq<char>>,
    data: Seq<DatumView>,
    labels: Seq<LabelView>,
)
    ensures
        resolved_arguments(arguments, data, labels) matches Err(error) ==> error
            != AsmError::Pattern,
    decreases arguments.len(),
{
    if arguments.len() > 0 {
        lemma_resolved_arguments_error(arguments.drop_last(), data, labels);
    }
}

/// Once a prefix of the operands has failed, the whole has failed in the same way.
proof fn lemma_resolution_fails_for_good(
    arguments: Seq<Seq<char>>,
    data: Seq<DatumView>,
    labels: Seq<LabelView>,
    k: int,
)
    requires
        0 <= k <= arguments.len(),
        resolved_arguments(arguments.take(k), data, labels) is Err,
    ensures
        resolved_arguments(arguments, data, labels) == resolved_arguments(
            arguments.take(k),
            data,
            labels,
        ),
    decreases arguments.len() - k,
{
    if k == arguments.len() {
        assert(arguments.take(k) =~= arguments);
    } else {
        assert(arguments.take(k + 1).drop_last() =~= arguments.take(k));
        lemma_resolution_fails_for_good(arguments, data, labels, k + 1);
    }
}

/// Resolves the operands of an instruction to their values. The pattern error comes where,
/// and only where, there is an operand and one of the operand patterns is refused.
pub fn resolve_arguments(
    argument_codes: &Vec<String>,
    data: &Vec<Datum>,
    labels: &Vec<Label>,
) -> (values: Result<Vec<i32>, AsmError>)
    ensures
        values matches Ok(v) ==> resolved_arguments(
            argument_codes.deep_view(),
            data.deep_view(),
            labels.deep_view(),
        ) == Ok::<Seq<int>, AsmError>(as_ints(v@)),
        values matches Err(error) ==> error == AsmError::Pattern || resolved_arguments(
            argument_codes.deep_view(),
            data.deep_view(),
            labels.deep_view(),
        ) == Err::<Seq<int>, AsmError>(error),
        values == Err::<Vec<i32>, AsmError>(AsmError::Pattern) <==> argument_codes.len() > 0
            && operand_patterns_refused(),
{
    let ghost texts = argument_codes.deep_view();
    let mut values: Vec<i32> = Vec::new();
    let mut i: usize = 0;
    proof {
        assert(texts.take(0) =~= Seq::<Seq<char>>::empty());
        assert(as_ints(values@) =~= Seq::<int>::empty());
    }
    while i < argument_codes.len()
        invariant
            i <= argument_codes.len(),
            texts == argument_codes.deep_view(),
            i > 0 ==> !operand_patterns_refused(),
            resolved_arguments(texts.take(i as int), data.deep_view(), labels.deep_view()) == Ok::<
                Seq<int>,
                AsmError,
            >(as_ints(values@)),
        decreases argument_codes.len() - i,
    {
        proof {
            assert(texts.take(i + 1).drop_last() =~= texts.take(i as int));
            assert(texts.take(i + 1).last() == argument_codes[i as int]@);
        }
        let text = argument_codes[i].as_str();
        let kind = match resolve_argument_type(text) {
            Ok(kind) => kind,
            Err(error) => {
                proof {
                    if error != AsmError::Pattern {
                        lemma_resolution_fails_for_good(
                            texts,
                            data.deep_view(),
                            labels.deep_view(),
                            i + 1,
                        );
                    }
                }
                return Err(error);
            },
        };
        match resolve_argument(kind, text, data, labels) {
            Ok(mut more) => {
                let ghost before = values@;
                let ghost added = more@;
                values.append(&mut more);
                assert(as_ints(values@) =~= as_ints(before) + as_ints(added));
            },
            Err(error) => {
                proof {
                    lemma_resolution_fails_for_good(
                        texts,
                        data.deep_view(),
                        labels.deep_view(),
                        i + 1,
                    );
                }
                return Err(error);
            },
        }
        i += 1;
    }
    assert(texts.take(argument_codes.len() as int) =~= texts);
    Ok(values)
}

/// The texts of the operands of an instruction line: what stands between the first and the
/// second tab, parted at commas and trimmed. `None` where the line has no tab.
pub open spec fn operand_texts(code: Seq<char>) -> Option<Seq<Seq<char>>> {
    let contents = split_on(without_leading_whitespace(code), '\t');
    if contents.len() > 1 {
        let operands = split_on(contents[1], ',');
        Some(Seq::new(operands.len(), |i: int| trimmed(operands[i])))
    } else {
        None
    }
}

/// The record of the instruction line `code` at `current`: its mnemonic is looked up in the
/// instruction table, its operands are resolved against `data` and `labels`, and the values
/// are laid out in the instruction's format. A line without operands has none.
pub open spec fn text_from_code(
    code: Seq<char>,
    current: int,
    data: Seq<DatumView>,
    labels: Seq<LabelView>,
) -> Result<TextView, AsmError> {
    match instruction_entry(mnemonic_of(code)) {
        None => Err(AsmError::UnknownInstruction),
        Some((opcode, opx)) => {
            let arguments = match operand_texts(code) {
                Some(texts) => resolved_arguments(texts, data, labels),
                None => Ok(Seq::<int>::empty()),
            };
            match arguments {
                Err(error) => Err(error),
                Ok(values) => text_by_format(opcode, opx, values, current),
            }
        },
    }
}

/// Encoding a line never fails for want of a pattern.
pub proof fn lemma_text_from_code_error(
    code: Seq<char>,
    current: int,
    data: Seq<DatumView>,
    labels: Seq<LabelView>,
)
    ensures
        text_from_code(code, current, data, labels) matches Err(error) ==> error
            != AsmError::Pattern,
{
    if let Some(texts) = operand_texts(code) {
        lemma_resolved_arguments_error(texts, data, labels);
    }
}

/// Encodes one instruction line that stands at `current_address`. The pattern error comes
/// where, and only where, the mnemonic is known, the line has operands and one of the
/// operand patterns is refused.
pub fn get_text_from_code(
    text: &str,
    current_address: i32,
    data: &Vec<Datum>,
    labels: &Vec<Label>,
) -> (encoded: Result<Text, AsmError>)
    ensures
        encoded matches Ok(record) ==> text_from_code(
            text@,
            current_address as int,
            data.deep_view(),
            labels.deep_view(),
        ) == Ok::<TextView, AsmError>(record@),
        encoded matches Err(error) ==> error == AsmError::Pattern || text_from_code(
            text@,
            current_address as int,
            data.deep_view(),
            labels.deep_view(),
        ) == Err::<TextView, AsmError>(error),
        encoded == Err::<Text, AsmError>(AsmError::Pattern) <==> instruction_entry(
            mnemonic_of(text@),
        ) is Some && operand_texts(text@) is Some && operand_patterns_refused(),
{
    let contents = split(trim_start(text), '\t');
    assert(contents.deep_view()[0] == contents[0]@);
    let name = contents[0].as_str();
    let instruction = match find_instruction(name) {
        Some(instruction) => instruction,
        None => {
            return Err(AsmError::UnknownInstruction);
        },
    };
    if contents.len() > 1 {
        assert(contents.deep_view()[1] == contents[1]@);
        let pieces = split(contents[1].as_str(), ',');
        let mut argument_texts: Vec<String> = Vec::new();
        let mut i: usize = 0;
        while i < pieces.len()
            invariant
                i <= pieces.len(),
                argument_texts.len() == i,
                forall|k: int|
                    0 <= k < i ==> (#[trigger] argument_texts[k])@ == trimmed(pieces[k]@),
            decreases pieces.len() - i,
        {
            argument_texts.push(trim(pieces[i].as_str()).to_owned());
            i += 1;
        }
        proof {
            let operands = split_on(contents[1]@, ',');
            assert(pieces.deep_view() == operands);
            assert forall|k: int| 0 <= k < operands.len() implies operands[k] == pieces[k]@ by {
                assert(pieces.deep_view()[k] == pieces[k]@);
            }
            assert(argument_texts.deep_view() =~= operand_texts(text@)->0);
        }
        let arguments = resolve_arguments(&argument_texts, data, labels)?;
        get_text_by_format(&instruction, &arguments, current_address)
    } else {
        let arguments: Vec<i32> = Vec::new();
        assert(as_ints(arguments@) =~= Seq::<int>::empty());
        get_text_by_format(&instruction, &arguments, current_address)
    }
}

/// The operands of the line `add`, tab, `r0,r0,r0` are three times `r0`, and its mnemonic
/// is `add`.
proof fn lemma_add_zero_line()
    ensures
        mnemonic_of("add\tr0,r0,r0"@) == "add"@,
        operand_texts("add\tr0,r0,r0"@) == Some(seq!["r0"@, "r0"@, "r0"@]),
{
    let line = "add\tr0,r0,r0"@;
    reveal_strlit("add\tr0,r0,r0");
    reveal_strlit("add");
    reveal_strlit("r0,r0,r0");
    reveal_strlit("r0,r0");
    reveal_strlit("r0");
    assert(line =~= "add"@ + seq!['\t'] + "r0,r0,r0"@);
    assert(without_leading_whitespace(line) == line);
    lemma_split_on_joined("add"@, "r0,r0,r0"@, '\t');
    lemma_split_on_without_separator("add"@, '\t');
    lemma_split_on_without_separator("r0,r0,r0"@, '\t');
    assert(split_on(line, '\t') =~= seq!["add"@, "r0,r0,r0"@]);
    assert("r0,r0,r0"@ =~= "r0"@ + seq![','] + "r0,r0"@);
    assert("r0,r0"@ =~= "r0"@ + seq![','] + "r0"@);
    lemma_split_on_joined("r0"@, "r0,r0"@, ',');
    lemma_split_on_joined("r0"@, "r0"@, ',');
    lemma_split_on_without_separator("r0"@, ',');
    let operands = split_on("r0,r0,r0"@, ',');
    assert(operands =~= seq!["r0"@, "r0"@, "r0"@]);
    assert(without_leading_whitespace("r0"@) == "r0"@);
    assert(trimmed("r0"@) == "r0"@);
    assert(Seq::new(operands.len(), |i: int| trimmed(operands[i])) =~= seq![
        "r0"@,
        "r0"@,
        "r0"@,
    ]);
}

/// As a register, `r0` is register zero.
proof fn lemma_register_zero()
    ensures
        register_number("r0"@) == Some(0int),
{
    reveal_strlit("r0");
    reveal_strlit("zero");
    reveal_strlit("sp");
    reveal_strlit("ra");
    reveal_strlit("at");
    let digits = "r0"@.drop_first();
    assert(digits =~= seq!['0']);
    assert(digits.drop_last() =~= Seq::<char>::empty());
    reveal_with_fuel(numeral_value, 2);
    assert(digit_value('0', 10) == Some(0int));
    assert(is_numeral(digits, 10));
    assert(numeral_value(digits, 10) == 0);
    assert(integer_literal(digits) == Some(0int));
}

/// Three times `r0`, taken for registers, are three zeros.
proof fn lemma_three_zero_registers(data: Seq<DatumView>, labels: Seq<LabelView>)
    requires
        argument_type("r0"@) == Some(ArgumentType::REGISTER),
    ensures
        resolved_arguments(seq!["r0"@, "r0"@, "r0"@], data, labels) == Ok::<Seq<int>, AsmError>(
            seq![0int, 0int, 0int],
        ),
{
    lemma_register_zero();
    let none = Seq::<Seq<char>>::empty();
    let one = seq!["r0"@];
    let two = seq!["r0"@, "r0"@];
    let three = seq!["r0"@, "r0"@, "r0"@];
    assert(one.drop_last() =~= none);
    assert(two.drop_last() =~= one);
    assert(three.drop_last() =~= two);
    assert(resolved_argument(ArgumentType::REGISTER, "r0"@, data, labels) == Ok::<
        Seq<int>,
        AsmError,
    >(seq![0int]));
    assert(resolved_arguments(none, data, labels) == Ok::<Seq<int>, AsmError>(
        Seq::<int>::empty(),
    ));
    assert(Seq::<int>::empty() + seq![0int] =~= seq![0int]);
    assert(resolved_arguments(one, data, labels) == Ok::<Seq<int>, AsmError>(seq![0int]));
    assert(seq![0int] + seq![0int] =~= seq![0int, 0int]);
    assert(resolved_arguments(two, data, labels) == Ok::<Seq<int>, AsmError>(
        seq![0int, 0int],
    ));
    assert(seq![0int, 0int] + seq![0int] =~= seq![0int, 0int, 0int]);
}

/// The record of `add` with all registers zero is the word `0001883a`.
proof fn lemma_add_zero_word()
    ensures
        register_record(0x31, 0, 0, 0, 0).hex_text() == Some("0001883a"@),
{
    let record = register_record(0x31, 0, 0, 0, 0);
    reveal_strlit("0001883a");
    reveal_strlit("0123456789abcdef");
    reveal_with_fuel(binary_digits, 7);
    assert(binary_digits(0, 5) =~= seq!['0', '0', '0', '0', '0']);
    assert(binary_digits(0x31, 6) =~= seq!['1', '1', '0', '0', '0', '1']);
    assert(binary_digits(0x3A, 6) =~= seq!['1', '1', '1', '0', '1', '0']);
    let bits = record.binary_text()->0;
    let g0 = seq!['0', '0', '0', '0'];
    let g1 = seq!['0', '0', '0', '1'];
    let g8 = seq!['1', '0', '0', '0'];
    let g3 = seq!['0', '0', '1', '1'];
    let ga = seq!['1', '0', '1', '0'];
    assert(bits =~= g0 + g0 + g0 + g1 + g8 + g8 + g3 + ga);
    reveal_with_fuel(binary_value, 5);
    assert(binary_value(g0) == 0);
    assert(binary_value(g1) == 1);
    assert(binary_value(g8) == 8);
    assert(binary_value(g3) == 3);
    assert(binary_value(ga) == 10);
    lemma_hex_digits_of_group(g0);
    lemma_hex_digits_with_group(g0, g0);
    lemma_hex_digits_with_group(g0 + g0, g0);
    lemma_hex_digits_with_group(g0 + g0 + g0, g1);
    lemma_hex_digits_with_group(g0 + g0 + g0 + g1, g8);
    lemma_hex_digits_with_group(g0 + g0 + g0 + g1 + g8, g8);
    lemma_hex_digits_with_group(g0 + g0 + g0 + g1 + g8 + g8, g3);
    lemma_hex_digits_with_group(g0 + g0 + g0 + g1 + g8 + g8 + g3, ga);
    assert(hex_digits(bits) =~= "0001883a"@);
}

/// The line that `nop` stands for has one encoding, whatever its address and whatever the
/// tables hold: the register-format record of `add` with all registers zero, which is the
/// word `0001883a`.
///
/// That the line is encoded so holds where the operand patterns take `r0` for a register;
/// what the patterns match is not proved here. That three zero registers are laid out so,
/// and that the record is this word, holds without condition.
pub proof fn lemma_nop_encoding(current: int, data: Seq<DatumView>, labels: Seq<LabelView>)
    ensures
        argument_type("r0"@) == Some(ArgumentType::REGISTER) ==> text_from_code(
            "add\tr0,r0,r0"@,
            current,
            data,
            labels,
        ) == Ok::<TextView, AsmError>(register_record(0x31, 0, 0, 0, 0)),
        instruction_entry("add"@) == Some((0x3Aint, 0x31int)),
        text_by_format(0x3A, 0x31, seq![0int, 0int, 0int], current) == Ok::<TextView, AsmError>(
            register_record(0x31, 0, 0, 0, 0),
        ),
        register_record(0x31, 0, 0, 0, 0).hex_text() == Some("0001883a"@),
{
    lemma_add_zero_line();
    lemma_add_entry();
    lemma_add_zero_word();
    if argument_type("r0"@) == Some(ArgumentType::REGISTER) {
        lemma_three_zero_registers(data, labels);
    }
}

} // verus!
