//! Pseudo instructions and the instruction lines that they stand for.

use crate::datum::Datum;
use crate::instruction::mnemonic_of;
use crate::strings::{same_text, split, trim_start};
use vstd::prelude::*;
use vstd::string::StringExecFns;

verus! {

/// The lines that the pseudo instruction `code` stands for, or `None` where `code` is an
/// ordinary instruction. The only pseudo instruction is `nop`, which adds the zero register
/// to itself.
pub open spec fn expanded_macro(code: Seq<char>) -> Option<Seq<Seq<char>>> {
    if mnemonic_of(code) == "nop"@ {
        Some(seq!["add\tr0,r0,r0"@])
    } else {
        None
    }
}

/// The expansion of `nop`.
pub fn nop() -> (codes: Vec<String>)
    ensures
        codes.deep_view() == seq!["add\tr0,r0,r0"@],
{
    let mut result: Vec<String> = Vec::new();
    result.push(String::from_str("add\tr0,r0,r0"));
    assert(result.deep_view() =~= seq!["add\tr0,r0,r0"@]);
    result
}

/// Expands `code` where it is a pseudo instruction. The datum table is there for pseudo
/// instructions that refer to data; `nop` does not.
pub fn disassemble_macro(code: &str, _data: &Vec<Datum>) -> (expanded: Option<Vec<String>>)
    ensures
        expanded matches Some(codes) ==> expanded_macro(code@) == Some(codes.deep_view()),
        expanded is None ==> expanded_macro(code@) is None,
{
    let contents = split(trim_start(code), '\t');
    assert(contents.deep_view()[0] == contents[0]@);
    if same_text(contents[0].as_str(), "nop") {
        Some(nop())
    } else {
        None
    }
}

} // verus!
