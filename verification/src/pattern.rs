//! Pattern matching on source text, done by the `regex` crate.
//!
//! The assembler tells labels and operand shapes apart by regular expressions. Whether the
//! crate takes a pattern, and what the pattern matches, is decided by the crate and is not
//! proved here: the contracts of this module give the crate's answers names, and everything
//! that the assembler does with the answers is verified against those names.

use crate::error::AsmError;
use vstd::prelude::*;

verus! {

/// Whether the crate refuses to compile the regular expression `pattern`, for its syntax or
/// for its size.
pub uninterp spec fn regex_refused(pattern: Seq<char>) -> bool;

/// The text of the leftmost match of the regular expression `pattern` in `text`, or `None`
/// where the expression matches nowhere in `text`.
pub uninterp spec fn regex_leftmost(pattern: Seq<char>, text: Seq<char>) -> Option<Seq<char>>;

/// Whether the regular expression `pattern` matches somewhere in `text`.
pub open spec fn regex_accepts(pattern: Seq<char>, text: Seq<char>) -> bool {
    regex_leftmost(pattern, text) is Some
}

/// The error of the `regex` crate for a pattern that it refuses, carried through as it is.
#[verifier::external_type_specification]
#[verifier::external_body]
pub struct ExRegexError(regex::Error);

/// Compiles `pattern` with `regex::Regex::new` and searches `text` with `Regex::find`.
///
/// Believed, not proved: whether `new` refuses the pattern depends on the pattern alone,
/// since it compiles with the crate's fixed settings; a refused pattern comes back as the
/// crate's error, and no other error comes. Where the crate accepts the pattern, what `find`
/// reports depends on the pattern and the text alone, and the result is that match, copied
/// out as a string, or `None` where `find` reports no match. Nothing is claimed about which
/// patterns are refused or what a given pattern matches.
#[verifier::external_body]
pub(crate) fn regex_find(pattern: &str, text: &str) -> (found: Result<
    Option<String>,
    regex::Error,
>)
    ensures
        found is Err <==> regex_refused(pattern@),
        found matches Ok(Some(matched)) ==> regex_leftmost(pattern@, text@) == Some(matched@),
        found matches Ok(None) ==> regex_leftmost(pattern@, text@) is None,
{
    match regex::Regex::new(pattern) {
        Ok(compiled) => match compiled.find(text) {
            Some(found) => Ok(Some(found.as_str().to_string())),
            None => Ok(None),
        },
        Err(error) => Err(error),
    }
}

/// Searches `text` for the leftmost match of `pattern`. The search fails where, and only
/// where, the pattern is refused.
pub fn find_match(pattern: &str, text: &str) -> (found: Result<Option<String>, AsmError>)
    ensures
        found is Err <==> regex_refused(pattern@),
        found matches Ok(Some(matched)) ==> regex_leftmost(pattern@, text@) == Some(matched@),
        found matches Ok(None) ==> regex_leftmost(pattern@, text@) is None,
        found matches Err(error) ==> error == AsmError::Pattern,
{
    match regex_find(pattern, text) {
        Ok(found) => Ok(found),
        Err(_) => Err(AsmError::Pattern),
    }
}

/// Tells whether `pattern` matches somewhere in `text`. There is no answer where, and only
/// where, the pattern is refused.
pub fn is_match(pattern: &str, text: &str) -> (answer: Result<bool, AsmError>)
    ensures
        answer is Err <==> regex_refused(pattern@),
        answer matches Ok(matches) ==> matches == regex_accepts(pattern@, text@),
        answer matches Err(error) ==> error == AsmError::Pattern,
{
    match find_match(pattern, text) {
        Ok(found) => Ok(found.is_some()),
        Err(error) => Err(error),
    }
}

} // verus!
