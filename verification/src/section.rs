//! Sections of a source file and the directives that open them.

use crate::strings::{same_text, trim, trimmed};
use vstd::prelude::*;

verus! {

/// The part of the source that a line belongs to.
#[derive(Clone, Copy, Debug, PartialEq, Eq, Structural)]
pub enum Section {
    /// Outside every section.
    NONE,
    /// The data section, opened by `.data`.
    DATA,
    /// The instruction section, opened by `.text`.
    TEXT,
}

/// The section that `line` opens, if it is a directive: the line holds nothing but `.data`
/// or `.text` and whitespace around it.
pub open spec fn section_of(line: Seq<char>) -> Option<Section> {
    if trimmed(line) == ".data"@ {
        Some(Section::DATA)
    } else if trimmed(line) == ".text"@ {
        Some(Section::TEXT)
    } else {
        None
    }
}

/// Tells which section `line` opens; `None` means that the section does not change.
pub fn resolve_section(line: &str) -> (section: Option<Section>)
    ensures
        section == section_of(line@),
{
    let directive = trim(line);
    if same_text(directive, ".data") {
        Some(Section::DATA)
    } else if same_text(directive, ".text") {
        Some(Section::TEXT)
    } else {
        None
    }
}

} // verus!
