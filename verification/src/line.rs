//! Source lines tagged with their section.

use crate::constants::{DATA_SECTION_MIN_ADDRESS, WORD_SIZE};
use crate::section::{resolve_section, section_of, Section};
use crate::strings::{
    chars_of, trim_end, trim_start, without_leading_whitespace, without_trailing_whitespace,
};
use vstd::prelude::*;

verus! {

/// A source line after composition. A line without text is a placeholder for a blank line,
/// a comment or a directive.
#[derive(Clone, Debug, PartialEq, Eq)]
pub struct Line {
    pub section: Section,
    pub address: i32,
    pub text: Option<String>,
}

/// What a [`Line`] holds, as plain values.
pub struct LineView {
    pub section: Section,
    pub address: int,
    pub text: Option<Seq<char>>,
}

impl View for Line {
    type V = LineView;

    open spec fn view(&self) -> LineView {
        LineView {
            section: self.section,
            address: self.address as int,
            text: match self.text {
                Some(text) => Some(text@),
                None => None,
            },
        }
    }
}

impl DeepView for Line {
    type V = LineView;

    open spec fn deep_view(&self) -> LineView {
        self@
    }
}

impl Line {
    /// A line of `section` at `address`.
    pub fn new(section: Section, address: i32, text: Option<String>) -> (line: Line)
        ensures
            line.section == section,
            line.address == address,
            line.text == text,
    {
        Line { section, address, text }
    }
}

/// The section cursor and the address counter of the composer.
pub struct ComposerState {
    pub section: Section,
    pub address: int,
}

/// The state before the first line: no section, and the counter one word below the data
/// base, so that the line after a leading `.data` directive gets the base itself.
pub open spec fn initial_state() -> ComposerState {
    ComposerState { section: Section::NONE, address: DATA_SECTION_MIN_ADDRESS - WORD_SIZE }
}

/// The section that is active on `line`, given the section before it. A blank line closes
/// every section; a directive opens its own; any other line leaves the section as it is.
pub open spec fn section_after(current: Section, line: Seq<char>) -> Section {
    if without_leading_whitespace(line).len() == 0 {
        Section::NONE
    } else {
        match section_of(line) {
            Some(section) => section,
            None => current,
        }
    }
}

/// Whether `line` starts with a comment marker.
pub open spec fn is_comment(line: Seq<char>) -> bool {
    line.len() > 0 && (line[0] == ';' || line[0] == '#')
}

/// A placeholder at `address`.
pub open spec fn placeholder(address: int) -> LineView {
    LineView { section: Section::NONE, address, text: None }
}

/// The composed form of `line`, met in `state`.
pub open spec fn composed_line(state: ComposerState, line: Seq<char>) -> LineView {
    match section_after(state.section, line) {
        Section::DATA => if section_of(line) is None {
            LineView { section: Section::DATA, address: state.address, text: Some(line) }
        } else {
            placeholder(state.address)
        },
        Section::TEXT => if is_comment(line) {
            placeholder(state.address)
        } else {
            LineView {
                section: Section::TEXT,
                address: state.address,
                text: Some(without_trailing_whitespace(line)),
            }
        },
        Section::NONE => placeholder(state.address),
    }
}

/// The state after `line`: every line of the data section, directive or not, takes one word.
pub open spec fn state_after(state: ComposerState, line: Seq<char>) -> ComposerState {
    let section = section_after(state.section, line);
    ComposerState {
        section,
        address: if section == Section::DATA {
            state.address + WORD_SIZE
        } else {
            state.address
        },
    }
}

/// The state after all of `lines`.
pub open spec fn composer_state(lines: Seq<Seq<char>>) -> ComposerState
    decreases lines.len(),
{
    if lines.len() == 0 {
        initial_state()
    } else {
        state_after(composer_state(lines.drop_last()), lines.last())
    }
}

/// The composed form of a whole source: each line is composed in the state that the lines
/// before it leave.
pub open spec fn composed_lines(lines: Seq<Seq<char>>) -> Seq<LineView> {
    Seq::new(lines.len(), |i: int| composed_line(composer_state(lines.take(i)), lines[i]))
}

/// Whether `line` starts with `;` or `#`.
fn starts_with_comment_marker(line: &str) -> (r: bool)
    ensures
        r == is_comment(line@),
{
    let chars = chars_of(line);
    chars.len() > 0 && (chars[0] == ';' || chars[0] == '#')
}

/// Whether the address of every composed line is a machine address. Only a source with
/// more data lines than the machine has addresses fails this.
pub open spec fn composed_addresses_fit(lines: Seq<Seq<char>>) -> bool {
    forall|i: int|
        0 <= i < lines.len() ==> (#[trigger] composer_state(lines.take(i))).address <= i32::MAX
}

/// Tags every line of a source with its section and a provisional address, or gives `None`
/// where an address does not fit the machine.
pub fn try_compose_lines(lines: &Vec<String>) -> (composed: Option<Vec<Line>>)
    ensures
        composed matches Some(tagged) ==> composed_addresses_fit(lines.deep_view())
            && tagged.deep_view() == composed_lines(lines.deep_view()),
        composed is None ==> !composed_addresses_fit(lines.deep_view()),
{
    let ghost source = lines.deep_view();
    let mut composed: Vec<Line> = Vec::new();
    let mut counter: i128 = (DATA_SECTION_MIN_ADDRESS - WORD_SIZE) as i128;
    let mut current_section = Section::NONE;
    let mut i: usize = 0;
    proof {
        assert(source.take(0) =~= Seq::<Seq<char>>::empty());
    }
    while i < lines.len()
        invariant
            i <= lines.len(),
            source == lines.deep_view(),
            composer_state(source.take(i as int)) == (ComposerState {
                section: current_section,
                address: counter as int,
            }),
            DATA_SECTION_MIN_ADDRESS - WORD_SIZE <= counter <= DATA_SECTION_MIN_ADDRESS
                - WORD_SIZE + WORD_SIZE * i,
            composed.len() == i,
            forall|k: int|
                0 <= k < i ==> (#[trigger] composer_state(source.take(k))).address <= i32::MAX,
            forall|k: int|
                0 <= k < i ==> (#[trigger] composed[k])@ == composed_line(
                    composer_state(source.take(k)),
                    source[k],
                ),
        decreases lines.len() - i,
    {
        let line = lines[i].as_str();
        proof {
            assert(line@ == source[i as int]);
            assert(source.take(i + 1).drop_last() =~= source.take(i as int));
        }
        if counter > i32::MAX as i128 {
            return None;
        }
        let current_address: i32 = counter as i32;
        let directive = resolve_section(line);
        if trim_start(line).unicode_len() != 0 {
            current_section = match directive {
                Some(section) => section,
                None => current_section,
            };
        } else {
            current_section = Section::NONE;
        }
        let composed_line = match current_section {
            Section::DATA => {
                let result = if directive.is_none() {
                    Line::new(Section::DATA, current_address, Some(line.to_owned()))
                } else {
                    Line::new(Section::NONE, current_address, None)
                };
                counter = counter + WORD_SIZE as i128;
                result
            },
            Section::TEXT => {
                if !starts_with_comment_marker(line) {
                    Line::new(Section::TEXT, current_address, Some(trim_end(line).to_owned()))
                } else {
                    Line::new(Section::NONE, current_address, None)
                }
            },
            Section::NONE => Line::new(Section::NONE, current_address, None),
        };
        composed.push(composed_line);
        i += 1;
    }
    assert(composed.deep_view() =~= composed_lines(source));
    Some(composed)
}

/// Tags every line of a source with its section and a provisional address.
pub fn compose_lines(lines: &Vec<String>) -> (composed: Vec<Line>)
    requires
        composed_addresses_fit(lines.deep_view()),
    ensures
        composed.deep_view() == composed_lines(lines.deep_view()),
{
    match try_compose_lines(lines) {
        Some(composed) => composed,
        None => Vec::new(),
    }
}

} // verus!
