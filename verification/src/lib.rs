//! A single-pass assembler for a small instruction set in the style of Nios II.
//!
//! The assembler turns the lines of a source file into the text of a sparse memory image.
//! Its passes, each in a module of its own:
//!
//! - [`section`] and [`line`] tag every line with the section it stands in;
//! - [`datum`] builds the table of named data words;
//! - [`asm_macro`] expands pseudo instructions;
//! - [`label`] gives the labels of the code their addresses;
//! - [`text`] resolves operands and lays instructions out in their bit formats, with the
//!   descriptors of [`instruction`] and the table of [`constants`];
//! - [`assembler`] runs the passes and lays out the image.
//!
//! Every function is verified against a contract over character sequences and integers.
//! What a regular expression matches is taken from the `regex` crate and is the one thing
//! that is believed without proof; see [`pattern`].

pub mod asm_macro;
pub mod assembler;
pub mod constants;
pub mod datum;
pub mod error;
pub mod instruction;
pub mod label;
pub mod line;
pub mod pattern;
pub mod section;
pub mod strings;
pub mod text;
pub mod utils;
