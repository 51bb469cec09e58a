/*!
Command-line tokenization.

A command line is split into tokens at runs of whitespace, except that a
double-quote byte opens a span that absorbs everything, whitespace included,
up to the next double-quote byte (or the end of the input). Two views of the
same scan are offered: [`Tokens`] yields each token as a borrowed `&str`,
[`TokenRanges`] yields each token's byte offsets within the original string.
*/

use vstd::prelude::*;

pub mod laws;
pub mod scan;
pub mod tokens;

pub use crate::tokens::{TokenRanges, Tokens};

verus! {

/// Generic state machine for parsing command line arguments.
///
/// This is an open tag set for callers that walk a token sequence; the
/// tokenizer itself attaches no meaning to it.
#[derive(Copy, Clone, Debug, Eq, PartialEq, Structural)]
pub enum State {
    /// Expecting a command.
    Command,
    /// Expecting a number of modifiers.
    Modifiers,
    /// Expecting a number of options.
    Options,
    /// Expecting an option value.
    Value,
    /// Expecting fixed position argument.
    Fixed(u32),
    /// Expecting variable arguments.
    Args,
    /// Expecting no more arguments.
    End,
}

} // verus!
