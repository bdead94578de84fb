//! The fatal error kinds of the pipeline and of execution. Every
//! error is detected at the point of occurrence and propagated
//! immediately; there is no retry or recovery.

use vstd::prelude::*;

verus! {

/// One tagged, fatal error. Each variant carries the context a caller
/// needs for a diagnostic: the offending operation index, or the
/// program counter at the failing step.
#[derive(Clone, Copy, Debug, PartialEq, Eq, Structural)]
pub enum RunError {
    /// Filtering the source text yielded zero symbols.
    EmptyProgram,
    /// A loop-start bracket with no matching close anywhere to its
    /// right; `index` is the operation index of that bracket.
    UnmatchedOpenBracket { index: usize },
    /// A loop-end bracket whose earlier opens are all already matched;
    /// `index` is the operation index of that bracket.
    UnmatchedCloseBracketBeforeOpen { index: usize },
    /// A loop-end bracket with no open bracket anywhere to its left;
    /// `index` is the operation index of that bracket.
    UnmatchedCloseBracketNoOpen { index: usize },
    /// A rightward move would drive the tape pointer past the last
    /// cell; `pc` is the program counter of the failing operation.
    PointerOverflow { pc: usize },
    /// A leftward move would drive the tape pointer below zero; `pc`
    /// is the program counter of the failing operation.
    PointerUnderflow { pc: usize },
    /// An input operation found the input stream exhausted; `pc` is
    /// the program counter of the failing operation. End of input is
    /// treated as an error, not as a zero read or a no-op.
    InputExhausted { pc: usize },
}

} // verus!
