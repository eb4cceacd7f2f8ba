//! The ways in which the library's operations fail.

use vstd::prelude::*;

verus! {

/// What went wrong in an operation on the terminal.
#[derive(Debug, Clone, Copy, PartialEq, Eq, Structural, Hash)]
pub enum TerminalError {
    /// A second terminal was asked for while one still lives.
    AlreadyAcquired,
    /// Standard input or standard output is not a terminal.
    NotATerminal,
    /// A call into the operating system failed with the given error code.
    OsCall(i32),
    /// The input ended in the middle of a read.
    UnexpectedEof,
    /// Text written into a frame holds an escape sequence that is not the
    /// canonical form of any style.
    InvalidStyleEscape,
}

} // verus!
