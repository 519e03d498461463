//! The ways in which a recognizer can turn a text down.

use vstd::prelude::*;

verus! {

/// Why a recognizer did not accept the text at a position. The two
/// unterminated forms are also the ways in which the scan of a text fails.
#[derive(Clone, Copy, Debug, PartialEq, Eq, Structural)]
pub enum ScanError {
    /// The text at the position does not begin the form that was looked for.
    NoMatch,
    /// A literal is opened at the position and nothing closes it before the
    /// end of the text.
    UnterminatedLiteral,
    /// A block comment is opened at the position and the text ends before
    /// every opening token has met its closing token.
    UnterminatedBlockComment,
}

/// The end position that a recognizer reports, as a mathematical integer.
pub open spec fn end_of(res: Result<usize, ScanError>) -> Result<int, ScanError> {
    match res {
        Ok(end) => Ok(end as int),
        Err(e) => Err(e),
    }
}

} // verus!
