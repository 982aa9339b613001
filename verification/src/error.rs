//! The compile-time errors a pattern can raise.
//!
//! A malformed pattern is rejected when it is compiled, never deferred to
//! match time. Alternation (`|`) and repetition (`...`) are recognized
//! lexically but unsupported; patterns that use them are rejected here with
//! a named error rather than silently ignored.

use vstd::prelude::*;

verus! {

#[derive(Debug, PartialEq, Eq, Clone, Copy, Structural)]
pub enum CompileError {
    /// The pattern holds a character that starts no token; `position` is
    /// its character index.
    IllegalToken { position: usize },
    /// The pattern holds no token at all.
    EmptyPattern,
    /// `<` was not followed by exactly one literal name.
    AngleMissingName,
    /// `<name` was not closed by `>`.
    AngleUnclosed,
    /// `>` appeared with no `<` open.
    UnexpectedAngleClose,
    /// `[` was never closed.
    UnterminatedBracket,
    /// `]` appeared with no `[` open.
    UnexpectedBracketClose,
    /// The pattern uses `|`, which is not supported.
    UnsupportedAlternation,
    /// The pattern uses `...`, which is not supported.
    UnsupportedRepetition,
}

impl CompileError {
    /// The diagnostic text for this error.
    pub open spec fn spec_message(self) -> Seq<char> {
        match self {
            CompileError::IllegalToken { .. } => "unrecognized character in pattern"@,
            CompileError::EmptyPattern => "empty pattern"@,
            CompileError::AngleMissingName => "expected a single literal name inside '<...>'"@,
            CompileError::AngleUnclosed => "expected '>' to close a variable"@,
            CompileError::UnexpectedAngleClose => "'>' with no matching '<'"@,
            CompileError::UnterminatedBracket => "'[' was never closed"@,
            CompileError::UnexpectedBracketClose => "']' with no matching '['"@,
            CompileError::UnsupportedAlternation => "alternation '|' is not supported"@,
            CompileError::UnsupportedRepetition => "repetition '...' is not supported"@,
        }
    }

    /// A human-readable description of the error.
    pub fn message(&self) -> (r: String)
        ensures
            r@ == self.spec_message(),
    {
        match self {
            CompileError::IllegalToken { .. } => "unrecognized character in pattern".to_owned(),
            CompileError::EmptyPattern => "empty pattern".to_owned(),
            CompileError::AngleMissingName => "expected a single literal name inside '<...>'".to_owned(),
            CompileError::AngleUnclosed => "expected '>' to close a variable".to_owned(),
            CompileError::UnexpectedAngleClose => "'>' with no matching '<'".to_owned(),
            CompileError::UnterminatedBracket => "'[' was never closed".to_owned(),
            CompileError::UnexpectedBracketClose => "']' with no matching '['".to_owned(),
            CompileError::UnsupportedAlternation => "alternation '|' is not supported".to_owned(),
            CompileError::UnsupportedRepetition => "repetition '...' is not supported".to_owned(),
        }
    }
}

} // verus!
