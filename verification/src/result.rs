//! The results of matchers and assertions.

use vstd::prelude::*;
use crate::formatter::{spec_indent_segments, FormattedOutput, Seg};
use crate::text::spaces;

verus! {

/// The result of a failed matcher.
#[derive(Debug, Clone, PartialEq, Eq)]
pub enum MatchFailure<Pos, Neg = Pos> {
    /// We were expecting the matcher to succeed but it failed.
    Pos(Pos),
    /// We were expecting the matcher to fail but it succeeded.
    Neg(Neg),
}

impl<Pos, Neg> MatchFailure<Pos, Neg> {
    /// This is a [`MatchFailure::Pos`].
    pub fn is_pos(&self) -> (r: bool)
        ensures
            r == (*self is Pos),
    {
        match self {
            MatchFailure::Pos(_) => true,
            MatchFailure::Neg(_) => false,
        }
    }

    /// This is a [`MatchFailure::Neg`].
    pub fn is_neg(&self) -> (r: bool)
        ensures
            r == (*self is Neg),
    {
        match self {
            MatchFailure::Pos(_) => false,
            MatchFailure::Neg(_) => true,
        }
    }
}

impl<T> MatchFailure<T, T> {
    /// The failure value, whichever case this is.
    pub fn into_inner(self) -> (r: T)
        ensures
            r == (match self {
                MatchFailure::Pos(x) => x,
                MatchFailure::Neg(x) => x,
            }),
    {
        match self {
            MatchFailure::Pos(x) => x,
            MatchFailure::Neg(x) => x,
        }
    }
}

/// The outcome of a matcher, either `Success` or `Fail`.
#[derive(Debug, Clone, PartialEq, Eq)]
pub enum MatchOutcome<Success, Fail> {
    /// The matcher succeeded.
    Success(Success),
    /// The matcher failed.
    Fail(Fail),
}

impl<Success, Fail> MatchOutcome<Success, Fail> {
    /// This is a [`MatchOutcome::Success`].
    pub fn is_success(&self) -> (r: bool)
        ensures
            r == (*self is Success),
    {
        match self {
            MatchOutcome::Success(_) => true,
            MatchOutcome::Fail(_) => false,
        }
    }

    /// This is a [`MatchOutcome::Fail`].
    pub fn is_fail(&self) -> (r: bool)
        ensures
            r == (*self is Fail),
    {
        match self {
            MatchOutcome::Success(_) => false,
            MatchOutcome::Fail(_) => true,
        }
    }

    /// The outcome as a `Result`: `Ok` for a success, `Err` for a failure.
    pub fn into_result(self) -> (r: Result<Success, Fail>)
        ensures
            r == (match self {
                MatchOutcome::Success(s) => Result::<Success, Fail>::Ok(s),
                MatchOutcome::Fail(f) => Result::<Success, Fail>::Err(f),
            }),
    {
        match self {
            MatchOutcome::Success(s) => Ok(s),
            MatchOutcome::Fail(f) => Err(f),
        }
    }
}

/// A [`MatchFailure`] which has been formatted: the output of the matcher's
/// formatter.
#[derive(Debug)]
pub struct FormattedFailure {
    inner: FormattedOutput,
}

impl View for FormattedFailure {
    type V = Seq<Seg>;

    closed spec fn view(&self) -> Seq<Seg> {
        self.inner@
    }
}

impl FormattedFailure {
    /// A formatted failure whose output is `output`.
    pub fn from_output(output: FormattedOutput) -> (r: FormattedFailure)
        ensures
            r@ == output@,
    {
        FormattedFailure { inner: output }
    }

    /// The formatted output.
    pub fn into_output(self) -> (r: FormattedOutput)
        ensures
            r@ == self@,
    {
        self.inner
    }

    /// Convert this into a [`FormattedOutput`], indented by the given number
    /// of spaces.
    pub fn into_indented(self, spaces_len: u32) -> (r: FormattedOutput)
        ensures
            r@ == (if spaces_len == 0 {
                self@
            } else {
                spec_indent_segments(self@, spaces(spaces_len as nat), false)
            }),
    {
        let prefix = crate::strings::whitespace(spaces_len as usize);
        self.inner.indented(prefix.as_str())
    }
}

/// An error from a matcher, meaning it either failed or returned an error.
#[derive(Debug)]
pub enum MatchError {
    /// The matcher failed: it was expecting to succeed but failed, or it was
    /// expecting to fail but succeeded.
    Fail(FormattedFailure),
    /// The matcher could not decide, with this message.
    Error(String),
}

/// The result of a failed assertion.
#[derive(Debug)]
pub struct AssertionFailure<Context> {
    /// What the assertion knows of where it was made.
    pub ctx: Context,
    /// The error that caused this assertion to fail.
    pub error: MatchError,
}

} // verus!
