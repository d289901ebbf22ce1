//! Errors and warnings of the assembler: a message about a span of source.
use vstd::prelude::*;
use crate::salt::syntax::Span;

verus! {

/// An error or warning: the span of source it concerns and what it says.
#[derive(Debug)]
pub struct SaltError {
    pub span: Span,
    pub message: String,
}

/// An error as contracts state it: its span and message.
pub struct ErrView {
    pub span: Span,
    pub message: Seq<char>,
}

impl View for SaltError {
    type V = ErrView;

    open spec fn view(&self) -> ErrView {
        ErrView { span: self.span, message: self.message@ }
    }
}

/// Whether an error is the stated one.
pub open spec fn is_err(e: &SaltError, v: ErrView) -> bool {
    e.span == v.span && e.message@ == v.message
}

/// A result whose error is a `SaltError`.
pub type SaltResult<T> = Result<T, SaltError>;

impl SaltError {
    /// An error about a span with a fixed message.
    pub fn new(span: Span, message: &str) -> (r: Self)
        ensures
            r.span == span,
            r.message@ == message@,
    {
        SaltError { span, message: message.to_owned() }
    }
}

} // verus!
