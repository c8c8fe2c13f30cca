//! Diagnostics: errors and warnings, each a message with a span.

use vstd::prelude::*;
use vstd::string::StringSliceAdditionalSpecFns;

use crate::span::Span;

verus! {

/// The mathematical image of a diagnostic: message bytes and a span.
pub struct DiagView {
    pub msg: Seq<u8>,
    pub span: Span,
}

/// An error produced by the lexer, the parser or the assembler.
///
/// The message is what a renderer displays; the span says what it underlines.
#[derive(Debug, Clone, PartialEq, Eq)]
pub struct Error {
    pub msg: Vec<u8>,
    pub span: Span,
}

/// A warning; same shape as an error, reported without failing the assembly.
#[derive(Debug, Clone, PartialEq, Eq)]
pub struct Warning {
    pub msg: Vec<u8>,
    pub span: Span,
}

/// All diagnostics of a failed assembly.
#[derive(Debug, Clone, PartialEq, Eq)]
pub struct ErrorSet {
    pub errors: Vec<Error>,
    pub warnings: Vec<Warning>,
}

impl View for Error {
    type V = DiagView;

    open spec fn view(&self) -> DiagView {
        DiagView { msg: self.msg@, span: self.span }
    }
}

impl View for Warning {
    type V = DiagView;

    open spec fn view(&self) -> DiagView {
        DiagView { msg: self.msg@, span: self.span }
    }
}

impl Error {
    /// Builds an error from a fixed message.
    pub fn new(msg: &str, span: Span) -> (r: Error)
        ensures
            r@ == (DiagView { msg: msg.spec_bytes(), span }),
    {
        Error { msg: vstd::slice::slice_to_vec(msg.as_bytes()), span }
    }

    /// Builds an error from already assembled message bytes.
    pub fn from_bytes(msg: Vec<u8>, span: Span) -> (r: Error)
        ensures
            r@ == (DiagView { msg: msg@, span }),
    {
        Error { msg, span }
    }
}

impl Warning {
    /// Builds a warning from a fixed message.
    pub fn new(msg: &str, span: Span) -> (r: Warning)
        ensures
            r@ == (DiagView { msg: msg.spec_bytes(), span }),
    {
        Warning { msg: vstd::slice::slice_to_vec(msg.as_bytes()), span }
    }
}

} // verus!
