//! Source text to syntax tree.

use vstd::prelude::*;

pub mod ast;
pub mod grammar;
pub mod laws;
pub mod operators;
pub mod lexer;
pub mod model;
pub mod parser;
pub mod printing;
pub mod reading;
pub mod words;

pub use lexer::Span;

verus! {

/// Something wrong with the source, at a place in it.
///
/// Lexing and parsing both collect these rather than stopping, so one mistake does not
/// hide the rest of the file.
#[derive(Debug, Clone, PartialEq, Eq)]
pub struct SyntaxError {
    pub span: Span,
    pub message: String,
}

impl SyntaxError {
    pub open spec fn view(&self) -> model::Fault {
        model::Fault { span: self.span, message: self.message@ }
    }

    pub fn new(span: Span, message: &str) -> (r: SyntaxError)
        ensures
            r.span == span,
            r.message@ == message@,
    {
        SyntaxError { span, message: message.to_owned() }
    }

    /// The problem in one line: what it is, and the byte it is at.
    pub fn to_string(&self) -> (r: String)
        ensures
            r@ == self.message@ + " (at byte "@ + crate::text::nat_text(self.span.start as nat)
                + ")"@,
    {
        crate::text::cat4(
            self.message.as_str(),
            " (at byte ",
            crate::text::show_u64(self.span.start as u64).as_str(),
            ")",
        )
    }
}

/// What each error of a list says.
pub open spec fn faults(v: Seq<SyntaxError>) -> Seq<model::Fault> {
    Seq::new(v.len(), |i: int| v[i]@)
}

} // verus!
