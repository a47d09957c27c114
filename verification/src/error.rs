//! Errors that come up while parsing a quantum circuit source file.

use vstd::prelude::*;

verus! {

/// An error that occurred while parsing a quantum circuit source file.
#[derive(Debug, Clone, PartialEq)]
pub enum ParseError {
    /// The source text is syntactically invalid.
    SyntaxError(String),
    /// A qubit name referenced in a gate application is not declared.
    UndeclaredQubit(String),
    /// A gate name could not be mapped to a known `GateKind`.
    UnknownGate(String),
    /// A numeric parameter expression could not be evaluated.
    InvalidParam(String),
}

/// The text content of a [`ParseError`].
pub enum ParseErrorView {
    SyntaxError(Seq<char>),
    UndeclaredQubit(Seq<char>),
    UnknownGate(Seq<char>),
    InvalidParam(Seq<char>),
}

impl View for ParseError {
    type V = ParseErrorView;

    open spec fn view(&self) -> ParseErrorView {
        match self {
            ParseError::SyntaxError(msg) => ParseErrorView::SyntaxError(msg@),
            ParseError::UndeclaredQubit(name) => ParseErrorView::UndeclaredQubit(name@),
            ParseError::UnknownGate(name) => ParseErrorView::UnknownGate(name@),
            ParseError::InvalidParam(expr) => ParseErrorView::InvalidParam(expr@),
        }
    }
}

impl ParseError {
    /// The human-readable message for this error.
    pub open spec fn message(&self) -> Seq<char> {
        match self {
            ParseError::SyntaxError(msg) => "syntax error: "@ + msg@,
            ParseError::UndeclaredQubit(name) => "undeclared qubit register: "@ + name@,
            ParseError::UnknownGate(name) => "unknown gate: "@ + name@,
            ParseError::InvalidParam(expr) => "invalid parameter expression: "@ + expr@,
        }
    }

    /// Renders this error as text, e.g. `unknown gate: foo`.
    pub fn describe(&self) -> (s: String)
        ensures
            s@ == self.message(),
    {
        let (prefix, detail) = match self {
            ParseError::SyntaxError(msg) => ("syntax error: ", msg),
            ParseError::UndeclaredQubit(name) => ("undeclared qubit register: ", name),
            ParseError::UnknownGate(name) => ("unknown gate: ", name),
            ParseError::InvalidParam(expr) => ("invalid parameter expression: ", expr),
        };
        let mut s = String::from_str(prefix);
        s.append(detail.as_str());
        s
    }
}

} // verus!
