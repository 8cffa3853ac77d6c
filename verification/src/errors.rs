//! The recoverable failures: rejected variable assignments, evaluation
//! failures, and malformed input text.

use vstd::prelude::*;
use vstd::string::StringExecFns;

verus! {

/// Raised when a variable outside the closed universe established at parse
/// time is assigned; carries a description naming the offending variable and
/// the valid names.
#[derive(Debug)]
pub struct InvalidVariableError {
    pub message: String,
}

/// Raised when evaluation fails: a variable without a value, an operator
/// node missing an operand, or exact arithmetic that cannot represent its
/// result; carries a description of the failure.
#[derive(Debug)]
pub struct EvaluationError {
    pub message: String,
}

/// Raised when the input text cannot be parsed into an expression tree;
/// carries a description of the failure.
#[derive(Debug)]
pub struct ParseError {
    pub message: String,
}

impl View for InvalidVariableError {
    type V = Seq<char>;

    open spec fn view(&self) -> Seq<char> {
        self.message@
    }
}

impl View for EvaluationError {
    type V = Seq<char>;

    open spec fn view(&self) -> Seq<char> {
        self.message@
    }
}

impl View for ParseError {
    type V = Seq<char>;

    open spec fn view(&self) -> Seq<char> {
        self.message@
    }
}

impl InvalidVariableError {
    pub fn new(message: &str) -> (r: InvalidVariableError)
        ensures
            r@ == message@,
    {
        InvalidVariableError { message: String::from_str(message) }
    }

    /// The human-readable description of the failure.
    pub fn message(&self) -> (r: &str)
        ensures
            r@ == self@,
    {
        self.message.as_str()
    }
}

impl EvaluationError {
    pub fn new(message: &str) -> (r: EvaluationError)
        ensures
            r@ == message@,
    {
        EvaluationError { message: String::from_str(message) }
    }

    /// The human-readable description of the failure.
    pub fn message(&self) -> (r: &str)
        ensures
            r@ == self@,
    {
        self.message.as_str()
    }
}

impl ParseError {
    pub fn new(message: &str) -> (r: ParseError)
        ensures
            r@ == message@,
    {
        ParseError { message: String::from_str(message) }
    }

    /// The human-readable description of the failure.
    pub fn message(&self) -> (r: &str)
        ensures
            r@ == self@,
    {
        self.message.as_str()
    }
}

} // verus!
