//! The failures of parsing.
use vstd::prelude::*;
use vstd::std_specs::convert::FromSpecImpl;
use vstd::string::StringExecFns;

verus! {

/// Why the parser stopped.
#[derive(Debug, Clone, Copy, PartialEq, Eq, Structural)]
pub enum ParseErrorKind {
    /// The token that the grammar requires next is not there.
    Malformed,
    /// The digits of a literal denote a number that no `isize` holds.
    OutOfRange,
}

/// A failure of the parser: what it could not read, and why.
#[derive(Debug, Clone, Copy, PartialEq, Eq)]
pub struct ParseError<'a> {
    pub kind: ParseErrorKind,
    /// The input from the place of the failure to its end.
    pub tail: &'a str,
}

/// A failure of the parser over characters.
pub struct ParseFailure {
    pub kind: ParseErrorKind,
    pub tail: Seq<char>,
}

impl<'a> View for ParseError<'a> {
    type V = ParseFailure;

    open spec fn view(&self) -> ParseFailure {
        ParseFailure { kind: self.kind, tail: self.tail@ }
    }
}

/// A formula that could not be read as a whole.
#[derive(Debug)]
pub struct InvalidFormulaError {
    /// The part of the formula from the place of the failure to its end;
    /// empty where the formula ended too early.
    pub failed_tail: String,
}

impl InvalidFormulaError {
    pub fn new(failed_tail: String) -> (error: Self)
        ensures
            error.failed_tail == failed_tail,
    {
        Self { failed_tail }
    }

    /// The error in words: `failed formula tail=` and the tail.
    pub fn to_string(&self) -> (text: String)
        ensures
            text@ == "failed formula tail="@ + self.failed_tail@,
    {
        "failed formula tail=".to_owned().concat(self.failed_tail.as_str())
    }
}

impl<'a> From<ParseError<'a>> for InvalidFormulaError {
    /// Keeps the tail of the failure.
    fn from(err: ParseError<'a>) -> (error: Self)
        ensures
            error.failed_tail@ == err.tail@,
    {
        Self { failed_tail: err.tail.to_owned() }
    }
}

/// A `String` cannot be written down in a specification, so the result of
/// `from` is stated by its own `ensures`, not here.
impl<'a> FromSpecImpl<ParseError<'a>> for InvalidFormulaError {
    open spec fn obeys_from_spec() -> bool {
        false
    }

    open spec fn from_spec(err: ParseError<'a>) -> Self {
        arbitrary()
    }
}

/// A character that stands for no operator.
#[derive(Debug)]
pub struct BadOperatorError {
    message: String,
}

impl View for BadOperatorError {
    type V = Seq<char>;

    /// The message.
    closed spec fn view(&self) -> Seq<char> {
        self.message@
    }
}

impl BadOperatorError {
    pub fn new(message: String) -> (error: Self)
        ensures
            error@ == message@,
    {
        Self { message }
    }

    /// The error in words: the message it was made with.
    pub fn to_string(&self) -> (text: String)
        ensures
            text@ == self@,
    {
        self.message.clone()
    }
}

} // verus!
