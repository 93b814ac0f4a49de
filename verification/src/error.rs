//! What can be wrong with a token of dice notation.

use vstd::prelude::*;
use vstd::std_specs::convert::FromSpecImpl;

verus! {

/// Why a text is not a whole number.
#[derive(Clone, Copy, Debug, PartialEq, Eq, Structural)]
pub enum NumberError {
    /// The text is empty.
    Empty,
    /// The text holds a character that is not a decimal digit, or is a lone
    /// sign.
    InvalidDigit,
}

/// The kinds of failure of the notation parser.
#[derive(Clone, Copy, Debug, PartialEq, Eq, Structural)]
pub enum ParseErrorKind {
    /// The token holds no delimiter `d`.
    MalformedSyntax,
    /// The number of sides is not in the die catalog.
    UnrecognizedDieType,
    /// The count is zero or above 255.
    InvalidCount,
    /// The count or the number of sides is not a whole number.
    NumberParseFailure(NumberError),
}

/// A failure of the notation parser, with the token that caused it.
#[derive(Clone, Debug, PartialEq, Eq)]
pub struct ParseError {
    pub kind: ParseErrorKind,
    pub token: String,
}

/// The mathematical value of a [`ParseError`].
pub struct ParseFailure {
    pub kind: ParseErrorKind,
    pub token: Seq<char>,
}

impl NumberError {
    /// What is wrong with the text, in words.
    pub open spec fn text(self) -> Seq<char> {
        match self {
            NumberError::Empty => "cannot parse integer from empty string"@,
            NumberError::InvalidDigit => "invalid digit found in string"@,
        }
    }

    /// What is wrong with the text, in words.
    pub fn describe(&self) -> (words: &'static str)
        ensures
            words@ == self.text(),
    {
        match self {
            NumberError::Empty => "cannot parse integer from empty string",
            NumberError::InvalidDigit => "invalid digit found in string",
        }
    }
}

impl ParseErrorKind {
    /// The kind of failure, in words. A number that could not be read is
    /// described after the words `parse number: `.
    pub open spec fn text(self) -> Seq<char> {
        match self {
            ParseErrorKind::MalformedSyntax => "faulty dice syntax"@,
            ParseErrorKind::UnrecognizedDieType => "unrecognized dice type"@,
            ParseErrorKind::InvalidCount => "cannot roll zero or fewer dice, nor more than 255"@,
            ParseErrorKind::NumberParseFailure(e) => "parse number: "@ + e.text(),
        }
    }

    /// The failure to read a number that lies under this kind, if any.
    pub fn source(&self) -> (cause: Option<NumberError>)
        ensures
            cause == match *self {
                ParseErrorKind::NumberParseFailure(e) => Some(e),
                _ => None,
            },
    {
        match self {
            ParseErrorKind::NumberParseFailure(e) => Some(*e),
            _ => None,
        }
    }

    /// The kind of failure, in words.
    pub fn describe(&self) -> (words: String)
        ensures
            words@ == self.text(),
    {
        match self {
            ParseErrorKind::MalformedSyntax => "faulty dice syntax".to_owned(),
            ParseErrorKind::UnrecognizedDieType => "unrecognized dice type".to_owned(),
            ParseErrorKind::InvalidCount => {
                "cannot roll zero or fewer dice, nor more than 255".to_owned()
            },
            ParseErrorKind::NumberParseFailure(e) => {
                let mut words = "parse number: ".to_owned();
                words.append(e.describe());
                words
            },
        }
    }
}

/// A number that could not be read is a failure of the parser.
impl From<NumberError> for ParseErrorKind {
    fn from(err: NumberError) -> (kind: ParseErrorKind) {
        ParseErrorKind::NumberParseFailure(err)
    }
}

impl FromSpecImpl<NumberError> for ParseErrorKind {
    open spec fn obeys_from_spec() -> bool {
        true
    }

    open spec fn from_spec(err: NumberError) -> ParseErrorKind {
        ParseErrorKind::NumberParseFailure(err)
    }
}

impl ParseFailure {
    /// The failure in words: its kind, then `, at: `, then the token.
    pub open spec fn message(self) -> Seq<char> {
        self.kind.text() + ", at: "@ + self.token
    }
}

impl ParseError {
    /// The failure in words: its kind, then `, at: `, then the token.
    pub fn message(&self) -> (words: String)
        ensures
            words@ == self@.message(),
    {
        let mut words = self.kind.describe();
        words.append(", at: ");
        words.append(self.token.as_str());
        words
    }
}

impl View for ParseError {
    type V = ParseFailure;

    open spec fn view(&self) -> ParseFailure {
        ParseFailure { kind: self.kind, token: self.token@ }
    }
}

} // verus!
