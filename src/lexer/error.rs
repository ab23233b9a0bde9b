use vstd::prelude::*;
use vstd::string::StringExecFns;
use super::text::push_char;

verus! {

/// The lexical errors that the scanner reports as error tokens.
#[derive(Debug, Clone, PartialEq)]
pub enum LexicalError {
    /// A character that starts no token.
    InvalidCharacter(char),
    /// A string literal not closed before a newline or the end of the input.
    UnterminatedString,
    /// A block comment not closed before the end of the input. Reading a
    /// comment reports it, but the scanner passes over an unclosed comment
    /// to the end of the input, so no token carries this error.
    UnterminatedComment,
    /// A numeric literal of invalid shape, or an identifier longer than the
    /// longest one allowed; it holds the offending text.
    MalformedNumber(String),
    /// An integer literal outside the signed 32-bit range; it holds its text.
    IntegerOutOfRange(String),
}

/// The mathematical value of a `LexicalError`.
pub enum LexicalErrorView {
    InvalidCharacter(char),
    UnterminatedString,
    UnterminatedComment,
    MalformedNumber(Seq<char>),
    IntegerOutOfRange(Seq<char>),
}

impl View for LexicalError {
    type V = LexicalErrorView;

    open spec fn view(&self) -> LexicalErrorView {
        match self {
            LexicalError::InvalidCharacter(c) => LexicalErrorView::InvalidCharacter(*c),
            LexicalError::UnterminatedString => LexicalErrorView::UnterminatedString,
            LexicalError::UnterminatedComment => LexicalErrorView::UnterminatedComment,
            LexicalError::MalformedNumber(s) => LexicalErrorView::MalformedNumber(s@),
            LexicalError::IntegerOutOfRange(s) => LexicalErrorView::IntegerOutOfRange(s@),
        }
    }
}

impl LexicalErrorView {
    /// The human-readable message of the error.
    pub open spec fn message(self) -> Seq<char> {
        match self {
            LexicalErrorView::InvalidCharacter(c) => "invalid character: '"@ + seq![c] + "'"@,
            LexicalErrorView::UnterminatedString => "unterminated string literal"@,
            LexicalErrorView::UnterminatedComment => "unterminated block comment"@,
            LexicalErrorView::MalformedNumber(s) => "malformed number: '"@ + s + "'"@,
            LexicalErrorView::IntegerOutOfRange(s) => "integer literal out of range: "@ + s,
        }
    }
}

impl LexicalError {
    /// The human-readable message of the error.
    pub fn message(&self) -> (r: String)
        ensures
            r@ == self@.message(),
    {
        match self {
            LexicalError::InvalidCharacter(c) => {
                let mut r = String::from_str("invalid character: '");
                push_char(&mut r, *c);
                r.append("'");
                r
            },
            LexicalError::UnterminatedString => String::from_str("unterminated string literal"),
            LexicalError::UnterminatedComment => String::from_str("unterminated block comment"),
            LexicalError::MalformedNumber(s) => {
                let mut r = String::from_str("malformed number: '");
                r.append(s.as_str());
                r.append("'");
                r
            },
            LexicalError::IntegerOutOfRange(s) => {
                let mut r = String::from_str("integer literal out of range: ");
                r.append(s.as_str());
                r
            },
        }
    }
}

} // verus!
