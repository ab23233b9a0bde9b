//! The lexical grammar, stated over the input as a sequence of characters.
//! Positions are character indices; a token's line and column are those of
//! its first character.
use vstd::prelude::*;
use super::error::LexicalErrorView;
use super::token::{Literal, TokenType, TokenView};

verus! {

pub open spec fn is_digit(c: char) -> bool {
    '0' <= c && c <= '9'
}

pub open spec fn is_letter(c: char) -> bool {
    ('a' <= c && c <= 'z') || ('A' <= c && c <= 'Z')
}

pub open spec fn is_word_start(c: char) -> bool {
    is_letter(c) || c == '_'
}

pub open spec fn is_word_char(c: char) -> bool {
    is_letter(c) || is_digit(c) || c == '_'
}

/// Spaces, tabs, carriage returns and newlines separate tokens.
pub open spec fn is_blank(c: char) -> bool {
    c == ' ' || c == '\t' || c == '\r' || c == '\n'
}

/// The longest identifier that the scanner accepts.
pub const MAX_IDENTIFIER_LEN: usize = 255;

/// The 1-based line of index `i`: one more than the newlines before it.
pub open spec fn line_at(s: Seq<char>, i: int) -> int
    decreases i,
{
    if i <= 0 {
        1
    } else if s[i - 1] == '\n' {
        line_at(s, i - 1) + 1
    } else {
        line_at(s, i - 1)
    }
}

/// The 1-based column of index `i`: one more than the characters between it
/// and the last newline before it.
pub open spec fn column_at(s: Seq<char>, i: int) -> int
    decreases i,
{
    if i <= 0 {
        1
    } else if s[i - 1] == '\n' {
        1
    } else {
        column_at(s, i - 1) + 1
    }
}

/// Whether `s[i]` exists and is `c`.
pub open spec fn char_is(s: Seq<char>, i: int, c: char) -> bool {
    0 <= i < s.len() && s[i] == c
}

/// The end of the run of digits that starts at `i`.
pub open spec fn digits_end(s: Seq<char>, i: int) -> int
    decreases s.len() - i,
{
    if 0 <= i < s.len() && is_digit(s[i]) {
        digits_end(s, i + 1)
    } else {
        i
    }
}

/// The end of the run of identifier characters that starts at `i`.
pub open spec fn word_end(s: Seq<char>, i: int) -> int
    decreases s.len() - i,
{
    if 0 <= i < s.len() && is_word_char(s[i]) {
        word_end(s, i + 1)
    } else {
        i
    }
}

/// The index of the first newline at or after `i`, or the end of the input.
pub open spec fn line_end(s: Seq<char>, i: int) -> int
    decreases s.len() - i,
{
    if 0 <= i < s.len() && s[i] != '\n' {
        line_end(s, i + 1)
    } else {
        i
    }
}

/// The index of the first quote or newline at or after `i`, or the end of
/// the input.
pub open spec fn string_end(s: Seq<char>, i: int) -> int
    decreases s.len() - i,
{
    if 0 <= i < s.len() && s[i] != '"' && s[i] != '\n' {
        string_end(s, i + 1)
    } else {
        i
    }
}

/// Where a block comment that is open `depth` levels deep at `i` closes: the
/// index just past its last `*/`, or `None` when the input ends first.
pub open spec fn comment_close(s: Seq<char>, i: int, depth: nat) -> Option<int>
    decreases s.len() - i,
{
    if depth == 0 {
        Some(i)
    } else if !(0 <= i < s.len()) {
        None
    } else if s[i] == '/' && char_is(s, i + 1, '*') {
        comment_close(s, i + 2, depth + 1)
    } else if s[i] == '*' && char_is(s, i + 1, '/') {
        comment_close(s, i + 2, (depth - 1) as nat)
    } else {
        comment_close(s, i + 1, depth)
    }
}

/// The end of the blank character or comment that starts at `i`, or `i`
/// itself when none starts there. A block comment that never closes runs to
/// the end of the input.
pub open spec fn trivia_step(s: Seq<char>, i: int) -> int {
    if !(0 <= i < s.len()) {
        i
    } else if is_blank(s[i]) {
        i + 1
    } else if s[i] == '/' && char_is(s, i + 1, '/') {
        line_end(s, i + 2)
    } else if s[i] == '/' && char_is(s, i + 1, '*') {
        match comment_close(s, i + 2, 1) {
            Some(e) => e,
            None => s.len() as int,
        }
    } else {
        i
    }
}

/// The end of the run of blank characters and comments that starts at `i`.
pub open spec fn trivia_end(s: Seq<char>, i: int) -> int
    decreases s.len() - i,
{
    if 0 <= i < s.len() && i < trivia_step(s, i) <= s.len() {
        trivia_end(s, trivia_step(s, i))
    } else {
        i
    }
}

/// The keyword spelled by `w`, if any.
pub open spec fn keyword_of(w: Seq<char>) -> Option<TokenType> {
    if w.len() == 2 && w[0] == 'i' && w[1] == 'f' {
        Some(TokenType::If)
    } else if w.len() == 4 && w[0] == 'e' && w[1] == 'l' && w[2] == 's' && w[3] == 'e' {
        Some(TokenType::Else)
    } else if w.len() == 5 && w[0] == 'w' && w[1] == 'h' && w[2] == 'i' && w[3] == 'l'
        && w[4] == 'e' {
        Some(TokenType::While)
    } else if w.len() == 3 && w[0] == 'f' && w[1] == 'o' && w[2] == 'r' {
        Some(TokenType::For)
    } else if w.len() == 3 && w[0] == 'i' && w[1] == 'n' && w[2] == 't' {
        Some(TokenType::Int)
    } else if w.len() == 5 && w[0] == 'f' && w[1] == 'l' && w[2] == 'o' && w[3] == 'a'
        && w[4] == 't' {
        Some(TokenType::Float)
    } else if w.len() == 4 && w[0] == 'b' && w[1] == 'o' && w[2] == 'o' && w[3] == 'l' {
        Some(TokenType::Bool)
    } else if w.len() == 6 && w[0] == 'r' && w[1] == 'e' && w[2] == 't' && w[3] == 'u'
        && w[4] == 'r' && w[5] == 'n' {
        Some(TokenType::Return)
    } else if w.len() == 4 && w[0] == 't' && w[1] == 'r' && w[2] == 'u' && w[3] == 'e' {
        Some(TokenType::True)
    } else if w.len() == 5 && w[0] == 'f' && w[1] == 'a' && w[2] == 'l' && w[3] == 's'
        && w[4] == 'e' {
        Some(TokenType::False)
    } else if w.len() == 4 && w[0] == 'v' && w[1] == 'o' && w[2] == 'i' && w[3] == 'd' {
        Some(TokenType::Void)
    } else if w.len() == 6 && w[0] == 's' && w[1] == 't' && w[2] == 'r' && w[3] == 'u'
        && w[4] == 'c' && w[5] == 't' {
        Some(TokenType::Struct)
    } else if w.len() == 2 && w[0] == 'f' && w[1] == 'n' {
        Some(TokenType::Fn)
    } else {
        None
    }
}

/// The literal that a keyword carries: a boolean for `true` and `false`.
pub open spec fn keyword_literal(k: TokenType) -> Literal {
    if k == TokenType::True {
        Literal::Boolean(true)
    } else if k == TokenType::False {
        Literal::Boolean(false)
    } else {
        Literal::NoValue
    }
}

/// The value of a run of decimal digits.
pub open spec fn decimal_value(d: Seq<char>) -> int
    decreases d.len(),
{
    if d.len() == 0 {
        0
    } else {
        10 * decimal_value(d.drop_last()) + (d.last() as int - '0' as int)
    }
}

/// What a lexical unit turns out to be: a token with its literal, or an error.
pub enum Lexed {
    Token(TokenType, Literal),
    Failure(LexicalErrorView),
}

/// A unit of one character, or of two when the second is `=`.
pub open spec fn with_equal(s: Seq<char>, st: int, one: TokenType, two: TokenType) -> (Lexed, int) {
    if char_is(s, st + 1, '=') {
        (Lexed::Token(two, Literal::NoValue), st + 2)
    } else {
        (Lexed::Token(one, Literal::NoValue), st + 1)
    }
}

/// A doubled operator: `c` twice, or an invalid character.
pub open spec fn doubled(s: Seq<char>, st: int, c: char, two: TokenType) -> (Lexed, int) {
    if char_is(s, st + 1, c) {
        (Lexed::Token(two, Literal::NoValue), st + 2)
    } else {
        (Lexed::Failure(LexicalErrorView::InvalidCharacter(c)), st + 1)
    }
}

/// The numeric literal that starts at `st`, and where it ends.
pub open spec fn number_at(s: Seq<char>, st: int) -> (Lexed, int) {
    let e = digits_end(s, st);
    if char_is(s, e, '.') {
        if 0 <= e + 1 < s.len() && is_digit(s[e + 1]) {
            let f = digits_end(s, e + 1);
            (Lexed::Token(TokenType::FloatLiteral, Literal::Float(s.subrange(st, f))), f)
        } else {
            (Lexed::Failure(LexicalErrorView::MalformedNumber(s.subrange(st, e + 1))), e + 1)
        }
    } else {
        let d = s.subrange(st, e);
        let v = decimal_value(d);
        if v > i32::MAX {
            (Lexed::Failure(LexicalErrorView::IntegerOutOfRange(d)), e)
        } else {
            (Lexed::Token(TokenType::IntLiteral, Literal::Integer(v)), e)
        }
    }
}

/// The identifier or keyword that starts at `st`, and where it ends.
pub open spec fn word_at(s: Seq<char>, st: int) -> (Lexed, int) {
    let e = word_end(s, st);
    let w = s.subrange(st, e);
    match keyword_of(w) {
        Some(k) => (Lexed::Token(k, keyword_literal(k)), e),
        None => if w.len() > MAX_IDENTIFIER_LEN {
            (Lexed::Failure(LexicalErrorView::MalformedNumber(w)), e)
        } else {
            (Lexed::Token(TokenType::Identifier, Literal::NoValue), e)
        },
    }
}

/// The string literal that starts with the quote at `st`, and where it ends.
pub open spec fn string_at(s: Seq<char>, st: int) -> (Lexed, int) {
    let q = string_end(s, st + 1);
    if char_is(s, q, '"') {
        (Lexed::Token(TokenType::StringLiteral, Literal::Text(s.subrange(st + 1, q))), q + 1)
    } else {
        (Lexed::Failure(LexicalErrorView::UnterminatedString), q)
    }
}

/// The lexical unit that starts at `st`, which is neither blank nor the
/// start of a comment, and where it ends.
pub open spec fn lex_at(s: Seq<char>, st: int) -> (Lexed, int) {
    let c = s[st];
    if c == '(' {
        (Lexed::Token(TokenType::LParen, Literal::NoValue), st + 1)
    } else if c == ')' {
        (Lexed::Token(TokenType::RParen, Literal::NoValue), st + 1)
    } else if c == '{' {
        (Lexed::Token(TokenType::LBrace, Literal::NoValue), st + 1)
    } else if c == '}' {
        (Lexed::Token(TokenType::RBrace, Literal::NoValue), st + 1)
    } else if c == '[' {
        (Lexed::Token(TokenType::LBracket, Literal::NoValue), st + 1)
    } else if c == ']' {
        (Lexed::Token(TokenType::RBracket, Literal::NoValue), st + 1)
    } else if c == ';' {
        (Lexed::Token(TokenType::Semicolon, Literal::NoValue), st + 1)
    } else if c == ',' {
        (Lexed::Token(TokenType::Comma, Literal::NoValue), st + 1)
    } else if c == ':' {
        (Lexed::Token(TokenType::Colon, Literal::NoValue), st + 1)
    } else if c == '+' {
        with_equal(s, st, TokenType::Plus, TokenType::PlusEqual)
    } else if c == '-' {
        with_equal(s, st, TokenType::Minus, TokenType::MinusEqual)
    } else if c == '*' {
        with_equal(s, st, TokenType::Star, TokenType::StarEqual)
    } else if c == '/' {
        with_equal(s, st, TokenType::Slash, TokenType::SlashEqual)
    } else if c == '=' {
        with_equal(s, st, TokenType::Equal, TokenType::EqualEqual)
    } else if c == '!' {
        with_equal(s, st, TokenType::Bang, TokenType::NotEqual)
    } else if c == '<' {
        with_equal(s, st, TokenType::Less, TokenType::LessEqual)
    } else if c == '>' {
        with_equal(s, st, TokenType::Greater, TokenType::GreaterEqual)
    } else if c == '&' {
        doubled(s, st, '&', TokenType::AndAnd)
    } else if c == '|' {
        doubled(s, st, '|', TokenType::OrOr)
    } else if c == '"' {
        string_at(s, st)
    } else if is_digit(c) {
        number_at(s, st)
    } else if is_word_start(c) {
        word_at(s, st)
    } else {
        (Lexed::Failure(LexicalErrorView::InvalidCharacter(c)), st + 1)
    }
}

/// The token for a lexical unit `u` that starts at `st` and ends at `end`.
pub open spec fn token_of(s: Seq<char>, st: int, u: Lexed, end: int) -> TokenView {
    match u {
        Lexed::Token(kind, literal) => TokenView {
            kind,
            lexeme: s.subrange(st, end),
            line: line_at(s, st),
            column: column_at(s, st),
            literal,
        },
        Lexed::Failure(e) => TokenView {
            kind: TokenType::Error,
            lexeme: e.message(),
            line: line_at(s, st),
            column: column_at(s, st),
            literal: Literal::NoValue,
        },
    }
}

/// The token that scanning from index `i` produces, and the index after it:
/// blanks and comments are passed over, and at the end of the input the
/// token is the end-of-input token.
pub open spec fn next_from(s: Seq<char>, i: int) -> (TokenView, int) {
    let st = trivia_end(s, i);
    if st >= s.len() {
        (
            TokenView {
                kind: TokenType::EndOfFile,
                lexeme: Seq::empty(),
                line: line_at(s, st),
                column: column_at(s, st),
                literal: Literal::NoValue,
            },
            st,
        )
    } else {
        let (u, end) = lex_at(s, st);
        (token_of(s, st, u, end), end)
    }
}

/// The tokens that scanning from index `i` produces, up to and including the
/// end-of-input token. Every other token ends past the index it was scanned
/// from (see `lemma_next_progress`), so the list is complete.
pub open spec fn tokens_from(s: Seq<char>, i: int) -> Seq<TokenView>
    decreases s.len() - i,
{
    let (t, e) = next_from(s, i);
    if t.kind == TokenType::EndOfFile || !(i < e <= s.len()) {
        seq![t]
    } else {
        seq![t] + tokens_from(s, e)
    }
}

} // verus!
