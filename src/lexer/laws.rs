//! Properties of the lexical grammar that hold for every input.
use vstd::prelude::*;
use super::error::LexicalErrorView;
use super::grammar::{
    char_is, decimal_value, digits_end, is_digit, is_word_char, is_word_start, keyword_literal,
    keyword_of, lex_at, next_from, string_end, trivia_end, trivia_step, word_end,
    MAX_IDENTIFIER_LEN, line_at, column_at,
};
use super::token::{Literal, TokenType};

verus! {

/// Text made only of blank characters and comments yields the end-of-input
/// token at once, and again on every later request.
pub proof fn lemma_trivia_only_yields_end(s: Seq<char>)
    requires
        trivia_end(s, 0) == s.len(),
    ensures
        next_from(s, 0).0.kind == TokenType::EndOfFile,
        next_from(s, 0).1 == s.len(),
        next_from(s, s.len() as int).0.kind == TokenType::EndOfFile,
        next_from(s, s.len() as int).1 == s.len(),
{
}

/// A run of digits not followed by a point is one integer literal: its value
/// when that fits in 32 signed bits, and else an out-of-range error, however
/// large the value.
pub proof fn lemma_integer_literal(s: Seq<char>, i: int)
    requires
        0 <= trivia_end(s, i) < s.len(),
        is_digit(s[trivia_end(s, i)]),
        !char_is(s, digits_end(s, trivia_end(s, i)), '.'),
    ensures
        ({
            let st = trivia_end(s, i);
            let d = s.subrange(st, digits_end(s, st));
            let t = next_from(s, i).0;
            &&& next_from(s, i).1 == digits_end(s, st)
            &&& t.line == line_at(s, st) && t.column == column_at(s, st)
            &&& decimal_value(d) <= i32::MAX ==> t.kind == TokenType::IntLiteral && t.lexeme == d
                && t.literal == Literal::Integer(decimal_value(d))
            &&& decimal_value(d) > i32::MAX ==> t.kind == TokenType::Error && t.lexeme
                == LexicalErrorView::IntegerOutOfRange(d).message() && t.literal == Literal::NoValue
        }),
{
}

/// Where a word starts, a keyword's spelling yields that keyword, and any
/// other word of at most the longest identifier length yields an identifier.
pub proof fn lemma_keyword_precedence(s: Seq<char>, i: int)
    requires
        0 <= trivia_end(s, i) < s.len(),
        is_word_start(s[trivia_end(s, i)]),
    ensures
        ({
            let st = trivia_end(s, i);
            let w = s.subrange(st, word_end(s, st));
            let t = next_from(s, i).0;
            &&& t.line == line_at(s, st) && t.column == column_at(s, st)
            &&& next_from(s, i).1 == word_end(s, st)
            &&& keyword_of(w) matches Some(k) ==> t.kind == k && t.lexeme == w && t.literal
                == keyword_literal(k)
            &&& keyword_of(w) is None && w.len() <= MAX_IDENTIFIER_LEN ==> t.kind
                == TokenType::Identifier && t.lexeme == w
            &&& keyword_of(w) is None && w.len() > MAX_IDENTIFIER_LEN ==> t.kind
                == TokenType::Error
        }),
{
}

/// A closed string literal keeps the text between its quotes as it stands,
/// comment markers and backslashes included.
pub proof fn lemma_string_verbatim(s: Seq<char>, i: int)
    requires
        0 <= trivia_end(s, i) < s.len(),
        s[trivia_end(s, i)] == '"',
        char_is(s, string_end(s, trivia_end(s, i) + 1), '"'),
    ensures
        ({
            let st = trivia_end(s, i);
            let q = string_end(s, st + 1);
            &&& next_from(s, i).0.kind == TokenType::StringLiteral
            &&& next_from(s, i).0.literal == Literal::Text(s.subrange(st + 1, q))
            &&& next_from(s, i).0.lexeme == s.subrange(st, q + 1)
            &&& next_from(s, i).0.line == line_at(s, st)
            &&& next_from(s, i).0.column == column_at(s, st)
            &&& next_from(s, i).1 == q + 1
        }),
{
}

proof fn lemma_digits_end_bounds(s: Seq<char>, i: int)
    requires
        0 <= i <= s.len(),
    ensures
        i <= digits_end(s, i) <= s.len(),
    decreases s.len() - i,
{
    if i < s.len() && is_digit(s[i]) {
        lemma_digits_end_bounds(s, i + 1);
    }
}

proof fn lemma_word_end_bounds(s: Seq<char>, i: int)
    requires
        0 <= i <= s.len(),
    ensures
        i <= word_end(s, i) <= s.len(),
    decreases s.len() - i,
{
    if i < s.len() && is_word_char(s[i]) {
        lemma_word_end_bounds(s, i + 1);
    }
}

proof fn lemma_string_end_bounds(s: Seq<char>, i: int)
    requires
        0 <= i <= s.len(),
    ensures
        i <= string_end(s, i) <= s.len(),
    decreases s.len() - i,
{
    if i < s.len() && s[i] != '"' && s[i] != '\n' {
        lemma_string_end_bounds(s, i + 1);
    }
}

proof fn lemma_trivia_end_bounds(s: Seq<char>, i: int)
    requires
        0 <= i <= s.len(),
    ensures
        i <= trivia_end(s, i) <= s.len(),
    decreases s.len() - i,
{
    if i < s.len() && i < trivia_step(s, i) <= s.len() {
        lemma_trivia_end_bounds(s, trivia_step(s, i));
    }
}

/// A unit that is not blank and opens no comment ends past its start and
/// within the text.
proof fn lemma_lex_at_bounds(s: Seq<char>, st: int)
    requires
        0 <= st < s.len(),
    ensures
        st < lex_at(s, st).1 <= s.len(),
{
    lemma_digits_end_bounds(s, st + 1);
    lemma_word_end_bounds(s, st + 1);
    lemma_string_end_bounds(s, st + 1);
    let e = digits_end(s, st + 1);
    if e + 1 < s.len() {
        lemma_digits_end_bounds(s, e + 1);
    }
}

/// Scanning from `i` never moves back, stays within the text, and moves
/// forward unless it yields the end-of-input token.
pub proof fn lemma_next_progress(s: Seq<char>, i: int)
    requires
        0 <= i <= s.len(),
    ensures
        i <= next_from(s, i).1 <= s.len(),
        next_from(s, i).0.kind != TokenType::EndOfFile ==> i < next_from(s, i).1,
{
    lemma_trivia_end_bounds(s, i);
    let st = trivia_end(s, i);
    if st < s.len() {
        lemma_lex_at_bounds(s, st);
    }
}

} // verus!
