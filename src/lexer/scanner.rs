use vstd::prelude::*;
use super::error::LexicalError;
use super::grammar::{
    char_is, column_at, comment_close, decimal_value, digits_end, is_digit, is_word_char,
    is_word_start, keyword_of, line_at, line_end, next_from, number_at, string_at, string_end,
    token_of, tokens_from, trivia_end, word_at, word_end, MAX_IDENTIFIER_LEN,
};
use super::laws::lemma_next_progress;
use super::text::{same_chars, string_of};
use super::token::{Literal, LiteralValue, Token, TokenType, TokenView};

verus! {

/// A cursor over source text that produces one token per request.
pub struct Scanner {
    chars: Vec<char>,
    line: usize,
    column: usize,
    start: usize,
    current: usize,
    keywords: Vec<(Vec<char>, TokenType)>,
}

/// The position part of a scanner, kept aside to look ahead.
struct ScannerState {
    start: usize,
    current: usize,
    line: usize,
    column: usize,
}

/// Whether a table of spellings gives exactly the keywords of `keyword_of`.
pub open spec fn keyword_table_ok(t: Seq<(Vec<char>, TokenType)>) -> bool {
    &&& forall|i: int| 0 <= i < t.len() ==> keyword_of(#[trigger] t[i].0@) == Some(t[i].1)
    &&& forall|w: Seq<char>|
        (#[trigger] keyword_of(w)) is Some ==> exists|i: int| 0 <= i < t.len() && t[i].0@ == w
}

proof fn lemma_position_bounds(s: Seq<char>, i: int)
    requires
        0 <= i,
    ensures
        1 <= line_at(s, i) <= i + 1,
        1 <= column_at(s, i) <= i + 1,
    decreases i,
{
    if i > 0 {
        lemma_position_bounds(s, i - 1);
    }
}

proof fn lemma_line_end_bounds(s: Seq<char>, i: int)
    requires
        0 <= i <= s.len(),
    ensures
        i <= line_end(s, i) <= s.len(),
    decreases s.len() - i,
{
    if i < s.len() && s[i] != '\n' {
        lemma_line_end_bounds(s, i + 1);
    }
}

proof fn lemma_comment_close_bounds(s: Seq<char>, i: int, depth: nat)
    requires
        0 <= i <= s.len(),
    ensures
        comment_close(s, i, depth) matches Some(e) ==> i <= e <= s.len(),
    decreases s.len() - i,
{
    if depth == 0 || i >= s.len() {
    } else if s[i] == '/' && char_is(s, i + 1, '*') {
        lemma_comment_close_bounds(s, i + 2, depth + 1);
    } else if s[i] == '*' && char_is(s, i + 1, '/') {
        lemma_comment_close_bounds(s, i + 2, (depth - 1) as nat);
    } else {
        lemma_comment_close_bounds(s, i + 1, depth);
    }
}

/// The characters of `s`, in order.
fn chars_of(s: &str) -> (r: Vec<char>)
    ensures
        r@ == s@,
{
    let mut r: Vec<char> = Vec::new();
    for c in it: s.chars()
        invariant
            r@ == it.seq().subrange(0, it.index() as int),
    {
        r.push(c);
        assert(it.seq().subrange(0, it.index() + 1) =~= r@);
    }
    assert(r@ =~= s@);
    r
}

/// Whether `c` may begin an identifier: an ASCII letter or an underscore.
pub fn is_identifier_start(c: char) -> (r: bool)
    ensures
        r == is_word_start(c),
{
    ('a' <= c && c <= 'z') || ('A' <= c && c <= 'Z') || c == '_'
}

/// Whether `c` may continue an identifier: an ASCII letter, a digit or an
/// underscore.
pub fn is_identifier_continue(c: char) -> (r: bool)
    ensures
        r == is_word_char(c),
{
    ('a' <= c && c <= 'z') || ('A' <= c && c <= 'Z') || ('0' <= c && c <= '9') || c == '_'
}

fn is_ascii_digit(c: char) -> (r: bool)
    ensures
        r == is_digit(c),
{
    '0' <= c && c <= '9'
}

/// The run of digits at `i` ends at or after `i`, and holds digits only.
proof fn lemma_digit_run(s: Seq<char>, i: int)
    requires
        0 <= i,
    ensures
        i <= digits_end(s, i),
        forall|k: int| i <= k < digits_end(s, i) ==> is_digit(#[trigger] s[k]),
    decreases s.len() - i,
{
    if 0 <= i < s.len() && is_digit(s[i]) {
        lemma_digit_run(s, i + 1);
    }
}

impl Scanner {
    /// The text being scanned.
    pub closed spec fn text(&self) -> Seq<char> {
        self.chars@
    }

    /// The index of the next unread character.
    pub closed spec fn position(&self) -> int {
        self.current as int
    }

    /// The scanner's invariant: the cursor lies within the text, the line and
    /// column are those of the cursor, and the keyword table is complete.
    pub closed spec fn wf(&self) -> bool {
        &&& self.chars@.len() < usize::MAX
        &&& self.start <= self.current <= self.chars@.len()
        &&& self.line == line_at(self.chars@, self.current as int)
        &&& self.column == column_at(self.chars@, self.current as int)
        &&& keyword_table_ok(self.keywords@)
    }

    /// The part of the state that tokens depend on.
    pub closed spec fn same_input(&self, other: &Scanner) -> bool {
        self.chars == other.chars && self.keywords == other.keywords
    }
}

impl Scanner {
    /// A scanner at the start of `source`, on line 1, column 1.
    pub fn new(source: &str) -> (r: Scanner)
        requires
            source@.len() < usize::MAX,
        ensures
            r.wf(),
            r.text() == source@,
            r.position() == 0,
    {
        let mut keywords: Vec<(Vec<char>, TokenType)> = Vec::new();
        keywords.push((chars_of("if"), TokenType::If));
        keywords.push((chars_of("else"), TokenType::Else));
        keywords.push((chars_of("while"), TokenType::While));
        keywords.push((chars_of("for"), TokenType::For));
        keywords.push((chars_of("int"), TokenType::Int));
        keywords.push((chars_of("float"), TokenType::Float));
        keywords.push((chars_of("bool"), TokenType::Bool));
        keywords.push((chars_of("return"), TokenType::Return));
        keywords.push((chars_of("true"), TokenType::True));
        keywords.push((chars_of("false"), TokenType::False));
        keywords.push((chars_of("void"), TokenType::Void));
        keywords.push((chars_of("struct"), TokenType::Struct));
        keywords.push((chars_of("fn"), TokenType::Fn));
        proof {
            reveal_strlit("if");
            reveal_strlit("else");
            reveal_strlit("while");
            reveal_strlit("for");
            reveal_strlit("int");
            reveal_strlit("float");
            reveal_strlit("bool");
            reveal_strlit("return");
            reveal_strlit("true");
            reveal_strlit("false");
            reveal_strlit("void");
            reveal_strlit("struct");
            reveal_strlit("fn");
            let t = keywords@;
            assert forall|w: Seq<char>| (#[trigger] keyword_of(w)) is Some implies exists|i: int|
                0 <= i < t.len() && t[i].0@ == w by {
                // The index of the table entry for the keyword that `w` spells.
                let k = if w.len() == 2 && w[0] == 'i' {
                    0int
                } else if w.len() == 4 && w[0] == 'e' {
                    1
                } else if w.len() == 5 && w[0] == 'w' {
                    2
                } else if w.len() == 3 && w[0] == 'f' {
                    3
                } else if w.len() == 3 {
                    4
                } else if w.len() == 5 && w[1] == 'l' {
                    5
                } else if w.len() == 4 && w[0] == 'b' {
                    6
                } else if w.len() == 6 && w[0] == 'r' {
                    7
                } else if w.len() == 4 && w[0] == 't' {
                    8
                } else if w.len() == 5 {
                    9
                } else if w.len() == 4 {
                    10
                } else if w.len() == 6 {
                    11
                } else {
                    12
                };
                assert(t[k].0@ =~= w);
            }
        }
        Scanner {
            chars: chars_of(source),
            line: 1,
            column: 1,
            start: 0,
            current: 0,
            keywords,
        }
    }

    /// The 1-based line of the cursor.
    pub fn get_line(&self) -> (r: usize)
        requires
            self.wf(),
        ensures
            r == line_at(self.text(), self.position()),
    {
        self.line
    }

    /// The 1-based column of the cursor.
    pub fn get_column(&self) -> (r: usize)
        requires
            self.wf(),
        ensures
            r == column_at(self.text(), self.position()),
    {
        self.column
    }

    /// Whether the whole text has been read.
    pub fn is_at_end(&mut self) -> (r: bool)
        requires
            old(self).wf(),
        ensures
            *final(self) == *old(self),
            r == (old(self).position() >= old(self).text().len()),
    {
        self.current >= self.chars.len()
    }

    /// Reads one character and moves the cursor, the line and the column
    /// past it; `None` at the end of the text.
    fn advance(&mut self) -> (r: Option<char>)
        requires
            old(self).wf(),
        ensures
            final(self).wf(),
            final(self).same_input(old(self)),
            final(self).start == old(self).start,
            old(self).current < old(self).chars@.len() ==> r == Some(
                old(self).chars@[old(self).current as int],
            ) && final(self).current == old(self).current + 1,
            old(self).current >= old(self).chars@.len() ==> r is None && *final(self) == *old(self),
    {
        if self.current >= self.chars.len() {
            return None;
        }
        let ch = self.chars[self.current];
        proof {
            lemma_position_bounds(self.chars@, self.current as int);
        }
        self.current += 1;
        self.column += 1;
        if ch == '\n' {
            self.line += 1;
            self.column = 1;
        }
        Some(ch)
    }

    /// Reads the next character if it is `expected`.
    fn match_char(&mut self, expected: char) -> (r: bool)
        requires
            old(self).wf(),
        ensures
            final(self).wf(),
            final(self).same_input(old(self)),
            final(self).start == old(self).start,
            r == char_is(old(self).chars@, old(self).current as int, expected),
            final(self).current == old(self).current + if r { 1int } else { 0 },
    {
        if self.peek() == Some(expected) {
            self.advance();
            true
        } else {
            false
        }
    }

    /// The next character, without reading it.
    fn peek(&self) -> (r: Option<char>)
        ensures
            r == if self.current < self.chars@.len() {
                Some(self.chars@[self.current as int])
            } else {
                None
            },
    {
        if self.current < self.chars.len() {
            Some(self.chars[self.current])
        } else {
            None
        }
    }

    /// The character after the next one, without reading either.
    fn peek_next(&self) -> (r: Option<char>)
        ensures
            r == if self.current + 1 < self.chars@.len() {
                Some(self.chars@[self.current + 1])
            } else {
                None
            },
    {
        if self.current < self.chars.len() && self.current + 1 < self.chars.len() {
            Some(self.chars[self.current + 1])
        } else {
            None
        }
    }

    /// Passes over blank characters and comments. A block comment that never
    /// closes is passed over to the end of the text, with no error.
    fn skip_whitespace(&mut self)
        requires
            old(self).wf(),
        ensures
            final(self).wf(),
            final(self).same_input(old(self)),
            final(self).start == old(self).start,
            final(self).current == trivia_end(old(self).chars@, old(self).current as int),
    {
        let ghost s = self.chars@;
        let ghost target = trivia_end(s, self.current as int);
        loop
            invariant
                self.wf(),
                self.chars@ == s,
                self.same_input(old(self)),
                self.start == old(self).start,
                trivia_end(s, self.current as int) == target,
            ensures
                self.wf(),
                self.chars@ == s,
                self.same_input(old(self)),
                self.start == old(self).start,
                self.current == target,
            decreases s.len() - self.current,
        {
            let c = self.peek();
            let n = self.peek_next();
            let ghost at = self.current as int;
            match c {
                Some(ch) => {
                    if ch == ' ' || ch == '\t' || ch == '\r' || ch == '\n' {
                        self.advance();
                    } else if ch == '/' && n == Some('/') {
                        self.advance();
                        self.advance();
                        self.single_line_comment();
                        proof {
                            lemma_line_end_bounds(s, at + 2);
                        }
                    } else if ch == '/' && n == Some('*') {
                        self.advance();
                        self.advance();
                        let _ = self.block_comment();
                        proof {
                            lemma_comment_close_bounds(s, at + 2, 1);
                        }
                    } else {
                        break;
                    }
                },
                None => break,
            }
        }
    }

    /// Passes over the rest of a line comment, up to the newline.
    fn single_line_comment(&mut self)
        requires
            old(self).wf(),
        ensures
            final(self).wf(),
            final(self).same_input(old(self)),
            final(self).start == old(self).start,
            final(self).current == line_end(old(self).chars@, old(self).current as int),
    {
        let ghost s = self.chars@;
        let ghost target = line_end(s, self.current as int);
        loop
            invariant
                self.wf(),
                self.chars@ == s,
                self.same_input(old(self)),
                self.start == old(self).start,
                line_end(s, self.current as int) == target,
            ensures
                self.wf(),
                self.same_input(old(self)),
                self.start == old(self).start,
                self.current == target,
            decreases s.len() - self.current,
        {
            match self.peek() {
                Some(c) if c != '\n' => {
                    self.advance();
                },
                _ => break,
            }
        }
    }

    /// Passes over the rest of a block comment whose `/*` has been read,
    /// honouring nested comments; an error if the text ends first.
    fn block_comment(&mut self) -> (r: Result<(), LexicalError>)
        requires
            old(self).wf(),
            old(self).current >= 1,
        ensures
            final(self).wf(),
            final(self).same_input(old(self)),
            final(self).start == old(self).start,
            comment_close(old(self).chars@, old(self).current as int, 1) matches Some(e) ==> r is Ok
                && final(self).current == e,
            comment_close(old(self).chars@, old(self).current as int, 1) is None ==> r matches Err(
                LexicalError::UnterminatedComment,
            ),
            comment_close(old(self).chars@, old(self).current as int, 1) is None ==> final(self).current
                == old(self).chars@.len(),
    {
        let ghost s = self.chars@;
        let ghost target = comment_close(s, self.current as int, 1);
        let mut nesting: usize = 1;
        while nesting > 0
            invariant
                self.wf(),
                self.chars@ == s,
                self.same_input(old(self)),
                self.start == old(self).start,
                1 <= self.current,
                nesting <= self.current,
                comment_close(s, self.current as int, nesting as nat) == target,
                target == comment_close(old(self).chars@, old(self).current as int, 1),
            decreases s.len() - self.current,
        {
            match self.peek() {
                None => {
                    return Err(LexicalError::UnterminatedComment);
                },
                Some('/') => {
                    self.advance();
                    if self.peek() == Some('*') {
                        self.advance();
                        nesting += 1;
                    }
                },
                Some('*') => {
                    self.advance();
                    if self.peek() == Some('/') {
                        self.advance();
                        nesting -= 1;
                    }
                },
                Some(_) => {
                    self.advance();
                },
            }
        }
        Ok(())
    }
}

proof fn lemma_decimal_nonneg(d: Seq<char>)
    requires
        forall|k: int| 0 <= k < d.len() ==> is_digit(#[trigger] d[k]),
    ensures
        decimal_value(d) >= 0,
    decreases d.len(),
{
    if d.len() > 0 {
        lemma_decimal_nonneg(d.drop_last());
    }
}

/// A prefix of a run of digits has no greater value than the whole run.
proof fn lemma_decimal_prefix(d: Seq<char>, k: int)
    requires
        0 <= k <= d.len(),
        forall|j: int| 0 <= j < d.len() ==> is_digit(#[trigger] d[j]),
    ensures
        decimal_value(d.subrange(0, k)) <= decimal_value(d),
    decreases d.len(),
{
    if k < d.len() {
        let p = d.drop_last();
        lemma_decimal_prefix(p, k);
        lemma_decimal_nonneg(p);
        assert(p.subrange(0, k) =~= d.subrange(0, k));
    } else {
        assert(d.subrange(0, k) =~= d);
    }
}

impl Scanner {
    /// A token of kind `token_type` with no literal, whose lexeme is the
    /// text from the token's start to the cursor.
    fn simple_token(&self, token_type: TokenType, line: usize, column: usize) -> (r: Token)
        requires
            self.start <= self.current <= self.chars@.len(),
        ensures
            r@ == (TokenView {
                kind: token_type,
                lexeme: self.chars@.subrange(self.start as int, self.current as int),
                line: line as int,
                column: column as int,
                literal: Literal::NoValue,
            }),
    {
        Token::simple(token_type, string_of(&self.chars, self.start, self.current), line, column)
    }

    /// A token whose lexeme is the text from the token's start to the cursor.
    fn make_token(&self, token_type: TokenType, literal: LiteralValue, line: usize, column: usize) -> (r: Token)
        requires
            self.start <= self.current <= self.chars@.len(),
        ensures
            r@ == (TokenView {
                kind: token_type,
                lexeme: self.chars@.subrange(self.start as int, self.current as int),
                line: line as int,
                column: column as int,
                literal: literal@,
            }),
    {
        Token::new(
            token_type,
            string_of(&self.chars, self.start, self.current),
            line,
            column,
            literal,
        )
    }

    /// The error token for `err`: its lexeme is the error's message.
    fn error_token(&self, err: LexicalError, line: usize, column: usize) -> (r: Token)
        ensures
            r@ == (TokenView {
                kind: TokenType::Error,
                lexeme: err@.message(),
                line: line as int,
                column: column as int,
                literal: Literal::NoValue,
            }),
    {
        Token::error(err.message(), line, column)
    }

    /// Reads the run of digits at the cursor.
    fn skip_digits(&mut self)
        requires
            old(self).wf(),
        ensures
            final(self).wf(),
            final(self).same_input(old(self)),
            final(self).start == old(self).start,
            final(self).current == digits_end(old(self).chars@, old(self).current as int),
    {
        let ghost s = self.chars@;
        let ghost target = digits_end(s, self.current as int);
        loop
            invariant
                self.wf(),
                self.chars@ == s,
                self.same_input(old(self)),
                self.start == old(self).start,
                digits_end(s, self.current as int) == target,
            ensures
                self.wf(),
                self.same_input(old(self)),
                self.start == old(self).start,
                self.current == target,
            decreases s.len() - self.current,
        {
            match self.peek() {
                Some(c) if is_ascii_digit(c) => {
                    self.advance();
                },
                _ => break,
            }
        }
    }

    /// Reads the run of identifier characters at the cursor.
    fn skip_word(&mut self)
        requires
            old(self).wf(),
        ensures
            final(self).wf(),
            final(self).same_input(old(self)),
            final(self).start == old(self).start,
            final(self).current == word_end(old(self).chars@, old(self).current as int),
    {
        let ghost s = self.chars@;
        let ghost target = word_end(s, self.current as int);
        loop
            invariant
                self.wf(),
                self.chars@ == s,
                self.same_input(old(self)),
                self.start == old(self).start,
                word_end(s, self.current as int) == target,
            ensures
                self.wf(),
                self.same_input(old(self)),
                self.start == old(self).start,
                self.current == target,
            decreases s.len() - self.current,
        {
            match self.peek() {
                Some(c) if is_identifier_continue(c) => {
                    self.advance();
                },
                _ => break,
            }
        }
    }

    /// The value of the digits `chars[from..to]`, or `None` when it exceeds
    /// the signed 64-bit range.
    fn decimal(&self, from: usize, to: usize) -> (r: Option<i64>)
        requires
            from <= to <= self.chars@.len(),
            forall|k: int| from <= k < to ==> is_digit(#[trigger] self.chars@[k]),
        ensures
            r matches Some(v) ==> v == decimal_value(self.chars@.subrange(from as int, to as int)),
            r is None ==> decimal_value(self.chars@.subrange(from as int, to as int)) > i64::MAX,
    {
        let ghost s = self.chars@;
        let ghost d = s.subrange(from as int, to as int);
        let mut acc: i64 = 0;
        let mut i: usize = from;
        while i < to
            invariant
                s == self.chars@,
                d == s.subrange(from as int, to as int),
                from <= i <= to <= s.len(),
                forall|k: int| from <= k < to ==> is_digit(#[trigger] s[k]),
                acc == decimal_value(s.subrange(from as int, i as int)),
            decreases to - i,
        {
            let c = self.chars[i];
            let digit = (c as u32 - '0' as u32) as i64;
            let ghost p = s.subrange(from as int, i + 1);
            assert(p.drop_last() =~= s.subrange(from as int, i as int));
            proof {
                assert forall|j: int| 0 <= j < d.len() implies is_digit(#[trigger] d[j]) by {
                    assert(is_digit(s[from + j]));
                }
                assert(d.subrange(0, i + 1 - from) =~= p);
                lemma_decimal_prefix(d, i + 1 - from);
                lemma_decimal_nonneg(s.subrange(from as int, i as int));
            }
            match acc.checked_mul(10) {
                None => return None,
                Some(m) => match m.checked_add(digit) {
                    None => return None,
                    Some(n) => {
                        acc = n;
                    },
                },
            }
            i += 1;
        }
        assert(s.subrange(from as int, i as int) =~= d);
        Some(acc)
    }

    /// The keyword that `chars[from..to]` spells, looked up in the table.
    fn keyword(&self, from: usize, to: usize) -> (r: Option<TokenType>)
        requires
            self.wf(),
            from <= to <= self.chars@.len(),
        ensures
            r == keyword_of(self.chars@.subrange(from as int, to as int)),
    {
        let ghost w = self.chars@.subrange(from as int, to as int);
        let mut i: usize = 0;
        while i < self.keywords.len()
            invariant
                self.wf(),
                from <= to <= self.chars@.len(),
                w == self.chars@.subrange(from as int, to as int),
                i <= self.keywords@.len(),
                forall|j: int| 0 <= j < i ==> self.keywords@[j].0@ != w,
            decreases self.keywords@.len() - i,
        {
            if same_chars(&self.keywords[i].0, &self.chars, from, to) {
                return Some(self.keywords[i].1);
            }
            i += 1;
        }
        None
    }
}

impl Scanner {
    /// Recognizes the rest of a string literal whose opening quote has been
    /// read. Its value is the enclosed text as it stands.
    fn string(&mut self, line: usize, column: usize) -> (r: Token)
        requires
            old(self).wf(),
            old(self).current == old(self).start + 1,
            old(self).chars@[old(self).start as int] == '"',
            line == line_at(old(self).chars@, old(self).start as int),
            column == column_at(old(self).chars@, old(self).start as int),
        ensures
            final(self).wf(),
            final(self).same_input(old(self)),
            final(self).start == old(self).start,
            ({
                let (u, end) = string_at(old(self).chars@, old(self).start as int);
                r@ == token_of(old(self).chars@, old(self).start as int, u, end)
                    && final(self).current == end
            }),
    {
        let ghost s = self.chars@;
        let ghost target = string_end(s, self.current as int);
        loop
            invariant
                self.wf(),
                self.chars@ == s,
                self.same_input(old(self)),
                self.start == old(self).start,
                self.current > self.start,
                string_end(s, self.current as int) == target,
                target == string_end(s, old(self).current as int),
            ensures
                self.wf(),
                self.same_input(old(self)),
                self.start == old(self).start,
                self.current > self.start,
                self.current == target,
            decreases s.len() - self.current,
        {
            match self.peek() {
                Some(c) if c != '"' && c != '\n' => {
                    self.advance();
                },
                _ => break,
            }
        }
        if self.peek() == Some('"') {
            let value = string_of(&self.chars, self.start + 1, self.current);
            self.advance();
            return self.make_token(TokenType::StringLiteral, LiteralValue::String(value), line, column);
        }
        self.error_token(LexicalError::UnterminatedString, line, column)
    }

    /// Recognizes the rest of a numeric literal whose first digit has been
    /// read: digits, then optionally a point and at least one digit.
    fn number(&mut self, line: usize, column: usize) -> (r: Token)
        requires
            old(self).wf(),
            old(self).current == old(self).start + 1,
            is_digit(old(self).chars@[old(self).start as int]),
            line == line_at(old(self).chars@, old(self).start as int),
            column == column_at(old(self).chars@, old(self).start as int),
        ensures
            final(self).wf(),
            final(self).same_input(old(self)),
            final(self).start == old(self).start,
            ({
                let (u, end) = number_at(old(self).chars@, old(self).start as int);
                r@ == token_of(old(self).chars@, old(self).start as int, u, end)
                    && final(self).current == end
            }),
    {
        let ghost s = self.chars@;
        let ghost st = self.start as int;
        self.skip_digits();
        let ghost e = self.current as int;
        assert(digits_end(s, st) == e);
        if self.peek() == Some('.') {
            self.advance();
            let digit_follows = match self.peek() {
                Some(c) => is_ascii_digit(c),
                None => false,
            };
            if !digit_follows {
                let text = string_of(&self.chars, self.start, self.current);
                return self.error_token(LexicalError::MalformedNumber(text), line, column);
            }
            self.skip_digits();
            let text = string_of(&self.chars, self.start, self.current);
            return self.make_token(TokenType::FloatLiteral, LiteralValue::Float(text), line, column);
        }
        proof {
            lemma_digit_run(s, st);
            let d = s.subrange(st, e);
            assert forall|k: int| 0 <= k < d.len() implies is_digit(#[trigger] d[k]) by {
                assert(is_digit(s[st + k]));
            }
            lemma_decimal_nonneg(d);
        }
        let text = string_of(&self.chars, self.start, self.current);
        match self.decimal(self.start, self.current) {
            None => self.error_token(LexicalError::IntegerOutOfRange(text), line, column),
            Some(v) => {
                if v < i32::MIN as i64 || v > i32::MAX as i64 {
                    self.error_token(LexicalError::IntegerOutOfRange(text), line, column)
                } else {
                    self.make_token(TokenType::IntLiteral, LiteralValue::Integer(v), line, column)
                }
            },
        }
    }

    /// Recognizes the rest of an identifier or keyword whose first character
    /// has been read. `true` and `false` carry their boolean value.
    fn identifier(&mut self, line: usize, column: usize) -> (r: Token)
        requires
            old(self).wf(),
            old(self).current == old(self).start + 1,
            is_word_start(old(self).chars@[old(self).start as int]),
            line == line_at(old(self).chars@, old(self).start as int),
            column == column_at(old(self).chars@, old(self).start as int),
        ensures
            final(self).wf(),
            final(self).same_input(old(self)),
            final(self).start == old(self).start,
            ({
                let (u, end) = word_at(old(self).chars@, old(self).start as int);
                r@ == token_of(old(self).chars@, old(self).start as int, u, end)
                    && final(self).current == end
            }),
    {
        self.skip_word();
        match self.keyword(self.start, self.current) {
            Some(token_type) => {
                let literal = if token_type == TokenType::True {
                    LiteralValue::Boolean(true)
                } else if token_type == TokenType::False {
                    LiteralValue::Boolean(false)
                } else {
                    LiteralValue::NoValue
                };
                self.make_token(token_type, literal, line, column)
            },
            None => {
                if self.current - self.start > MAX_IDENTIFIER_LEN {
                    let text = string_of(&self.chars, self.start, self.current);
                    self.error_token(LexicalError::MalformedNumber(text), line, column)
                } else {
                    self.make_token(TokenType::Identifier, LiteralValue::NoValue, line, column)
                }
            },
        }
    }
}

impl Scanner {
    /// The next token: blanks and comments are passed over, and once the
    /// text is used up every call returns the end-of-input token.
    pub fn next_token(&mut self) -> (r: Token)
        requires
            old(self).wf(),
        ensures
            final(self).wf(),
            final(self).same_input(old(self)),
            final(self).text() == old(self).text(),
            (r@, final(self).position()) == next_from(old(self).text(), old(self).position()),
    {
        self.skip_whitespace();
        self.start = self.current;
        let line = self.line;
        let column = self.column;
        if self.is_at_end() {
            assert(self.chars@.subrange(self.start as int, self.current as int) =~= Seq::<char>::empty());
            return self.make_token(TokenType::EndOfFile, LiteralValue::NoValue, line, column);
        }
        let c = self.advance().unwrap();
        match c {
            '(' => self.simple_token(TokenType::LParen, line, column),
            ')' => self.simple_token(TokenType::RParen, line, column),
            '{' => self.simple_token(TokenType::LBrace, line, column),
            '}' => self.simple_token(TokenType::RBrace, line, column),
            '[' => self.simple_token(TokenType::LBracket, line, column),
            ']' => self.simple_token(TokenType::RBracket, line, column),
            ';' => self.simple_token(TokenType::Semicolon, line, column),
            ',' => self.simple_token(TokenType::Comma, line, column),
            ':' => self.simple_token(TokenType::Colon, line, column),
            '+' => {
                if self.match_char('=') {
                    self.simple_token(TokenType::PlusEqual, line, column)
                } else {
                    self.simple_token(TokenType::Plus, line, column)
                }
            },
            '-' => {
                if self.match_char('=') {
                    self.simple_token(TokenType::MinusEqual, line, column)
                } else {
                    self.simple_token(TokenType::Minus, line, column)
                }
            },
            '*' => {
                if self.match_char('=') {
                    self.simple_token(TokenType::StarEqual, line, column)
                } else {
                    self.simple_token(TokenType::Star, line, column)
                }
            },
            '/' => {
                if self.match_char('=') {
                    self.simple_token(TokenType::SlashEqual, line, column)
                } else {
                    self.simple_token(TokenType::Slash, line, column)
                }
            },
            '=' => {
                if self.match_char('=') {
                    self.simple_token(TokenType::EqualEqual, line, column)
                } else {
                    self.simple_token(TokenType::Equal, line, column)
                }
            },
            '!' => {
                if self.match_char('=') {
                    self.simple_token(TokenType::NotEqual, line, column)
                } else {
                    self.simple_token(TokenType::Bang, line, column)
                }
            },
            '<' => {
                if self.match_char('=') {
                    self.simple_token(TokenType::LessEqual, line, column)
                } else {
                    self.simple_token(TokenType::Less, line, column)
                }
            },
            '>' => {
                if self.match_char('=') {
                    self.simple_token(TokenType::GreaterEqual, line, column)
                } else {
                    self.simple_token(TokenType::Greater, line, column)
                }
            },
            '&' => {
                if self.match_char('&') {
                    self.simple_token(TokenType::AndAnd, line, column)
                } else {
                    self.error_token(LexicalError::InvalidCharacter('&'), line, column)
                }
            },
            '|' => {
                if self.match_char('|') {
                    self.simple_token(TokenType::OrOr, line, column)
                } else {
                    self.error_token(LexicalError::InvalidCharacter('|'), line, column)
                }
            },
            '"' => self.string(line, column),
            _ => {
                if is_ascii_digit(c) {
                    self.number(line, column)
                } else if is_identifier_start(c) {
                    self.identifier(line, column)
                } else {
                    self.error_token(LexicalError::InvalidCharacter(c), line, column)
                }
            },
        }
    }

    /// The token that `next_token` would return, leaving the scanner as it was.
    pub fn peek_token(&mut self) -> (r: Token)
        requires
            old(self).wf(),
        ensures
            *final(self) == *old(self),
            r@ == next_from(old(self).text(), old(self).position()).0,
    {
        let snapshot = self.save();
        let token = self.next_token();
        self.restore(snapshot);
        token
    }

    fn save(&self) -> (r: ScannerState)
        ensures
            r.start == self.start,
            r.current == self.current,
            r.line == self.line,
            r.column == self.column,
    {
        ScannerState {
            start: self.start,
            current: self.current,
            line: self.line,
            column: self.column,
        }
    }

    fn restore(&mut self, state: ScannerState)
        ensures
            final(self).same_input(old(self)),
            final(self).start == state.start,
            final(self).current == state.current,
            final(self).line == state.line,
            final(self).column == state.column,
    {
        self.start = state.start;
        self.current = state.current;
        self.line = state.line;
        self.column = state.column;
    }
}

/// Every token of `source`, in order, ending with the end-of-input token.
pub fn tokenize(source: &str) -> (r: Vec<Token>)
    requires
        source@.len() < usize::MAX,
    ensures
        r@.map_values(|t: Token| t@) == tokens_from(source@, 0),
{
    let ghost s = source@;
    let mut scanner = Scanner::new(source);
    let mut tokens: Vec<Token> = Vec::new();
    loop
        invariant_except_break
            tokens@.map_values(|t: Token| t@) + tokens_from(s, scanner.current as int)
                == tokens_from(s, 0),
        invariant
            scanner.wf(),
            scanner.chars@ == s,
        ensures
            tokens@.map_values(|t: Token| t@) == tokens_from(s, 0),
        decreases s.len() - scanner.current,
    {
        let ghost p = scanner.current as int;
        let ghost before = tokens@.map_values(|t: Token| t@);
        let t = scanner.next_token();
        proof {
            lemma_next_progress(s, p);
        }
        let done = t.token_type == TokenType::EndOfFile;
        tokens.push(t);
        assert(tokens@.map_values(|t: Token| t@) =~= before.push(t@));
        if done {
            assert(tokens_from(s, p) == seq![t@]);
            assert(before + seq![t@] =~= before.push(t@));
            break;
        }
        assert(tokens_from(s, p) == seq![t@] + tokens_from(s, scanner.current as int));
        assert(before + (seq![t@] + tokens_from(s, scanner.current as int)) =~= before.push(t@)
            + tokens_from(s, scanner.current as int));
    }
    tokens
}

} // verus!
