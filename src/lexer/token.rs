use vstd::prelude::*;

verus! {

/// Every category of token that the scanner produces.
#[derive(Debug, Clone, Copy, PartialEq, Eq, Hash, Structural)]
pub enum TokenType {
    // Keywords
    If,
    Else,
    While,
    For,
    Int,
    Float,
    Bool,
    Return,
    True,
    False,
    Void,
    Struct,
    Fn,
    // Literals
    Identifier,
    IntLiteral,
    FloatLiteral,
    StringLiteral,
    BoolLiteral,
    // Operators
    Plus,
    Minus,
    Star,
    Slash,
    Percent,
    Equal,
    EqualEqual,
    NotEqual,
    Less,
    LessEqual,
    Greater,
    GreaterEqual,
    AndAnd,
    OrOr,
    Bang,
    PlusEqual,
    MinusEqual,
    StarEqual,
    SlashEqual,
    // Delimiters
    LParen,
    RParen,
    LBrace,
    RBrace,
    LBracket,
    RBracket,
    Semicolon,
    Comma,
    Colon,
    // Special
    EndOfFile,
    Error,
}

/// The value that a literal token carries. A float literal keeps its decimal
/// text (digits, a point, digits), from which a caller reads the number.
#[derive(Debug, Clone, PartialEq)]
pub enum LiteralValue {
    Integer(i64),
    Float(String),
    String(String),
    Boolean(bool),
    NoValue,
}

/// The mathematical value of a `LiteralValue`.
pub enum Literal {
    Integer(int),
    Float(Seq<char>),
    Text(Seq<char>),
    Boolean(bool),
    NoValue,
}

impl View for LiteralValue {
    type V = Literal;

    open spec fn view(&self) -> Literal {
        match self {
            LiteralValue::Integer(i) => Literal::Integer(*i as int),
            LiteralValue::Float(s) => Literal::Float(s@),
            LiteralValue::String(s) => Literal::Text(s@),
            LiteralValue::Boolean(b) => Literal::Boolean(*b),
            LiteralValue::NoValue => Literal::NoValue,
        }
    }
}

/// One unit of scanner output.
#[derive(Debug, Clone, PartialEq)]
pub struct Token {
    pub token_type: TokenType,
    /// The source text of the token, or the message of a lexical error.
    pub lexeme: String,
    /// 1-based line of the token's first character.
    pub line: usize,
    /// 1-based column of the token's first character.
    pub column: usize,
    pub literal: LiteralValue,
}

/// The mathematical value of a `Token`.
pub struct TokenView {
    pub kind: TokenType,
    pub lexeme: Seq<char>,
    pub line: int,
    pub column: int,
    pub literal: Literal,
}

impl View for Token {
    type V = TokenView;

    open spec fn view(&self) -> TokenView {
        TokenView {
            kind: self.token_type,
            lexeme: self.lexeme@,
            line: self.line as int,
            column: self.column as int,
            literal: self.literal@,
        }
    }
}

impl Token {
    pub fn new(
        token_type: TokenType,
        lexeme: String,
        line: usize,
        column: usize,
        literal: LiteralValue,
    ) -> (r: Token)
        ensures
            r.token_type == token_type,
            r.lexeme@ == lexeme@,
            r.line == line,
            r.column == column,
            r.literal@ == literal@,
    {
        Token { token_type, lexeme, line, column, literal }
    }

    /// A token that carries no literal value.
    pub fn simple(token_type: TokenType, lexeme: String, line: usize, column: usize) -> (r: Token)
        ensures
            r@ == (TokenView {
                kind: token_type,
                lexeme: lexeme@,
                line: line as int,
                column: column as int,
                literal: Literal::NoValue,
            }),
    {
        Self::new(token_type, lexeme, line, column, LiteralValue::NoValue)
    }

    /// An error token: its lexeme is the error message.
    pub fn error(lexeme: String, line: usize, column: usize) -> (r: Token)
        ensures
            r@ == (TokenView {
                kind: TokenType::Error,
                lexeme: lexeme@,
                line: line as int,
                column: column as int,
                literal: Literal::NoValue,
            }),
    {
        Self::new(TokenType::Error, lexeme, line, column, LiteralValue::NoValue)
    }
}

} // verus!
