use compiler::lexer::error::LexicalError;
use compiler::lexer::scanner::{is_identifier_continue, is_identifier_start, tokenize};
use compiler::lexer::{LiteralValue, Scanner, Token, TokenType};

fn all_tokens(source: &str) -> Vec<Token> {
    let mut scanner = Scanner::new(source);
    let mut tokens = Vec::new();
    loop {
        let t = scanner.next_token();
        let done = t.token_type == TokenType::EndOfFile;
        tokens.push(t);
        if done {
            break;
        }
    }
    tokens
}

fn kinds(source: &str) -> Vec<TokenType> {
    all_tokens(source).iter().map(|t| t.token_type).collect()
}

#[test]
fn blanks_and_comments_give_only_end_of_input() {
    for src in ["", "   \t\r\n", "// note", "/* a */ // b\n  /* c /* d */ e */", "/* open"] {
        let tokens = all_tokens(src);
        assert_eq!(tokens.len(), 1, "input {:?}", src);
        assert_eq!(tokens[0].token_type, TokenType::EndOfFile);
        assert_eq!(tokens[0].lexeme, "");
    }
}

#[test]
fn end_of_input_repeats() {
    let mut scanner = Scanner::new("x");
    assert_eq!(scanner.next_token().token_type, TokenType::Identifier);
    assert_eq!(scanner.next_token().token_type, TokenType::EndOfFile);
    assert_eq!(scanner.next_token().token_type, TokenType::EndOfFile);
    assert!(scanner.is_at_end());
}

#[test]
fn integer_values_and_bounds() {
    let tokens = all_tokens("0 42 2147483647 007");
    assert_eq!(tokens[0].literal, LiteralValue::Integer(0));
    assert_eq!(tokens[1].literal, LiteralValue::Integer(42));
    assert_eq!(tokens[2].token_type, TokenType::IntLiteral);
    assert_eq!(tokens[2].literal, LiteralValue::Integer(2147483647));
    assert_eq!(tokens[3].literal, LiteralValue::Integer(7));
    assert_eq!(tokens[3].lexeme, "007");
}

#[test]
fn integer_out_of_range_message() {
    let tokens = all_tokens("2147483648");
    assert_eq!(tokens[0].token_type, TokenType::Error);
    assert_eq!(tokens[0].lexeme, "integer literal out of range: 2147483648");
    assert_eq!(tokens[0].literal, LiteralValue::NoValue);
}

#[test]
fn integer_beyond_64_bits_is_out_of_range() {
    let tokens = all_tokens("9223372036854775808");
    assert_eq!(tokens[0].token_type, TokenType::Error);
    assert_eq!(tokens[0].lexeme, "integer literal out of range: 9223372036854775808");
    let tokens = all_tokens("9223372036854775807");
    assert_eq!(tokens[0].lexeme, "integer literal out of range: 9223372036854775807");
    let tokens = all_tokens("123456789012345678901234567890");
    assert_eq!(tokens[0].lexeme, "integer literal out of range: 123456789012345678901234567890");
    assert_eq!(tokens[1].token_type, TokenType::EndOfFile);
}

#[test]
fn leading_minus_is_an_operator() {
    let tokens = all_tokens("-5");
    assert_eq!(tokens[0].token_type, TokenType::Minus);
    assert_eq!(tokens[1].literal, LiteralValue::Integer(5));
}

#[test]
fn float_literal_keeps_its_text() {
    let tokens = all_tokens("3.14 0.0");
    assert_eq!(tokens[0].token_type, TokenType::FloatLiteral);
    assert_eq!(tokens[0].literal, LiteralValue::Float("3.14".to_string()));
    assert_eq!(tokens[1].literal, LiteralValue::Float("0.0".to_string()));
}

#[test]
fn trailing_point_is_malformed() {
    let tokens = all_tokens("10.");
    assert_eq!(tokens[0].token_type, TokenType::Error);
    assert_eq!(tokens[0].lexeme, "malformed number: '10.'");
    assert_eq!(tokens[1].token_type, TokenType::EndOfFile);
}

#[test]
fn leading_point_is_invalid() {
    assert_eq!(
        kinds(".5"),
        vec![TokenType::Error, TokenType::IntLiteral, TokenType::EndOfFile]
    );
}

#[test]
fn peek_does_not_advance() {
    let mut scanner = Scanner::new("  foo = 1");
    let a = scanner.peek_token();
    let b = scanner.peek_token();
    assert_eq!(a, b);
    assert_eq!(scanner.get_line(), 1);
    assert_eq!(scanner.get_column(), 1);
    let c = scanner.next_token();
    assert_eq!(a, c);
    assert_eq!(c.lexeme, "foo");
    assert_eq!(scanner.get_column(), 6);
    assert_eq!(scanner.peek_token().token_type, TokenType::Equal);
    assert_eq!(scanner.next_token().token_type, TokenType::Equal);
}

#[test]
fn nested_block_comment_is_transparent() {
    let tokens = all_tokens("/* a /* b */ c */x");
    assert_eq!(tokens.len(), 2);
    assert_eq!(tokens[0].token_type, TokenType::Identifier);
    assert_eq!(tokens[0].lexeme, "x");
    assert_eq!(tokens[0].column, 18);
}

#[test]
fn keywords_win_over_identifiers() {
    assert_eq!(
        kinds("if iff If fn fn_ return_ struct"),
        vec![
            TokenType::If,
            TokenType::Identifier,
            TokenType::Identifier,
            TokenType::Fn,
            TokenType::Identifier,
            TokenType::Identifier,
            TokenType::Struct,
            TokenType::EndOfFile,
        ]
    );
}

#[test]
fn booleans_carry_values() {
    let tokens = all_tokens("true false");
    assert_eq!(tokens[0].literal, LiteralValue::Boolean(true));
    assert_eq!(tokens[1].literal, LiteralValue::Boolean(false));
}

#[test]
fn identifier_at_the_length_limit() {
    let ok = "b".repeat(255);
    let tokens = all_tokens(&ok);
    assert_eq!(tokens[0].token_type, TokenType::Identifier);
    assert_eq!(tokens[0].lexeme, ok);
    let long = "b".repeat(256);
    let tokens = all_tokens(&long);
    assert_eq!(tokens[0].token_type, TokenType::Error);
    assert_eq!(tokens[0].lexeme, format!("malformed number: '{}'", long));
}

#[test]
fn positions_across_lines() {
    let tokens = all_tokens("if x\n123");
    assert_eq!((tokens[0].line, tokens[0].column), (1, 1));
    assert_eq!((tokens[1].line, tokens[1].column), (1, 4));
    assert_eq!((tokens[2].line, tokens[2].column), (2, 1));
    assert_eq!(tokens[2].lexeme, "123");
}

#[test]
fn string_keeps_comment_markers() {
    let tokens = all_tokens("\"/* not a comment */\"");
    assert_eq!(tokens.len(), 2);
    assert_eq!(tokens[0].token_type, TokenType::StringLiteral);
    assert_eq!(tokens[0].literal, LiteralValue::String("/* not a comment */".to_string()));
    assert_eq!(tokens[0].lexeme, "\"/* not a comment */\"");
}

#[test]
fn string_keeps_backslashes() {
    let tokens = all_tokens("\"a\\nb\"");
    assert_eq!(tokens[0].literal, LiteralValue::String("a\\nb".to_string()));
}

#[test]
fn string_stops_at_newline() {
    let tokens = all_tokens("\"abc\ndef");
    assert_eq!(tokens[0].token_type, TokenType::Error);
    assert_eq!(tokens[0].lexeme, "unterminated string literal");
    assert_eq!(tokens[1].token_type, TokenType::Identifier);
    assert_eq!((tokens[1].line, tokens[1].column), (2, 1));
}

#[test]
fn doubled_operators() {
    let tokens = all_tokens("&");
    assert_eq!(tokens[0].token_type, TokenType::Error);
    assert_eq!(tokens[0].lexeme, "invalid character: '&'");
    assert_eq!(kinds("&&"), vec![TokenType::AndAnd, TokenType::EndOfFile]);
    let tokens = all_tokens("|");
    assert_eq!(tokens[0].lexeme, "invalid character: '|'");
    assert_eq!(kinds("||"), vec![TokenType::OrOr, TokenType::EndOfFile]);
}

#[test]
fn compound_operators() {
    assert_eq!(
        kinds("+= -= *= /= == != <= >= + - * / = ! < >"),
        vec![
            TokenType::PlusEqual,
            TokenType::MinusEqual,
            TokenType::StarEqual,
            TokenType::SlashEqual,
            TokenType::EqualEqual,
            TokenType::NotEqual,
            TokenType::LessEqual,
            TokenType::GreaterEqual,
            TokenType::Plus,
            TokenType::Minus,
            TokenType::Star,
            TokenType::Slash,
            TokenType::Equal,
            TokenType::Bang,
            TokenType::Less,
            TokenType::Greater,
            TokenType::EndOfFile,
        ]
    );
}

#[test]
fn invalid_character_messages() {
    let tokens = all_tokens("@ é");
    assert_eq!(tokens[0].lexeme, "invalid character: '@'");
    assert_eq!(tokens[1].lexeme, "invalid character: 'é'");
    assert_eq!(tokens[1].column, 3);
}

#[test]
fn error_messages() {
    assert_eq!(LexicalError::UnterminatedComment.message(), "unterminated block comment");
    assert_eq!(LexicalError::UnterminatedString.message(), "unterminated string literal");
    assert_eq!(LexicalError::InvalidCharacter('$').message(), "invalid character: '$'");
    assert_eq!(
        LexicalError::MalformedNumber("1.".to_string()).message(),
        "malformed number: '1.'"
    );
    assert_eq!(
        LexicalError::IntegerOutOfRange("9999999999".to_string()).message(),
        "integer literal out of range: 9999999999"
    );
}

#[test]
fn identifier_character_classes() {
    assert!(is_identifier_start('a'));
    assert!(is_identifier_start('Z'));
    assert!(is_identifier_start('_'));
    assert!(!is_identifier_start('1'));
    assert!(!is_identifier_start('é'));
    assert!(is_identifier_continue('1'));
    assert!(!is_identifier_continue('-'));
}

#[test]
fn token_constructors() {
    let t = Token::simple(TokenType::Plus, "+".to_string(), 3, 7);
    assert_eq!(t.literal, LiteralValue::NoValue);
    assert_eq!((t.line, t.column), (3, 7));
    let e = Token::error("oops".to_string(), 1, 2);
    assert_eq!(e.token_type, TokenType::Error);
    assert_eq!(e.lexeme, "oops");
    let n = Token::new(TokenType::IntLiteral, "5".to_string(), 1, 1, LiteralValue::Integer(5));
    assert_eq!(n.literal, LiteralValue::Integer(5));
}

#[test]
fn tokenize_lists_every_token() {
    let tokens = tokenize("x = 1; // done\n");
    let kinds: Vec<TokenType> = tokens.iter().map(|t| t.token_type).collect();
    assert_eq!(
        kinds,
        vec![
            TokenType::Identifier,
            TokenType::Equal,
            TokenType::IntLiteral,
            TokenType::Semicolon,
            TokenType::EndOfFile,
        ]
    );
    assert_eq!(tokens, all_tokens("x = 1; // done\n"));
    assert_eq!(tokenize("").len(), 1);
}
