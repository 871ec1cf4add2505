//! End-to-end scans of small inputs: each test feeds one buffer and checks
//! the full token sequence, including start offsets where they matter.

use monkey_lexer::lexer::Lexer;
use monkey_lexer::token::TokenValue;
use monkey_lexer::token::TokenValue::{
    Assign, Comma, EndOfInput, Equal, Float, Function, Identifier, Illegal, Integer, LBrace,
    LParen, Let, NotEqual, Plus, RBrace, RParen, Semicolon, Slash, StringLiteral,
};

fn kinds_of(input: &str) -> Vec<TokenValue<'_>> {
    let mut lexer = Lexer::new(input.as_bytes());
    let mut out = Vec::new();
    loop {
        let token = lexer.next_token();
        let done = token.value == TokenValue::EndOfInput;
        out.push(token.value);
        if done {
            return out;
        }
    }
}

#[test]
fn punctuation_run() {
    assert_eq!(
        kinds_of("=+(){},;"),
        vec![Assign, Plus, LParen, RParen, LBrace, RBrace, Comma, Semicolon, EndOfInput],
    );
}

#[test]
fn comparison_operators() {
    assert_eq!(
        kinds_of("10 == 10; 10 != 9;"),
        vec![
            Integer(b"10"),
            Equal,
            Integer(b"10"),
            Semicolon,
            Integer(b"10"),
            NotEqual,
            Integer(b"9"),
            Semicolon,
            EndOfInput,
        ],
    );
}

#[test]
fn let_with_float() {
    assert_eq!(
        kinds_of("let b = 123.45;"),
        vec![Let, Identifier(b"b"), Assign, Float(b"123.45"), Semicolon, EndOfInput],
    );
}

#[test]
fn string_literal_excludes_quotes() {
    assert_eq!(
        kinds_of("\"foo bar\";"),
        vec![StringLiteral(b"foo bar"), Semicolon, EndOfInput],
    );
}

#[test]
fn comment_produces_no_tokens() {
    assert_eq!(
        kinds_of("// comment\nlet a = 1;"),
        vec![Let, Identifier(b"a"), Assign, Integer(b"1"), Semicolon, EndOfInput],
    );
}

#[test]
fn function_keyword_in_context() {
    assert_eq!(
        kinds_of("let f = function(x) { x };"),
        vec![
            Let,
            Identifier(b"f"),
            Assign,
            Function,
            LParen,
            Identifier(b"x"),
            RParen,
            LBrace,
            Identifier(b"x"),
            RBrace,
            Semicolon,
            EndOfInput,
        ],
    );
}

#[test]
fn lone_illegal_character() {
    assert_eq!(kinds_of("@"), vec![Illegal, EndOfInput]);
}

#[test]
fn illegal_does_not_halt_scanning() {
    assert_eq!(
        kinds_of("@#x"),
        vec![Illegal, Illegal, Identifier(b"x"), EndOfInput],
    );
}

#[test]
fn embedded_nul_byte_is_illegal_not_end_of_input() {
    assert_eq!(kinds_of("\0x"), vec![Illegal, Identifier(b"x"), EndOfInput]);
}

#[test]
fn empty_input_is_end_of_input_at_once() {
    assert_eq!(kinds_of(""), vec![EndOfInput]);
}

#[test]
fn unterminated_string_runs_to_end_of_input() {
    assert_eq!(kinds_of("\"abc"), vec![StringLiteral(b"abc"), EndOfInput]);
}

#[test]
fn empty_string_literal() {
    assert_eq!(kinds_of("\"\";"), vec![StringLiteral(b""), Semicolon, EndOfInput]);
}

#[test]
fn trailing_dot_float() {
    assert_eq!(kinds_of("5."), vec![Float(b"5."), EndOfInput]);
}

#[test]
fn float_stops_at_second_dot() {
    assert_eq!(
        kinds_of("1.2.3"),
        vec![Float(b"1.2"), Illegal, Integer(b"3"), EndOfInput],
    );
}

#[test]
fn comment_unterminated_by_newline_reaches_end_of_input() {
    assert_eq!(kinds_of("let // trailing comment"), vec![Let, EndOfInput]);
}

#[test]
fn comments_and_whitespace_alternate() {
    assert_eq!(
        kinds_of("  // one\n\t// two\n  x"),
        vec![Identifier(b"x"), EndOfInput],
    );
}

#[test]
fn slash_alone_is_an_operator() {
    assert_eq!(kinds_of("a / b"), vec![Identifier(b"a"), Slash, Identifier(b"b"), EndOfInput]);
}

#[test]
fn repeated_calls_after_end_keep_returning_end_of_input() {
    let input = "x";
    let mut lexer = Lexer::new(input.as_bytes());
    assert_eq!(lexer.next_token().value, TokenValue::Identifier(b"x" as &[u8]));
    for _ in 0..4 {
        let token = lexer.next_token();
        assert_eq!(token.value, TokenValue::EndOfInput);
        assert_eq!(token.pos, 1);
    }
}

#[test]
fn bulk_scan_excludes_end_of_input() {
    let input = "let a = 1;";
    let tokens = Lexer::new(input.as_bytes()).tokens();
    let kinds: Vec<TokenValue> = tokens.iter().map(|t| t.value).collect();
    assert_eq!(kinds, vec![Let, Identifier(b"a"), Assign, Integer(b"1"), Semicolon]);
}

#[test]
fn bulk_scan_of_trivia_is_empty() {
    let input = " \t\n // only a comment\n   ";
    let tokens = Lexer::new(input.as_bytes()).tokens();
    assert!(tokens.is_empty());
}
