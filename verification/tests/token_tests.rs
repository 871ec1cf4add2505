//! The token model on its own: keyword resolution, start offsets, and the
//! display text of each kind.

use monkey_lexer::lexer::Lexer;
use monkey_lexer::token::TokenValue::{
    Assign, Bang, Equal, Float, Identifier, Integer, NotEqual,
};
use monkey_lexer::token::{Token, TokenValue};

#[test]
fn each_reserved_word_resolves_to_its_keyword() {
    assert_eq!(TokenValue::identifier_from(b"let"), TokenValue::Let);
    assert_eq!(TokenValue::identifier_from(b"function"), TokenValue::Function);
    assert_eq!(TokenValue::identifier_from(b"true"), TokenValue::True);
    assert_eq!(TokenValue::identifier_from(b"false"), TokenValue::False);
    assert_eq!(TokenValue::identifier_from(b"if"), TokenValue::If);
    assert_eq!(TokenValue::identifier_from(b"else"), TokenValue::Else);
    assert_eq!(TokenValue::identifier_from(b"return"), TokenValue::Return);
    assert_eq!(TokenValue::identifier_from(b"macro"), TokenValue::Macro);
}

#[test]
fn unreserved_words_resolve_to_identifiers_with_full_lexeme() {
    assert_eq!(
        TokenValue::identifier_from(b"lets"),
        TokenValue::Identifier(b"lets"),
    );
    assert_eq!(
        TokenValue::identifier_from(b"Let"),
        TokenValue::Identifier(b"Let"),
    );
    assert_eq!(TokenValue::identifier_from(b"fn"), TokenValue::Identifier(b"fn"));
    assert_eq!(
        TokenValue::identifier_from(b"fnord"),
        TokenValue::Identifier(b"fnord"),
    );
    assert_eq!(
        TokenValue::identifier_from(b"functions"),
        TokenValue::Identifier(b"functions"),
    );
    assert_eq!(
        TokenValue::identifier_from(b"truth"),
        TokenValue::Identifier(b"truth"),
    );
    assert_eq!(TokenValue::identifier_from(b"x"), TokenValue::Identifier(b"x"));
    assert_eq!(
        TokenValue::identifier_from(b"ret"),
        TokenValue::Identifier(b"ret"),
    );
}

#[test]
fn identifier_with_digits_after_first_letter() {
    let input = "x1y2";
    let tokens = Lexer::new(input.as_bytes()).tokens();
    assert_eq!(tokens.len(), 1);
    assert_eq!(tokens[0].value, Identifier(b"x1y2"));
}

#[test]
fn start_offsets_point_at_first_character() {
    let input = "let x = \"ab\";";
    let tokens: Vec<Token> = Lexer::new(input.as_bytes()).tokens();
    let positions: Vec<usize> = tokens.iter().map(|t| t.pos).collect();
    // `let` at 0, `x` at 4, `=` at 6, the string's opening quote at 8,
    // `;` at 12.
    assert_eq!(positions, vec![0, 4, 6, 8, 12]);
    assert_eq!(tokens[3].value, TokenValue::StringLiteral(b"ab" as &[u8]));
}

#[test]
fn start_offsets_strictly_increase() {
    let input = "  1 + two * \"three\" // done\n; ";
    let tokens = Lexer::new(input.as_bytes()).tokens();
    assert!(tokens.len() > 1);
    for pair in tokens.windows(2) {
        assert!(pair[0].pos < pair[1].pos);
    }
}

#[test]
fn two_char_operators_never_decompose() {
    let input = "== != = ! =!";
    let tokens = Lexer::new(input.as_bytes()).tokens();
    let kinds: Vec<TokenValue> = tokens.iter().map(|t| t.value).collect();
    assert_eq!(kinds, vec![Equal, NotEqual, Assign, Bang, Assign, Bang]);
}

#[test]
fn numeric_payload_relexes_to_same_token() {
    for input in ["42", "007", "123.45", "5.", "0.0"] {
        let first = Lexer::new(input.as_bytes()).tokens();
        assert_eq!(first.len(), 1);
        let payload = match first[0].value {
            Integer(text) => text,
            Float(text) => text,
            _ => panic!("expected a numeric token for {input:?}"),
        };
        let again = Lexer::new(payload).tokens();
        assert_eq!(again.len(), 1);
        assert_eq!(again[0].value, first[0].value);
    }
}

#[test]
fn display_text_of_each_kind() {
    assert_eq!(TokenValue::Illegal.display_text(), "Illegal");
    assert_eq!(TokenValue::EndOfInput.display_text(), "EOF");
    assert_eq!(TokenValue::Identifier(b"x" as &[u8]).display_text(), "Ident");
    assert_eq!(TokenValue::Integer(b"1" as &[u8]).display_text(), "Int");
    assert_eq!(TokenValue::Float(b"1.0" as &[u8]).display_text(), "Float");
    assert_eq!(TokenValue::StringLiteral(b"s" as &[u8]).display_text(), "String");
    assert_eq!(TokenValue::Bang.display_text(), "!");
    assert_eq!(TokenValue::Assign.display_text(), "=");
    assert_eq!(TokenValue::Plus.display_text(), "+");
    assert_eq!(TokenValue::Minus.display_text(), "-");
    assert_eq!(TokenValue::Asterisk.display_text(), "*");
    assert_eq!(TokenValue::Slash.display_text(), "/");
    assert_eq!(TokenValue::LessThan.display_text(), "<");
    assert_eq!(TokenValue::GreaterThan.display_text(), ">");
    assert_eq!(TokenValue::Equal.display_text(), "==");
    assert_eq!(TokenValue::NotEqual.display_text(), "!=");
    assert_eq!(TokenValue::Comma.display_text(), ",");
    assert_eq!(TokenValue::Semicolon.display_text(), ";");
    assert_eq!(TokenValue::Colon.display_text(), ":");
    assert_eq!(TokenValue::LParen.display_text(), "(");
    assert_eq!(TokenValue::RParen.display_text(), ")");
    assert_eq!(TokenValue::LBrace.display_text(), "{");
    assert_eq!(TokenValue::RBrace.display_text(), "}");
    assert_eq!(TokenValue::LBracket.display_text(), "[");
    assert_eq!(TokenValue::RBracket.display_text(), "]");
    assert_eq!(TokenValue::Function.display_text(), "Function");
    assert_eq!(TokenValue::Let.display_text(), "Let");
    assert_eq!(TokenValue::True.display_text(), "true");
    assert_eq!(TokenValue::False.display_text(), "false");
    assert_eq!(TokenValue::If.display_text(), "if");
    assert_eq!(TokenValue::Else.display_text(), "else");
    assert_eq!(TokenValue::Return.display_text(), "return");
    assert_eq!(TokenValue::Macro.display_text(), "macro");
}
