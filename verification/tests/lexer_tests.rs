use monkey_lexer::lexer::Lexer;
use monkey_lexer::token::TokenValue;
use monkey_lexer::token::TokenValue::{
    Assign, Asterisk, Bang, Colon, Comma, Else, EndOfInput, Equal, False, Float, GreaterThan,
    Identifier, If, Integer, LBrace, LBracket, LParen, LessThan, Let, Macro, Minus, NotEqual,
    Plus, RBrace, RBracket, RParen, Return, Semicolon, Slash, StringLiteral, True,
};

#[test]
fn test_next_token() {
    let input = r#"
        let five = 5;
        let ten = 10;
        let add = fn(x, y) {
            x + y;
        };

        let result = add(five, ten);
        !-/*0;
        2 < 10 > 7;

        if (5 < 10) {
            return true;
        } else {
            return false;
        }

        10 == 10;
        10 != 9;

        "foobar";
        "foo bar";

        [1, 2];

        {"foo": "bar"};

        // comment
        let a = 1; // inline comment

        let b = 123.45;
        let c = 0.678;
        let d = 9.0;

        macro(x, y) { x + y; };
        "#;

    let expected_tokens: &[TokenValue] = &[
        Let,
        Identifier(b"five"),
        Assign,
        Integer(b"5"),
        Semicolon,
        Let,
        Identifier(b"ten"),
        Assign,
        Integer(b"10"),
        Semicolon,
        Let,
        Identifier(b"add"),
        Assign,
        Identifier(b"fn"),
        LParen,
        Identifier(b"x"),
        Comma,
        Identifier(b"y"),
        RParen,
        LBrace,
        Identifier(b"x"),
        Plus,
        Identifier(b"y"),
        Semicolon,
        RBrace,
        Semicolon,
        Let,
        Identifier(b"result"),
        Assign,
        Identifier(b"add"),
        LParen,
        Identifier(b"five"),
        Comma,
        Identifier(b"ten"),
        RParen,
        Semicolon,
        Bang,
        Minus,
        Slash,
        Asterisk,
        Integer(b"0"),
        Semicolon,
        Integer(b"2"),
        LessThan,
        Integer(b"10"),
        GreaterThan,
        Integer(b"7"),
        Semicolon,
        If,
        LParen,
        Integer(b"5"),
        LessThan,
        Integer(b"10"),
        RParen,
        LBrace,
        Return,
        True,
        Semicolon,
        RBrace,
        Else,
        LBrace,
        Return,
        False,
        Semicolon,
        RBrace,
        Integer(b"10"),
        Equal,
        Integer(b"10"),
        Semicolon,
        Integer(b"10"),
        NotEqual,
        Integer(b"9"),
        Semicolon,
        StringLiteral(b"foobar"),
        Semicolon,
        StringLiteral(b"foo bar"),
        Semicolon,
        LBracket,
        Integer(b"1"),
        Comma,
        Integer(b"2"),
        RBracket,
        Semicolon,
        LBrace,
        StringLiteral(b"foo"),
        Colon,
        StringLiteral(b"bar"),
        RBrace,
        Semicolon,
        Let,
        Identifier(b"a"),
        Assign,
        Integer(b"1"),
        Semicolon,
        Let,
        Identifier(b"b"),
        Assign,
        Float(b"123.45"),
        Semicolon,
        Let,
        Identifier(b"c"),
        Assign,
        Float(b"0.678"),
        Semicolon,
        Let,
        Identifier(b"d"),
        Assign,
        Float(b"9.0"),
        Semicolon,
        Macro,
        LParen,
        Identifier(b"x"),
        Comma,
        Identifier(b"y"),
        RParen,
        LBrace,
        Identifier(b"x"),
        Plus,
        Identifier(b"y"),
        Semicolon,
        RBrace,
        Semicolon,
        EndOfInput,
    ];

    let mut lexer = Lexer::new(input.as_bytes());
    for expected_token in expected_tokens {
        let token = lexer.next_token();
        println!("{token:?}");
        assert_eq!(&token.value, expected_token);
    }
}
