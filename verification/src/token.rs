//! The token model: the closed set of lexical categories, the token record,
//! and the keyword / identifier disambiguation.
//!
//! A token's payload (for identifiers and literals) is a borrowed slice of
//! the original source buffer, never an owned copy.  The mathematical form
//! of a token value ([`SpecTokenValue`]) carries the payload as a `Seq<u8>`,
//! and every executable token value maps onto it through its view.

use vstd::prelude::*;

verus! {

/// The classification of a token, in mathematical form.  A payload is the
/// sequence of source bytes the token delimits.
pub enum SpecTokenValue {
    Illegal,
    EndOfInput,
    Identifier(Seq<u8>),
    Integer(Seq<u8>),
    Float(Seq<u8>),
    StringLiteral(Seq<u8>),
    Bang,
    Assign,
    Plus,
    Minus,
    Asterisk,
    Slash,
    LessThan,
    GreaterThan,
    Equal,
    NotEqual,
    Comma,
    Semicolon,
    Colon,
    LParen,
    RParen,
    LBrace,
    RBrace,
    LBracket,
    RBracket,
    Function,
    Let,
    True,
    False,
    If,
    Else,
    Return,
    Macro,
}

/// The classification of a token, as produced by the scanner.  Payload
/// variants borrow a view into the original source buffer.
#[derive(Debug, PartialEq, Eq, Clone, Copy)]
pub enum TokenValue<'a> {
    Illegal,
    EndOfInput,
    Identifier(&'a [u8]),
    Integer(&'a [u8]),
    Float(&'a [u8]),
    StringLiteral(&'a [u8]),
    Bang,
    Assign,
    Plus,
    Minus,
    Asterisk,
    Slash,
    LessThan,
    GreaterThan,
    Equal,
    NotEqual,
    Comma,
    Semicolon,
    Colon,
    LParen,
    RParen,
    LBrace,
    RBrace,
    LBracket,
    RBracket,
    Function,
    Let,
    True,
    False,
    If,
    Else,
    Return,
    Macro,
}

impl<'a> View for TokenValue<'a> {
    type V = SpecTokenValue;

    open spec fn view(&self) -> SpecTokenValue {
        match self {
            TokenValue::Illegal => SpecTokenValue::Illegal,
            TokenValue::EndOfInput => SpecTokenValue::EndOfInput,
            TokenValue::Identifier(s) => SpecTokenValue::Identifier(s@),
            TokenValue::Integer(s) => SpecTokenValue::Integer(s@),
            TokenValue::Float(s) => SpecTokenValue::Float(s@),
            TokenValue::StringLiteral(s) => SpecTokenValue::StringLiteral(s@),
            TokenValue::Bang => SpecTokenValue::Bang,
            TokenValue::Assign => SpecTokenValue::Assign,
            TokenValue::Plus => SpecTokenValue::Plus,
            TokenValue::Minus => SpecTokenValue::Minus,
            TokenValue::Asterisk => SpecTokenValue::Asterisk,
            TokenValue::Slash => SpecTokenValue::Slash,
            TokenValue::LessThan => SpecTokenValue::LessThan,
            TokenValue::GreaterThan => SpecTokenValue::GreaterThan,
            TokenValue::Equal => SpecTokenValue::Equal,
            TokenValue::NotEqual => SpecTokenValue::NotEqual,
            TokenValue::Comma => SpecTokenValue::Comma,
            TokenValue::Semicolon => SpecTokenValue::Semicolon,
            TokenValue::Colon => SpecTokenValue::Colon,
            TokenValue::LParen => SpecTokenValue::LParen,
            TokenValue::RParen => SpecTokenValue::RParen,
            TokenValue::LBrace => SpecTokenValue::LBrace,
            TokenValue::RBrace => SpecTokenValue::RBrace,
            TokenValue::LBracket => SpecTokenValue::LBracket,
            TokenValue::RBracket => SpecTokenValue::RBracket,
            TokenValue::Function => SpecTokenValue::Function,
            TokenValue::Let => SpecTokenValue::Let,
            TokenValue::True => SpecTokenValue::True,
            TokenValue::False => SpecTokenValue::False,
            TokenValue::If => SpecTokenValue::If,
            TokenValue::Else => SpecTokenValue::Else,
            TokenValue::Return => SpecTokenValue::Return,
            TokenValue::Macro => SpecTokenValue::Macro,
        }
    }
}

/// A classified lexical unit together with the byte offset in the source
/// buffer at which its first character occurs.
#[derive(Debug, PartialEq, Eq, Clone, Copy)]
pub struct Token<'a> {
    pub value: TokenValue<'a>,
    pub pos: usize,
}

/// Mathematical form of a token: classification plus start offset.
pub struct SpecToken {
    pub value: SpecTokenValue,
    pub pos: int,
}

impl<'a> View for Token<'a> {
    type V = SpecToken;

    open spec fn view(&self) -> SpecToken {
        SpecToken { value: self.value@, pos: self.pos as int }
    }
}

/// The bytes of the reserved word `let`.
pub open spec fn kw_let() -> Seq<u8> {
    seq![108u8, 101u8, 116u8]
}

/// The bytes of the reserved word `function`.
pub open spec fn kw_function() -> Seq<u8> {
    seq![102u8, 117u8, 110u8, 99u8, 116u8, 105u8, 111u8, 110u8]
}

/// The bytes of the reserved word `true`.
pub open spec fn kw_true() -> Seq<u8> {
    seq![116u8, 114u8, 117u8, 101u8]
}

/// The bytes of the reserved word `false`.
pub open spec fn kw_false() -> Seq<u8> {
    seq![102u8, 97u8, 108u8, 115u8, 101u8]
}

/// The bytes of the reserved word `if`.
pub open spec fn kw_if() -> Seq<u8> {
    seq![105u8, 102u8]
}

/// The bytes of the reserved word `else`.
pub open spec fn kw_else() -> Seq<u8> {
    seq![101u8, 108u8, 115u8, 101u8]
}

/// The bytes of the reserved word `return`.
pub open spec fn kw_return() -> Seq<u8> {
    seq![114u8, 101u8, 116u8, 117u8, 114u8, 110u8]
}

/// The bytes of the reserved word `macro`.
pub open spec fn kw_macro() -> Seq<u8> {
    seq![109u8, 97u8, 99u8, 114u8, 111u8]
}

/// The word resolves to a reserved-keyword variant rather than to a
/// generic identifier.
pub open spec fn is_reserved(word: Seq<u8>) -> bool {
    ||| word == kw_let()
    ||| word == kw_function()
    ||| word == kw_true()
    ||| word == kw_false()
    ||| word == kw_if()
    ||| word == kw_else()
    ||| word == kw_return()
    ||| word == kw_macro()
}

/// The total, deterministic mapping from an identifier-shaped word to
/// either a reserved keyword or a generic identifier carrying the word.
pub open spec fn spec_classify_word(word: Seq<u8>) -> SpecTokenValue {
    if word == kw_let() {
        SpecTokenValue::Let
    } else if word == kw_function() {
        SpecTokenValue::Function
    } else if word == kw_true() {
        SpecTokenValue::True
    } else if word == kw_false() {
        SpecTokenValue::False
    } else if word == kw_if() {
        SpecTokenValue::If
    } else if word == kw_else() {
        SpecTokenValue::Else
    } else if word == kw_return() {
        SpecTokenValue::Return
    } else if word == kw_macro() {
        SpecTokenValue::Macro
    } else {
        SpecTokenValue::Identifier(word)
    }
}

impl<'a> TokenValue<'a> {
    /// Resolve an identifier-shaped lexeme: an exact match against one of
    /// the eight reserved words yields the keyword variant; any other word
    /// yields `Identifier` carrying the word itself.
    pub fn identifier_from(ident: &'a [u8]) -> (r: Self)
        ensures
            r@ == spec_classify_word(ident@),
    {
        let w_let: [u8; 3] = [108, 101, 116];
        let w_function: [u8; 8] = [102, 117, 110, 99, 116, 105, 111, 110];
        let w_true: [u8; 4] = [116, 114, 117, 101];
        let w_false: [u8; 5] = [102, 97, 108, 115, 101];
        let w_if: [u8; 2] = [105, 102];
        let w_else: [u8; 4] = [101, 108, 115, 101];
        let w_return: [u8; 6] = [114, 101, 116, 117, 114, 110];
        let w_macro: [u8; 5] = [109, 97, 99, 114, 111];
        assert(w_let@ =~= kw_let());
        assert(w_function@ =~= kw_function());
        assert(w_true@ =~= kw_true());
        assert(w_false@ =~= kw_false());
        assert(w_if@ =~= kw_if());
        assert(w_else@ =~= kw_else());
        assert(w_return@ =~= kw_return());
        assert(w_macro@ =~= kw_macro());
        if bytes_eq(ident, w_let.as_slice()) {
            TokenValue::Let
        } else if bytes_eq(ident, w_function.as_slice()) {
            TokenValue::Function
        } else if bytes_eq(ident, w_true.as_slice()) {
            TokenValue::True
        } else if bytes_eq(ident, w_false.as_slice()) {
            TokenValue::False
        } else if bytes_eq(ident, w_if.as_slice()) {
            TokenValue::If
        } else if bytes_eq(ident, w_else.as_slice()) {
            TokenValue::Else
        } else if bytes_eq(ident, w_return.as_slice()) {
            TokenValue::Return
        } else if bytes_eq(ident, w_macro.as_slice()) {
            TokenValue::Macro
        } else {
            TokenValue::Identifier(ident)
        }
    }
}

/// The short display text of a token value: operators and punctuation
/// print as their own surface syntax, payload-carrying kinds print a
/// category name, and keywords print their word.
pub open spec fn spec_display_text(v: SpecTokenValue) -> Seq<char> {
    match v {
        SpecTokenValue::Illegal => "Illegal"@,
        SpecTokenValue::EndOfInput => "EOF"@,
        SpecTokenValue::Identifier(_) => "Ident"@,
        SpecTokenValue::Integer(_) => "Int"@,
        SpecTokenValue::Float(_) => "Float"@,
        SpecTokenValue::StringLiteral(_) => "String"@,
        SpecTokenValue::Bang => "!"@,
        SpecTokenValue::Assign => "="@,
        SpecTokenValue::Plus => "+"@,
        SpecTokenValue::Minus => "-"@,
        SpecTokenValue::Asterisk => "*"@,
        SpecTokenValue::Slash => "/"@,
        SpecTokenValue::LessThan => "<"@,
        SpecTokenValue::GreaterThan => ">"@,
        SpecTokenValue::Equal => "=="@,
        SpecTokenValue::NotEqual => "!="@,
        SpecTokenValue::Comma => ","@,
        SpecTokenValue::Semicolon => ";"@,
        SpecTokenValue::Colon => ":"@,
        SpecTokenValue::LParen => "("@,
        SpecTokenValue::RParen => ")"@,
        SpecTokenValue::LBrace => "{"@,
        SpecTokenValue::RBrace => "}"@,
        SpecTokenValue::LBracket => "["@,
        SpecTokenValue::RBracket => "]"@,
        SpecTokenValue::Function => "Function"@,
        SpecTokenValue::Let => "Let"@,
        SpecTokenValue::True => "true"@,
        SpecTokenValue::False => "false"@,
        SpecTokenValue::If => "if"@,
        SpecTokenValue::Else => "else"@,
        SpecTokenValue::Return => "return"@,
        SpecTokenValue::Macro => "macro"@,
    }
}

impl<'a> TokenValue<'a> {
    /// The short display text of this token value.
    pub fn display_text(&self) -> (r: &'static str)
        ensures
            r@ == spec_display_text(self@),
    {
        match self {
            TokenValue::Illegal => "Illegal",
            TokenValue::EndOfInput => "EOF",
            TokenValue::Identifier(_) => "Ident",
            TokenValue::Integer(_) => "Int",
            TokenValue::Float(_) => "Float",
            TokenValue::StringLiteral(_) => "String",
            TokenValue::Bang => "!",
            TokenValue::Assign => "=",
            TokenValue::Plus => "+",
            TokenValue::Minus => "-",
            TokenValue::Asterisk => "*",
            TokenValue::Slash => "/",
            TokenValue::LessThan => "<",
            TokenValue::GreaterThan => ">",
            TokenValue::Equal => "==",
            TokenValue::NotEqual => "!=",
            TokenValue::Comma => ",",
            TokenValue::Semicolon => ";",
            TokenValue::Colon => ":",
            TokenValue::LParen => "(",
            TokenValue::RParen => ")",
            TokenValue::LBrace => "{",
            TokenValue::RBrace => "}",
            TokenValue::LBracket => "[",
            TokenValue::RBracket => "]",
            TokenValue::Function => "Function",
            TokenValue::Let => "Let",
            TokenValue::True => "true",
            TokenValue::False => "false",
            TokenValue::If => "if",
            TokenValue::Else => "else",
            TokenValue::Return => "return",
            TokenValue::Macro => "macro",
        }
    }
}

/// Byte-for-byte equality of two slices.
fn bytes_eq(a: &[u8], b: &[u8]) -> (r: bool)
    ensures
        r <==> a@ == b@,
{
    if a.len() != b.len() {
        assert(a@ != b@) by {
            assert(a@.len() != b@.len());
        }
        return false;
    }
    let n: usize = a.len();
    let mut i: usize = 0;
    while i < n
        invariant
            n == a@.len(),
            n == b@.len(),
            i <= n,
            forall|k: int| 0 <= k < i ==> a@[k] == b@[k],
        decreases n - i,
    {
        if a[i] != b[i] {
            assert(a@ != b@) by {
                assert(a@[i as int] != b@[i as int]);
            }
            return false;
        }
        i = i + 1;
    }
    assert(a@ =~= b@);
    true
}

} // verus!
