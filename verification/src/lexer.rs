//! The scanner: a forward-only cursor over a borrowed source buffer that
//! produces one classified token per request.
//!
//! The behaviour of the scanner is pinned down by a small mathematical model
//! of the scan: [`scan_end`] delimits a maximal run of one character class,
//! [`trivia_end`] skips alternating whitespace and line comments, [`scan_at`]
//! classifies the token beginning at a significant position, and
//! [`spec_tokens`] is the full token sequence of a buffer.  Every executable
//! method's contract is stated against this model.

use crate::token::{SpecToken, SpecTokenValue, Token, TokenValue};
use crate::token::spec_classify_word;
use vstd::prelude::*;
use vstd::slice::slice_subrange;

verus! {

/// The sentinel byte standing for "past the end of the input".
pub const NUL: u8 = 0;

/// Horizontal tab.
pub const TAB: u8 = 9;

/// Line feed; terminates a line comment.
pub const NEWLINE: u8 = 10;

/// Vertical tab.
pub const VTAB: u8 = 11;

/// Form feed.
pub const FORMFEED: u8 = 12;

/// Carriage return.
pub const CARRIAGE: u8 = 13;

/// Space.
pub const SPACE: u8 = 32;

/// `!`
pub const BANG: u8 = 33;

/// `"`; delimits string literals.
pub const QUOTE: u8 = 34;

/// `*`
pub const STAR: u8 = 42;

/// `+`
pub const PLUS: u8 = 43;

/// `,`
pub const COMMA: u8 = 44;

/// `-`
pub const MINUS: u8 = 45;

/// `.`; separates the integer and fractional parts of a float literal.
pub const DOT: u8 = 46;

/// `/`; doubled, it opens a line comment.
pub const SLASH: u8 = 47;

/// `:`
pub const COLON: u8 = 58;

/// `;`
pub const SEMI: u8 = 59;

/// `<`
pub const LANGLE: u8 = 60;

/// `=`; doubled, it is the equality operator.
pub const EQUALS: u8 = 61;

/// `>`
pub const RANGLE: u8 = 62;

/// `(`
pub const LPAREN: u8 = 40;

/// `)`
pub const RPAREN: u8 = 41;

/// `[`
pub const LBRACKET: u8 = 91;

/// `]`
pub const RBRACKET: u8 = 93;

/// `{`
pub const LBRACE: u8 = 123;

/// `}`
pub const RBRACE: u8 = 125;

/// The byte is ASCII whitespace (space, tab, line feed, vertical tab,
/// form feed or carriage return).
pub open spec fn is_whitespace_byte(b: u8) -> bool {
    b == SPACE || b == TAB || b == NEWLINE || b == VTAB || b == FORMFEED || b == CARRIAGE
}

/// The byte is an ASCII letter; only such a byte may start an identifier.
pub open spec fn is_alpha_byte(b: u8) -> bool {
    (65 <= b && b <= 90) || (97 <= b && b <= 122)
}

/// The byte is an ASCII decimal digit.
pub open spec fn is_digit_byte(b: u8) -> bool {
    48 <= b && b <= 57
}

/// The byte may continue an identifier: a letter or a digit.
pub open spec fn is_alnum_byte(b: u8) -> bool {
    is_alpha_byte(b) || is_digit_byte(b)
}

/// The character classes the scanner's shared "consume a maximal run"
/// primitive works over.  One primitive, [`Lexer::skip_while`], serves
/// whitespace skipping, comment skipping, and identifier, number and
/// string reading alike.
#[derive(Clone, Copy, Debug)]
pub enum CharClass {
    /// ASCII whitespace.
    Whitespace,
    /// Letters and digits: the continuation class of identifiers.
    Alphanumeric,
    /// Decimal digits: the body of numeric literals.
    DecimalDigit,
    /// Everything but the closing quote: the body of a string literal.
    NotQuote,
    /// Everything but a line feed: the body of a line comment.
    NotNewline,
}

impl CharClass {
    /// Membership of a byte in the class.
    pub open spec fn spec_holds(self, b: u8) -> bool {
        match self {
            CharClass::Whitespace => is_whitespace_byte(b),
            CharClass::Alphanumeric => is_alnum_byte(b),
            CharClass::DecimalDigit => is_digit_byte(b),
            CharClass::NotQuote => b != QUOTE,
            CharClass::NotNewline => b != NEWLINE,
        }
    }

    /// Decide membership of a byte in the class.
    pub fn holds(self, b: u8) -> (r: bool)
        ensures
            r == self.spec_holds(b),
    {
        match self {
            CharClass::Whitespace => {
                b == SPACE || b == TAB || b == NEWLINE || b == VTAB || b == FORMFEED
                    || b == CARRIAGE
            },
            CharClass::Alphanumeric => {
                (65 <= b && b <= 90) || (97 <= b && b <= 122) || (48 <= b && b <= 57)
            },
            CharClass::DecimalDigit => 48 <= b && b <= 57,
            CharClass::NotQuote => b != QUOTE,
            CharClass::NotNewline => b != NEWLINE,
        }
    }
}

/// The byte at offset `i`, or the sentinel once the offset has passed the
/// end of the input.
pub open spec fn byte_at(s: Seq<u8>, i: int) -> u8 {
    if 0 <= i < s.len() {
        s[i]
    } else {
        NUL
    }
}

/// The first offset at or after `i` whose byte falls outside `class`, or
/// the input's length when the run reaches the end: the end of the maximal
/// run of `class` starting at `i`.
pub open spec fn scan_end(s: Seq<u8>, i: int, class: CharClass) -> int
    decreases s.len() - i when 0 <= i <= s.len()
{
    if i < s.len() && class.spec_holds(s[i]) {
        scan_end(s, i + 1, class)
    } else {
        i
    }
}

/// The maximal run delimited by [`scan_end`] lies within the input, every
/// byte inside it belongs to the class, and the byte that ends it (if any)
/// does not.
pub proof fn lemma_scan_end(s: Seq<u8>, i: int, class: CharClass)
    requires
        0 <= i <= s.len(),
    ensures
        i <= scan_end(s, i, class) <= s.len(),
        forall|k: int| i <= k < scan_end(s, i, class) ==> class.spec_holds(s[k]),
        scan_end(s, i, class) < s.len() ==> !class.spec_holds(s[scan_end(s, i, class)]),
    decreases s.len() - i,
{
    if i < s.len() && class.spec_holds(s[i]) {
        lemma_scan_end(s, i + 1, class);
    }
}

/// A run whose interior lies in the class and whose delimiter (if any) does
/// not is exactly the maximal run: [`scan_end`] computes its end.
pub proof fn lemma_scan_end_is(s: Seq<u8>, i: int, class: CharClass, e: int)
    requires
        0 <= i <= e <= s.len(),
        forall|k: int| i <= k < e ==> class.spec_holds(s[k]),
        e < s.len() ==> !class.spec_holds(s[e]),
    ensures
        scan_end(s, i, class) == e,
    decreases e - i,
{
    if i < e {
        lemma_scan_end_is(s, i + 1, class, e);
    }
}

/// The offset of the first significant byte at or after `i`: runs of
/// whitespace and line comments (`//` up to the next line feed) alternate
/// arbitrarily and are all insignificant.
pub open spec fn trivia_end(s: Seq<u8>, i: int) -> int
    decreases s.len() - i when 0 <= i <= s.len() via trivia_end_decreases
{
    let j = scan_end(s, i, CharClass::Whitespace);
    if j + 1 < s.len() && s[j] == SLASH && s[j + 1] == SLASH {
        trivia_end(s, scan_end(s, j, CharClass::NotNewline))
    } else {
        j
    }
}

#[via_fn]
proof fn trivia_end_decreases(s: Seq<u8>, i: int) {
    lemma_scan_end(s, i, CharClass::Whitespace);
    let j = scan_end(s, i, CharClass::Whitespace);
    if j + 1 < s.len() && s[j] == SLASH && s[j + 1] == SLASH {
        lemma_scan_end(s, j, CharClass::NotNewline);
        assert(scan_end(s, j, CharClass::NotNewline) > j) by {
            assert(CharClass::NotNewline.spec_holds(s[j]));
        }
    }
}

/// The first significant offset lies between `i` and the input's end.
pub proof fn lemma_trivia_end(s: Seq<u8>, i: int)
    requires
        0 <= i <= s.len(),
    ensures
        i <= trivia_end(s, i) <= s.len(),
    decreases s.len() - i,
{
    lemma_scan_end(s, i, CharClass::Whitespace);
    let j = scan_end(s, i, CharClass::Whitespace);
    if j + 1 < s.len() && s[j] == SLASH && s[j + 1] == SLASH {
        lemma_scan_end(s, j, CharClass::NotNewline);
        assert(CharClass::NotNewline.spec_holds(s[j]));
        lemma_trivia_end(s, scan_end(s, j, CharClass::NotNewline));
    }
}

/// One step of the scan: the classification produced at a position, and
/// the offset at which the cursor stands afterwards.
pub struct ScanStep {
    pub value: SpecTokenValue,
    pub next: int,
}

/// The token the scanner produces with its cursor at the significant
/// position `p`, together with the cursor position after it.
///
/// `p` is expected to be a position [`trivia_end`] returns: the scan of a
/// token never begins inside whitespace or a comment.
pub open spec fn scan_at(s: Seq<u8>, p: int) -> ScanStep
    recommends
        0 <= p <= s.len(),
{
    if p >= s.len() {
        ScanStep { value: SpecTokenValue::EndOfInput, next: p }
    } else {
        let b = s[p];
        if b == EQUALS {
            if p + 1 < s.len() && s[p + 1] == EQUALS {
                ScanStep { value: SpecTokenValue::Equal, next: p + 2 }
            } else {
                ScanStep { value: SpecTokenValue::Assign, next: p + 1 }
            }
        } else if b == BANG {
            if p + 1 < s.len() && s[p + 1] == EQUALS {
                ScanStep { value: SpecTokenValue::NotEqual, next: p + 2 }
            } else {
                ScanStep { value: SpecTokenValue::Bang, next: p + 1 }
            }
        } else if b == PLUS {
            ScanStep { value: SpecTokenValue::Plus, next: p + 1 }
        } else if b == MINUS {
            ScanStep { value: SpecTokenValue::Minus, next: p + 1 }
        } else if b == STAR {
            ScanStep { value: SpecTokenValue::Asterisk, next: p + 1 }
        } else if b == SLASH {
            ScanStep { value: SpecTokenValue::Slash, next: p + 1 }
        } else if b == LANGLE {
            ScanStep { value: SpecTokenValue::LessThan, next: p + 1 }
        } else if b == RANGLE {
            ScanStep { value: SpecTokenValue::GreaterThan, next: p + 1 }
        } else if b == COMMA {
            ScanStep { value: SpecTokenValue::Comma, next: p + 1 }
        } else if b == SEMI {
            ScanStep { value: SpecTokenValue::Semicolon, next: p + 1 }
        } else if b == COLON {
            ScanStep { value: SpecTokenValue::Colon, next: p + 1 }
        } else if b == LPAREN {
            ScanStep { value: SpecTokenValue::LParen, next: p + 1 }
        } else if b == RPAREN {
            ScanStep { value: SpecTokenValue::RParen, next: p + 1 }
        } else if b == LBRACE {
            ScanStep { value: SpecTokenValue::LBrace, next: p + 1 }
        } else if b == RBRACE {
            ScanStep { value: SpecTokenValue::RBrace, next: p + 1 }
        } else if b == LBRACKET {
            ScanStep { value: SpecTokenValue::LBracket, next: p + 1 }
        } else if b == RBRACKET {
            ScanStep { value: SpecTokenValue::RBracket, next: p + 1 }
        } else if b == QUOTE {
            let e = scan_end(s, p + 1, CharClass::NotQuote);
            ScanStep {
                value: SpecTokenValue::StringLiteral(s.subrange(p + 1, e)),
                next: if e < s.len() { e + 1 } else { e },
            }
        } else if is_alpha_byte(b) {
            let e = scan_end(s, p, CharClass::Alphanumeric);
            ScanStep { value: spec_classify_word(s.subrange(p, e)), next: e }
        } else if is_digit_byte(b) {
            let e = scan_end(s, p, CharClass::DecimalDigit);
            if e < s.len() && s[e] == DOT {
                let f = scan_end(s, e + 1, CharClass::DecimalDigit);
                ScanStep { value: SpecTokenValue::Float(s.subrange(p, f)), next: f }
            } else {
                ScanStep { value: SpecTokenValue::Integer(s.subrange(p, e)), next: e }
            }
        } else {
            ScanStep { value: SpecTokenValue::Illegal, next: p + 1 }
        }
    }
}

/// A scan step at a position inside the input consumes at least one byte
/// and never passes the end; end-of-input is produced exactly at the end,
/// and there the cursor stays put.
pub proof fn lemma_scan_at(s: Seq<u8>, p: int)
    requires
        0 <= p <= s.len(),
    ensures
        p < s.len() ==> p < scan_at(s, p).next <= s.len(),
        p < s.len() ==> scan_at(s, p).value != SpecTokenValue::EndOfInput,
        p == s.len() ==> scan_at(s, p) == (ScanStep {
            value: SpecTokenValue::EndOfInput,
            next: p,
        }),
{
    if p < s.len() {
        let b = s[p];
        if b == QUOTE {
            lemma_scan_end(s, p + 1, CharClass::NotQuote);
        } else if is_alpha_byte(b) {
            lemma_scan_end(s, p, CharClass::Alphanumeric);
            assert(CharClass::Alphanumeric.spec_holds(s[p]));
            lemma_scan_end_one(s, p, CharClass::Alphanumeric);
        } else if is_digit_byte(b) {
            lemma_scan_end(s, p, CharClass::DecimalDigit);
            assert(CharClass::DecimalDigit.spec_holds(s[p]));
            lemma_scan_end_one(s, p, CharClass::DecimalDigit);
            let e = scan_end(s, p, CharClass::DecimalDigit);
            if e < s.len() && s[e] == DOT {
                lemma_scan_end(s, e + 1, CharClass::DecimalDigit);
            }
        }
    }
}

/// A run whose first byte belongs to the class extends past that byte.
pub proof fn lemma_scan_end_one(s: Seq<u8>, i: int, class: CharClass)
    requires
        0 <= i < s.len(),
        class.spec_holds(s[i]),
    ensures
        scan_end(s, i, class) >= i + 1,
{
    lemma_scan_end(s, i + 1, class);
}

/// Every token of the buffer from position `i` onward, in order, up to but
/// not including the terminal end-of-input marker.
pub open spec fn spec_tokens(s: Seq<u8>, i: int) -> Seq<SpecToken>
    decreases s.len() - i when 0 <= i <= s.len() via spec_tokens_decreases
{
    let p = trivia_end(s, i);
    let st = scan_at(s, p);
    if st.value == SpecTokenValue::EndOfInput {
        Seq::empty()
    } else {
        seq![SpecToken { value: st.value, pos: p }] + spec_tokens(s, st.next)
    }
}

#[via_fn]
proof fn spec_tokens_decreases(s: Seq<u8>, i: int) {
    lemma_trivia_end(s, i);
    let p = trivia_end(s, i);
    lemma_scan_at(s, p);
}

/// The views of a sequence of tokens: each token replaced by its
/// mathematical form.
pub open spec fn token_views<'a>(ts: Seq<Token<'a>>) -> Seq<SpecToken> {
    ts.map_values(|t: Token<'a>| t@)
}

/// The byte is an ASCII letter.
fn is_alpha(b: u8) -> (r: bool)
    ensures
        r == is_alpha_byte(b),
{
    (65 <= b && b <= 90) || (97 <= b && b <= 122)
}

/// The byte is an ASCII decimal digit.
fn is_digit(b: u8) -> (r: bool)
    ensures
        r == is_digit_byte(b),
{
    48 <= b && b <= 57
}

/// A forward-only cursor over a borrowed source buffer.  Each call of
/// [`Lexer::next_token`] classifies the token at the first significant
/// position and advances past it; once the end of the input is reached,
/// every further call keeps producing `EndOfInput`.
pub struct Lexer<'a> {
    input: &'a [u8],
    position: usize,
    current: u8,
}

impl<'a> Lexer<'a> {
    /// The source buffer the scanner walks.
    pub closed spec fn src(&self) -> Seq<u8> {
        self.input@
    }

    /// The cursor's offset: the position of the current character, or the
    /// input's length once the cursor has passed the end.
    pub closed spec fn pos(&self) -> int {
        self.position as int
    }

    /// Cursor well-formedness: the offset never passes one position beyond
    /// the last character, and the current character is the byte at the
    /// offset — or the sentinel once the cursor is past the end.
    pub closed spec fn wf(&self) -> bool {
        &&& self.position <= self.input@.len()
        &&& self.current == byte_at(self.input@, self.position as int)
    }

    /// A scanner positioned at the first character of `input` (or already
    /// past the end when `input` is empty).
    pub fn new(input: &'a [u8]) -> (r: Self)
        ensures
            r.wf(),
            r.src() == input@,
            r.pos() == 0,
    {
        let current = if input.len() > 0 {
            input[0]
        } else {
            NUL
        };
        Lexer { input, position: 0, current }
    }

    /// Advance the cursor one character; past the end it stays put.
    fn read_char(&mut self)
        requires
            old(self).wf(),
        ensures
            final(self).wf(),
            final(self).src() == old(self).src(),
            final(self).pos() == if old(self).pos() < old(self).src().len() {
                old(self).pos() + 1
            } else {
                old(self).pos()
            },
    {
        if self.position < self.input.len() {
            self.position = self.position + 1;
        }
        self.current = if self.position < self.input.len() {
            self.input[self.position]
        } else {
            NUL
        };
    }

    /// The next character equals `expected` (one character of lookahead;
    /// false once the current character is the last).
    fn peek_is(&self, expected: u8) -> (r: bool)
        requires
            self.wf(),
        ensures
            r <==> (self.pos() + 1 < self.src().len() && self.src()[self.pos() + 1] == expected),
    {
        if self.position >= self.input.len() {
            false
        } else if self.input.len() - self.position < 2 {
            false
        } else {
            self.input[self.position + 1] == expected
        }
    }

    /// Consume the next character if it equals `expected`; report whether
    /// it did.
    fn read_char_if_eq(&mut self, expected: u8) -> (r: bool)
        requires
            old(self).wf(),
        ensures
            final(self).wf(),
            final(self).src() == old(self).src(),
            r <==> (old(self).pos() + 1 < old(self).src().len() && old(self).src()[old(
                self,
            ).pos() + 1] == expected),
            final(self).pos() == if r {
                old(self).pos() + 1
            } else {
                old(self).pos()
            },
    {
        if self.peek_is(expected) {
            self.read_char();
            true
        } else {
            false
        }
    }

    /// Advance the cursor to the end of the maximal run of `class` that
    /// starts at the current position: the one primitive behind whitespace
    /// and comment skipping and identifier, number and string reading.
    fn skip_while(&mut self, class: CharClass)
        requires
            old(self).wf(),
        ensures
            final(self).wf(),
            final(self).src() == old(self).src(),
            final(self).pos() == scan_end(old(self).src(), old(self).pos(), class),
    {
        let ghost orig = *self;
        while self.position < self.input.len() && class.holds(self.current)
            invariant
                self.wf(),
                self.src() == orig.src(),
                orig.pos() <= self.pos() <= self.src().len(),
                scan_end(self.src(), self.pos(), class) == scan_end(orig.src(), orig.pos(), class),
            decreases self.src().len() - self.pos(),
        {
            self.read_char();
        }
        assert(scan_end(self.src(), self.pos(), class) == self.pos());
    }

    /// Advance past the maximal run of whitespace at the cursor.
    fn skip_whitespace(&mut self)
        requires
            old(self).wf(),
        ensures
            final(self).wf(),
            final(self).src() == old(self).src(),
            final(self).pos() == scan_end(old(self).src(), old(self).pos(), CharClass::Whitespace),
    {
        self.skip_while(CharClass::Whitespace)
    }

    /// Advance to the line feed that ends the current line (or to the end
    /// of the input): the body of a line comment is consumed here.
    fn skip_line(&mut self)
        requires
            old(self).wf(),
        ensures
            final(self).wf(),
            final(self).src() == old(self).src(),
            final(self).pos() == scan_end(old(self).src(), old(self).pos(), CharClass::NotNewline),
    {
        self.skip_while(CharClass::NotNewline)
    }

    /// Read the maximal alphanumeric run that starts at the cursor: the
    /// text of an identifier or keyword.
    fn read_identifier(&mut self) -> (r: &'a [u8])
        requires
            old(self).wf(),
            old(self).pos() < old(self).src().len(),
            is_alpha_byte(old(self).src()[old(self).pos()]),
        ensures
            final(self).wf(),
            final(self).src() == old(self).src(),
            final(self).pos() == scan_end(old(self).src(), old(self).pos(), CharClass::Alphanumeric),
            r@ == old(self).src().subrange(old(self).pos(), final(self).pos()),
    {
        let start = self.position;
        self.skip_while(CharClass::Alphanumeric);
        proof {
            lemma_scan_end(self.input@, start as int, CharClass::Alphanumeric);
        }
        slice_subrange(self.input, start, self.position)
    }

    /// Read the maximal digit run that starts at the cursor: the text of
    /// the integer part (or fractional part) of a numeric literal.
    fn read_number(&mut self) -> (r: &'a [u8])
        requires
            old(self).wf(),
        ensures
            final(self).wf(),
            final(self).src() == old(self).src(),
            final(self).pos() == scan_end(old(self).src(), old(self).pos(), CharClass::DecimalDigit),
            r@ == old(self).src().subrange(old(self).pos(), final(self).pos()),
    {
        let start = self.position;
        self.skip_while(CharClass::DecimalDigit);
        proof {
            lemma_scan_end(self.input@, start as int, CharClass::DecimalDigit);
        }
        slice_subrange(self.input, start, self.position)
    }

    /// Read a numeric literal at the cursor: a maximal digit run, extended
    /// through a decimal point and a second (possibly empty) digit run when
    /// the point immediately follows — an `Integer` or `Float` token value.
    fn read_number_token(&mut self) -> (r: TokenValue<'a>)
        requires
            old(self).wf(),
            old(self).pos() < old(self).src().len(),
            is_digit_byte(old(self).src()[old(self).pos()]),
        ensures
            final(self).wf(),
            final(self).src() == old(self).src(),
            r@ == scan_at(old(self).src(), old(self).pos()).value,
            final(self).pos() == scan_at(old(self).src(), old(self).pos()).next,
    {
        let start = self.position;
        let int_part = self.read_number();
        proof {
            lemma_scan_end(self.input@, start as int, CharClass::DecimalDigit);
        }
        if self.position < self.input.len() && self.current == DOT {
            self.read_char();
            proof {
                lemma_scan_end(self.input@, self.pos(), CharClass::DecimalDigit);
            }
            self.skip_while(CharClass::DecimalDigit);
            TokenValue::Float(slice_subrange(self.input, start, self.position))
        } else {
            TokenValue::Integer(int_part)
        }
    }

    /// Produce the next token: skip insignificant input, record the start
    /// offset, classify the current character (with one character of
    /// lookahead for `==` and `!=`), and advance past the token's last
    /// character.
    ///
    /// Once the end of the input is reached this keeps returning
    /// `EndOfInput` tokens, call after call, without moving the cursor.
    pub fn next_token(&mut self) -> (t: Token<'a>)
        requires
            old(self).wf(),
        ensures
            final(self).wf(),
            final(self).src() == old(self).src(),
            t@.pos == trivia_end(old(self).src(), old(self).pos()),
            t@.value == scan_at(old(self).src(), trivia_end(old(self).src(), old(self).pos())).value,
            final(self).pos() == scan_at(
                old(self).src(),
                trivia_end(old(self).src(), old(self).pos()),
            ).next,
    {
        let ghost orig = *self;
        loop
            invariant
                self.wf(),
                self.src() == orig.src(),
                orig.pos() <= self.pos() <= self.src().len(),
                trivia_end(self.src(), self.pos()) == trivia_end(orig.src(), orig.pos()),
            ensures
                self.wf(),
                self.src() == orig.src(),
                self.pos() == trivia_end(orig.src(), orig.pos()),
            decreases self.src().len() - self.pos(),
        {
            let ghost before = self.pos();
            self.skip_whitespace();
            proof {
                lemma_scan_end(self.src(), before, CharClass::Whitespace);
                assert(scan_end(self.src(), self.pos(), CharClass::Whitespace) == self.pos());
            }
            if self.current == SLASH && self.peek_is(SLASH) {
                proof {
                    assert(CharClass::NotNewline.spec_holds(self.src()[self.pos()]));
                    lemma_scan_end_one(self.src(), self.pos(), CharClass::NotNewline);
                }
                self.skip_line();
            } else {
                break ;
            }
        }

        let position = self.position;
        let ghost p = self.pos();

        if self.position >= self.input.len() {
            return Token { value: TokenValue::EndOfInput, pos: position };
        }

        let b = self.current;
        if b == QUOTE {
            let value = self.read_string();
            return Token { value, pos: position };
        }
        if is_alpha(b) {
            let word = self.read_identifier();
            let value = TokenValue::identifier_from(word);
            return Token { value, pos: position };
        }
        if is_digit(b) {
            let value = self.read_number_token();
            return Token { value, pos: position };
        }

        let value = if b == EQUALS {
            if self.read_char_if_eq(EQUALS) {
                TokenValue::Equal
            } else {
                TokenValue::Assign
            }
        } else if b == BANG {
            if self.read_char_if_eq(EQUALS) {
                TokenValue::NotEqual
            } else {
                TokenValue::Bang
            }
        } else if b == PLUS {
            TokenValue::Plus
        } else if b == MINUS {
            TokenValue::Minus
        } else if b == STAR {
            TokenValue::Asterisk
        } else if b == SLASH {
            TokenValue::Slash
        } else if b == LANGLE {
            TokenValue::LessThan
        } else if b == RANGLE {
            TokenValue::GreaterThan
        } else if b == COMMA {
            TokenValue::Comma
        } else if b == SEMI {
            TokenValue::Semicolon
        } else if b == COLON {
            TokenValue::Colon
        } else if b == LPAREN {
            TokenValue::LParen
        } else if b == RPAREN {
            TokenValue::RParen
        } else if b == LBRACE {
            TokenValue::LBrace
        } else if b == RBRACE {
            TokenValue::RBrace
        } else if b == LBRACKET {
            TokenValue::LBracket
        } else if b == RBRACKET {
            TokenValue::RBracket
        } else {
            TokenValue::Illegal
        };
        self.read_char();
        Token { value, pos: position }
    }

    /// Scan the rest of the input in bulk: every token in order, up to but
    /// not including the terminal `EndOfInput` marker.  The scanner is
    /// consumed; constructing a fresh one is the only way to re-scan.
    pub fn tokens(self) -> (r: Vec<Token<'a>>)
        requires
            self.wf(),
        ensures
            token_views(r@) == spec_tokens(self.src(), self.pos()),
    {
        let ghost s = self.src();
        let ghost start = self.pos();
        let mut lexer = self;
        let mut result: Vec<Token<'a>> = Vec::new();
        loop
            invariant
                lexer.wf(),
                lexer.src() == s,
                start <= lexer.pos() <= s.len(),
                token_views(result@) + spec_tokens(s, lexer.pos()) == spec_tokens(s, start),
            ensures
                token_views(result@) == spec_tokens(s, start),
            decreases s.len() - lexer.pos(),
        {
            let ghost before = lexer.pos();
            proof {
                lemma_trivia_end(s, before);
                lemma_scan_at(s, trivia_end(s, before));
            }
            let ghost prev = result@;
            let t = lexer.next_token();
            match t.value {
                TokenValue::EndOfInput => {
                    proof {
                        assert(spec_tokens(s, before) =~= Seq::<SpecToken>::empty());
                        assert(token_views(result@) + spec_tokens(s, before) == spec_tokens(
                            s,
                            start,
                        ));
                        assert(token_views(result@) =~= spec_tokens(s, start));
                    }
                    break ;
                },
                _ => {},
            }
            result.push(t);
            proof {
                assert(token_views(result@) =~= token_views(prev) + seq![t@]);
                assert(spec_tokens(s, before) == seq![t@] + spec_tokens(s, lexer.pos()));
                assert(token_views(result@) + spec_tokens(s, lexer.pos()) =~= spec_tokens(
                    s,
                    start,
                ));
            }
        }
        result
    }

    /// Read a string literal: the cursor stands on the opening quote; the
    /// payload is the content strictly between the quotes.  A missing
    /// closing quote is not an error: the content runs to the end of the
    /// input.
    fn read_string(&mut self) -> (r: TokenValue<'a>)
        requires
            old(self).wf(),
            old(self).pos() < old(self).src().len(),
            old(self).src()[old(self).pos()] == QUOTE,
        ensures
            final(self).wf(),
            final(self).src() == old(self).src(),
            r@ == scan_at(old(self).src(), old(self).pos()).value,
            final(self).pos() == scan_at(old(self).src(), old(self).pos()).next,
    {
        self.read_char();
        let start = self.position;
        self.skip_while(CharClass::NotQuote);
        proof {
            lemma_scan_end(self.input@, start as int, CharClass::NotQuote);
        }
        let content = slice_subrange(self.input, start, self.position);
        if self.position < self.input.len() {
            self.read_char();
        }
        TokenValue::StringLiteral(content)
    }
}

} // verus!
