//! Laws of the scanner, stated over the mathematical scan model and proved
//! once and for all: insignificant input yields no tokens, words resolve
//! deterministically, numeric payloads re-lex to themselves, start offsets
//! grow strictly along a scan, two-character operators win over their
//! one-character prefixes, and the scan is stationary past the end.

use crate::lexer::{
    byte_at, is_alnum_byte, is_alpha_byte, is_digit_byte, is_whitespace_byte, lemma_scan_at,
    lemma_scan_end, lemma_scan_end_is, lemma_scan_end_one, lemma_trivia_end, scan_at, scan_end,
    spec_tokens, trivia_end, CharClass, ScanStep, BANG, DOT, EQUALS, QUOTE, SLASH,
};
use crate::token::{
    is_reserved, kw_else, kw_false, kw_function, kw_if, kw_let, kw_macro, kw_return, kw_true,
    spec_classify_word, SpecToken, SpecTokenValue,
};
use vstd::prelude::*;

verus! {

/// From position `i` on, the input holds nothing but whitespace and line
/// comments (which may alternate arbitrarily).
pub open spec fn only_trivia_from(s: Seq<u8>, i: int) -> bool
    decreases s.len() - i when 0 <= i <= s.len() via only_trivia_from_decreases
{
    if i >= s.len() {
        true
    } else if is_whitespace_byte(s[i]) {
        only_trivia_from(s, i + 1)
    } else if i + 1 < s.len() && s[i] == SLASH && s[i + 1] == SLASH {
        only_trivia_from(s, scan_end(s, i, CharClass::NotNewline))
    } else {
        false
    }
}

#[via_fn]
proof fn only_trivia_from_decreases(s: Seq<u8>, i: int) {
    if i < s.len() && !is_whitespace_byte(s[i]) && i + 1 < s.len() && s[i] == SLASH && s[i + 1]
        == SLASH {
        assert(CharClass::NotNewline.spec_holds(s[i]));
        lemma_scan_end_one(s, i, CharClass::NotNewline);
        lemma_scan_end(s, i, CharClass::NotNewline);
    }
}

/// Input that is only whitespace and comments is consumed whole by the
/// trivia skipper.
proof fn lemma_only_trivia_consumed(s: Seq<u8>, i: int)
    requires
        0 <= i <= s.len(),
        only_trivia_from(s, i),
    ensures
        trivia_end(s, i) == s.len(),
    decreases s.len() - i,
{
    if i >= s.len() {
    } else if is_whitespace_byte(s[i]) {
        lemma_only_trivia_consumed(s, i + 1);
        assert(scan_end(s, i, CharClass::Whitespace) == scan_end(s, i + 1, CharClass::Whitespace));
    } else {
        assert(scan_end(s, i, CharClass::Whitespace) == i);
        assert(CharClass::NotNewline.spec_holds(s[i]));
        lemma_scan_end_one(s, i, CharClass::NotNewline);
        lemma_scan_end(s, i, CharClass::NotNewline);
        lemma_only_trivia_consumed(s, scan_end(s, i, CharClass::NotNewline));
    }
}

/// Feeding only whitespace and/or comments yields zero tokens before
/// `EndOfInput`.
pub proof fn lemma_trivia_only_yields_no_tokens(s: Seq<u8>, i: int)
    requires
        0 <= i <= s.len(),
        only_trivia_from(s, i),
    ensures
        trivia_end(s, i) == s.len(),
        spec_tokens(s, i) == Seq::<SpecToken>::empty(),
{
    lemma_only_trivia_consumed(s, i);
    lemma_scan_at(s, s.len() as int);
    assert(spec_tokens(s, i) =~= Seq::<SpecToken>::empty());
}

/// An alphabetic-leading, alphanumeric word standing alone scans to a
/// single token covering the whole input: the matching keyword variant for
/// each of the eight reserved words, and `Identifier` carrying the full
/// lexeme for every word outside the reserved set.
pub proof fn lemma_word_scan(s: Seq<u8>)
    requires
        s.len() > 0,
        is_alpha_byte(s[0]),
        forall|k: int| 0 <= k < s.len() ==> is_alnum_byte(s[k]),
    ensures
        trivia_end(s, 0) == 0,
        scan_at(s, 0).value == spec_classify_word(s),
        scan_at(s, 0).next == s.len(),
        !is_reserved(s) ==> scan_at(s, 0).value == SpecTokenValue::Identifier(s),
        s == kw_let() ==> scan_at(s, 0).value == SpecTokenValue::Let,
        s == kw_function() ==> scan_at(s, 0).value == SpecTokenValue::Function,
        s == kw_true() ==> scan_at(s, 0).value == SpecTokenValue::True,
        s == kw_false() ==> scan_at(s, 0).value == SpecTokenValue::False,
        s == kw_if() ==> scan_at(s, 0).value == SpecTokenValue::If,
        s == kw_else() ==> scan_at(s, 0).value == SpecTokenValue::Else,
        s == kw_return() ==> scan_at(s, 0).value == SpecTokenValue::Return,
        s == kw_macro() ==> scan_at(s, 0).value == SpecTokenValue::Macro,
{
    assert(scan_end(s, 0, CharClass::Whitespace) == 0);
    lemma_scan_end_is(s, 0, CharClass::Alphanumeric, s.len() as int);
    assert(s.subrange(0, s.len() as int) =~= s);
}

/// A standalone digit run with no following decimal point scans to a
/// single `Integer` token carrying the full run.
pub proof fn lemma_integer_scan(s: Seq<u8>)
    requires
        s.len() > 0,
        forall|k: int| 0 <= k < s.len() ==> is_digit_byte(s[k]),
    ensures
        trivia_end(s, 0) == 0,
        scan_at(s, 0).value == SpecTokenValue::Integer(s),
        scan_at(s, 0).next == s.len(),
{
    assert(scan_end(s, 0, CharClass::Whitespace) == 0);
    lemma_scan_end_is(s, 0, CharClass::DecimalDigit, s.len() as int);
    assert(s.subrange(0, s.len() as int) =~= s);
}

/// A digit run, a decimal point and a second (possibly empty) digit run
/// scan to a single `Float` token whose payload spans all three parts.
pub proof fn lemma_float_scan(d1: Seq<u8>, d2: Seq<u8>)
    requires
        d1.len() > 0,
        forall|k: int| 0 <= k < d1.len() ==> is_digit_byte(d1[k]),
        forall|k: int| 0 <= k < d2.len() ==> is_digit_byte(d2[k]),
    ensures
        trivia_end(d1 + seq![DOT] + d2, 0) == 0,
        scan_at(d1 + seq![DOT] + d2, 0).value == SpecTokenValue::Float(d1 + seq![DOT] + d2),
        scan_at(d1 + seq![DOT] + d2, 0).next == (d1 + seq![DOT] + d2).len(),
{
    let s = d1 + seq![DOT] + d2;
    assert(forall|k: int| 0 <= k < d1.len() ==> s[k] == d1[k]);
    assert(s[d1.len() as int] == DOT);
    assert(forall|k: int| d1.len() + 1 <= k < s.len() ==> s[k] == d2[k - d1.len() - 1]);
    assert(scan_end(s, 0, CharClass::Whitespace) == 0);
    lemma_scan_end_is(s, 0, CharClass::DecimalDigit, d1.len() as int);
    lemma_scan_end_is(s, d1.len() as int + 1, CharClass::DecimalDigit, s.len() as int);
    assert(s.subrange(0, s.len() as int) =~= s);
}

/// Re-lexing the payload of a numeric token as a standalone input
/// reproduces the same kind with the same full-span payload.
pub proof fn lemma_numeric_round_trip(s: Seq<u8>, p: int)
    requires
        0 <= p <= s.len(),
    ensures
        scan_at(s, p).value matches SpecTokenValue::Integer(d) ==> (scan_at(d, 0).value
            == SpecTokenValue::Integer(d) && scan_at(d, 0).next == d.len()),
        scan_at(s, p).value matches SpecTokenValue::Float(d) ==> (scan_at(d, 0).value
            == SpecTokenValue::Float(d) && scan_at(d, 0).next == d.len()),
{
    if p < s.len() && is_digit_byte(s[p]) {
        let e = scan_end(s, p, CharClass::DecimalDigit);
        lemma_scan_end(s, p, CharClass::DecimalDigit);
        lemma_scan_end_one(s, p, CharClass::DecimalDigit);
        if e < s.len() && s[e] == DOT {
            let f = scan_end(s, e + 1, CharClass::DecimalDigit);
            lemma_scan_end(s, e + 1, CharClass::DecimalDigit);
            let d1 = s.subrange(p, e);
            let d2 = s.subrange(e + 1, f);
            let d = s.subrange(p, f);
            assert(d =~= d1 + seq![DOT] + d2);
            lemma_float_scan(d1, d2);
        } else {
            let d = s.subrange(p, e);
            assert(forall|k: int| 0 <= k < d.len() ==> d[k] == s[p + k]);
            lemma_integer_scan(d);
        }
    }
}

/// The numeric-literal rule in general, at any position of any input: an
/// `Integer` payload is exactly the maximal digit run at the token's
/// start, and neither a digit nor a decimal point follows it; a `Float`
/// payload is that run, the decimal point, and the (possibly empty)
/// maximal digit run after the point — so a trailing bare point still
/// yields a `Float` whose text ends at the point.  In both cases the scan
/// resumes immediately after the payload's last character.
pub proof fn lemma_numeric_payload(s: Seq<u8>, p: int)
    requires
        0 <= p <= s.len(),
    ensures
        scan_at(s, p).value matches SpecTokenValue::Integer(d) ==> ({
            let e = scan_end(s, p, CharClass::DecimalDigit);
            &&& d.len() > 0
            &&& d == s.subrange(p, e)
            &&& forall|k: int| 0 <= k < d.len() ==> is_digit_byte(d[k])
            &&& e < s.len() ==> (!is_digit_byte(s[e]) && s[e] != DOT)
            &&& scan_at(s, p).next == e
        }),
        scan_at(s, p).value matches SpecTokenValue::Float(d) ==> ({
            let e = scan_end(s, p, CharClass::DecimalDigit);
            let f = scan_end(s, e + 1, CharClass::DecimalDigit);
            &&& p < e < s.len()
            &&& s[e] == DOT
            &&& d == s.subrange(p, e) + seq![DOT] + s.subrange(e + 1, f)
            &&& forall|k: int| p <= k < e ==> is_digit_byte(s[k])
            &&& forall|k: int| e + 1 <= k < f ==> is_digit_byte(s[k])
            &&& f < s.len() ==> !is_digit_byte(s[f])
            &&& scan_at(s, p).next == f
        }),
{
    if p < s.len() && is_digit_byte(s[p]) {
        let e = scan_end(s, p, CharClass::DecimalDigit);
        lemma_scan_end(s, p, CharClass::DecimalDigit);
        lemma_scan_end_one(s, p, CharClass::DecimalDigit);
        if e < s.len() && s[e] == DOT {
            let f = scan_end(s, e + 1, CharClass::DecimalDigit);
            lemma_scan_end(s, e + 1, CharClass::DecimalDigit);
            assert(s.subrange(p, f) =~= s.subrange(p, e) + seq![DOT] + s.subrange(e + 1, f));
        } else {
            assert(forall|k: int|
                0 <= k < s.subrange(p, e).len() ==> s.subrange(p, e)[k] == s[p + k]);
        }
    }
}

/// Every token of a scan starts at or after the scan's position and
/// before the input's end.
pub proof fn lemma_token_positions(s: Seq<u8>, i: int)
    requires
        0 <= i <= s.len(),
    ensures
        forall|k: int|
            0 <= k < spec_tokens(s, i).len() ==> i <= (#[trigger] spec_tokens(s, i)[k]).pos
                < s.len(),
    decreases s.len() - i,
{
    lemma_trivia_end(s, i);
    let p = trivia_end(s, i);
    lemma_scan_at(s, p);
    let st = scan_at(s, p);
    if st.value != SpecTokenValue::EndOfInput {
        lemma_token_positions(s, st.next);
        assert forall|k: int| 0 <= k < spec_tokens(s, i).len() implies i <= (#[trigger] spec_tokens(
            s,
            i,
        )[k]).pos < s.len() by {
            if k > 0 {
                assert(spec_tokens(s, i)[k] == spec_tokens(s, st.next)[k - 1]);
            }
        }
    }
}

/// Start offsets strictly increase across successive tokens from the same
/// scan.
pub proof fn lemma_offsets_increase(s: Seq<u8>, i: int)
    requires
        0 <= i <= s.len(),
    ensures
        forall|k: int|
            0 <= k && k + 1 < spec_tokens(s, i).len() ==> (#[trigger] spec_tokens(s, i)[k]).pos
                < spec_tokens(s, i)[k + 1].pos,
    decreases s.len() - i,
{
    lemma_trivia_end(s, i);
    let p = trivia_end(s, i);
    lemma_scan_at(s, p);
    let st = scan_at(s, p);
    if st.value != SpecTokenValue::EndOfInput {
        lemma_offsets_increase(s, st.next);
        lemma_token_positions(s, st.next);
        assert forall|k: int| 0 <= k && k + 1 < spec_tokens(s, i).len() implies (
        #[trigger] spec_tokens(s, i)[k]).pos < spec_tokens(s, i)[k + 1].pos by {
            if k == 0 {
                assert(spec_tokens(s, i)[1] == spec_tokens(s, st.next)[0]);
            } else {
                assert(spec_tokens(s, i)[k] == spec_tokens(s, st.next)[k - 1]);
                assert(spec_tokens(s, i)[k + 1] == spec_tokens(s, st.next)[k]);
            }
        }
    }
}

/// Every token of a scan is exactly what the single-step scan classifies
/// at that token's own start offset: the reported offset is the position
/// of the token's first character.
pub proof fn lemma_tokens_match_scan(s: Seq<u8>, i: int)
    requires
        0 <= i <= s.len(),
    ensures
        forall|k: int|
            0 <= k < spec_tokens(s, i).len() ==> (#[trigger] spec_tokens(s, i)[k]).value == scan_at(
                s,
                spec_tokens(s, i)[k].pos,
            ).value,
    decreases s.len() - i,
{
    lemma_trivia_end(s, i);
    let p = trivia_end(s, i);
    lemma_scan_at(s, p);
    let st = scan_at(s, p);
    if st.value != SpecTokenValue::EndOfInput {
        lemma_tokens_match_scan(s, st.next);
        assert forall|k: int| 0 <= k < spec_tokens(s, i).len() implies (#[trigger] spec_tokens(
            s,
            i,
        )[k]).value == scan_at(s, spec_tokens(s, i)[k].pos).value by {
            if k > 0 {
                assert(spec_tokens(s, i)[k] == spec_tokens(s, st.next)[k - 1]);
            }
        }
    }
}

/// Where a token's payload sits relative to its start offset: identifier
/// and numeric payloads begin at the offset itself, while a string's
/// offset points at the opening quote and its payload begins one past it
/// (the quotes are excluded from the payload).  The no-payload kinds read
/// their one or two characters at the offset directly, by definition of
/// [`scan_at`].
pub proof fn lemma_payload_at_start(s: Seq<u8>, p: int)
    requires
        0 <= p <= s.len(),
    ensures
        scan_at(s, p).value matches SpecTokenValue::Identifier(d) ==> d == s.subrange(
            p,
            p + d.len(),
        ),
        scan_at(s, p).value matches SpecTokenValue::Integer(d) ==> d == s.subrange(p, p + d.len()),
        scan_at(s, p).value matches SpecTokenValue::Float(d) ==> d == s.subrange(p, p + d.len()),
        scan_at(s, p).value matches SpecTokenValue::StringLiteral(d) ==> (s[p] == QUOTE && d
            == s.subrange(p + 1, p + 1 + d.len())),
{
    if p < s.len() {
        let b = s[p];
        if b == QUOTE {
            lemma_scan_end(s, p + 1, CharClass::NotQuote);
        } else if is_alpha_byte(b) {
            lemma_scan_end(s, p, CharClass::Alphanumeric);
        } else if is_digit_byte(b) {
            lemma_scan_end(s, p, CharClass::DecimalDigit);
            let e = scan_end(s, p, CharClass::DecimalDigit);
            if e < s.len() && s[e] == DOT {
                lemma_scan_end(s, e + 1, CharClass::DecimalDigit);
            }
        }
    }
}

/// Two-character operators are preferred over their one-character prefix
/// whenever the second character matches: `==` never decomposes into `=`
/// followed by `=`, and `!=` never into `!` followed by `=`.
pub proof fn lemma_two_char_operators(s: Seq<u8>, p: int)
    requires
        0 <= p,
        p + 1 < s.len(),
    ensures
        s[p] == EQUALS && s[p + 1] == EQUALS ==> scan_at(s, p) == (ScanStep {
            value: SpecTokenValue::Equal,
            next: p + 2,
        }),
        s[p] == BANG && s[p + 1] == EQUALS ==> scan_at(s, p) == (ScanStep {
            value: SpecTokenValue::NotEqual,
            next: p + 2,
        }),
{
}

/// Past the end of the input the scan is stationary: the cursor stays at
/// the end and every further request yields `EndOfInput` again.
pub proof fn lemma_end_of_input_repeats(s: Seq<u8>)
    ensures
        trivia_end(s, s.len() as int) == s.len(),
        scan_at(s, s.len() as int) == (ScanStep {
            value: SpecTokenValue::EndOfInput,
            next: s.len() as int,
        }),
        byte_at(s, s.len() as int) == 0,
{
    assert(scan_end(s, s.len() as int, CharClass::Whitespace) == s.len());
}

} // verus!
