//! A lexer for a small dynamically-typed scripting language.
//!
//! The library turns raw source text (a byte buffer) into a stream of
//! classified tokens: identifiers, keywords, integer and float literals,
//! string literals, operators and punctuation.  Tokens borrow their payloads
//! from the source buffer; nothing is copied.  Every function is specified
//! and verified: the scanner's behaviour is pinned down by a mathematical
//! model of the scan (see `lexer`), and the laws the scanner obeys are
//! stated and proved in `laws`.
//!
//! The source is a byte buffer and classification is per ASCII byte:
//! letters and digits are the ASCII ranges and whitespace the six ASCII
//! whitespace bytes.  A byte outside every class — including each byte of
//! a multi-byte encoded character — yields an `Illegal` token and the scan
//! continues; no Unicode classes are consulted.

pub mod laws;
pub mod lexer;
pub mod token;
