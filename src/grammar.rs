//! The lexical grammar as mathematics: what one scanning step produces from
//! a position in the text, and the whole token sequence of a text.
//!
//! Identifiers are runs of ASCII letters and underscores (no digits);
//! integers are runs of ASCII digits; whitespace is space, tab, newline and
//! carriage return.

use vstd::prelude::*;
use vstd::utf8::{encode_scalar, encode_utf8};

use crate::error::LexerErrorView;
use crate::token::{classify, TokenKind, TokenView};

verus! {

/// The character classes whose maximal runs the scanner consumes.
#[derive(Clone, Copy, Debug, PartialEq, Eq, Structural)]
pub enum CharClass {
    Whitespace,
    Letter,
    Digit,
    /// Anything but a double quote: the body of a string literal.
    NotQuote,
}

pub open spec fn is_whitespace(c: char) -> bool {
    c == ' ' || c == '\t' || c == '\n' || c == '\r'
}

pub open spec fn is_letter(c: char) -> bool {
    ('a' as u32 <= c as u32 <= 'z' as u32) || ('A' as u32 <= c as u32 <= 'Z' as u32) || c == '_'
}

pub open spec fn is_digit(c: char) -> bool {
    '0' as u32 <= c as u32 <= '9' as u32
}

pub open spec fn in_class(c: char, cls: CharClass) -> bool {
    match cls {
        CharClass::Whitespace => is_whitespace(c),
        CharClass::Letter => is_letter(c),
        CharClass::Digit => is_digit(c),
        CharClass::NotQuote => c != '"',
    }
}

/// The end of the maximal run of `cls` characters that starts at `i`.
pub open spec fn run_end(text: Seq<char>, i: int, cls: CharClass) -> int
    decreases text.len() - i,
{
    if 0 <= i < text.len() && in_class(text[i], cls) {
        run_end(text, i + 1, cls)
    } else {
        i
    }
}

/// The byte offset, in UTF-8, of the character at index `i`.
pub open spec fn byte_offset(text: Seq<char>, i: int) -> int {
    encode_utf8(text.subrange(0, i)).len() as int
}

/// The number of bytes that encode a character in UTF-8.
pub open spec fn char_width(c: char) -> int {
    encode_scalar(c as u32).len() as int
}

/// The value of a run of decimal digits.
pub open spec fn digits_value(s: Seq<char>) -> nat
    decreases s.len(),
{
    if s.len() == 0 {
        0
    } else {
        digits_value(s.drop_last()) * 10 + (s.last() as u32 - '0' as u32) as nat
    }
}

/// The tokens spelled by one character alone.
pub open spec fn single(c: char) -> Option<TokenKind> {
    if c == ',' {
        Some(TokenKind::Comma)
    } else if c == ';' {
        Some(TokenKind::Semicolon)
    } else if c == '(' {
        Some(TokenKind::LeftParen)
    } else if c == ')' {
        Some(TokenKind::RightParen)
    } else if c == '{' {
        Some(TokenKind::LeftBrace)
    } else if c == '}' {
        Some(TokenKind::RightBrace)
    } else if c == '+' {
        Some(TokenKind::Plus)
    } else if c == '-' {
        Some(TokenKind::Minus)
    } else if c == '*' {
        Some(TokenKind::Asterisk)
    } else if c == '/' {
        Some(TokenKind::Slash)
    } else {
        None
    }
}

/// The characters that form a composite operator when `=` follows them:
/// the token alone, and the composite.
pub open spec fn pair(c: char) -> Option<(TokenKind, TokenKind)> {
    if c == '=' {
        Some((TokenKind::Assign, TokenKind::Equal))
    } else if c == '!' {
        Some((TokenKind::Bang, TokenKind::NotEqual))
    } else if c == '<' {
        Some((TokenKind::LessThan, TokenKind::LessThanEqual))
    } else if c == '>' {
        Some((TokenKind::GreaterThan, TokenKind::GreaterThanEqual))
    } else {
        None
    }
}

/// What one scanning step yields from index `i`: nothing when only
/// whitespace is left, else a token or an error, together with the index
/// where the next step starts.
pub open spec fn scan(text: Seq<char>, i: int) -> Option<(Result<TokenView, LexerErrorView>, int)> {
    let j = run_end(text, i, CharClass::Whitespace);
    if j >= text.len() {
        None
    } else {
        let c = text[j];
        Some(
            if single(c) is Some {
                (Ok(TokenView::Plain(single(c)->0)), j + 1)
            } else if pair(c) is Some {
                let (alone, composite) = pair(c)->0;
                if j + 1 < text.len() && text[j + 1] == '=' {
                    (Ok(TokenView::Plain(composite)), j + 2)
                } else {
                    (Ok(TokenView::Plain(alone)), j + 1)
                }
            } else if c == '"' {
                let k = run_end(text, j + 1, CharClass::NotQuote);
                if k < text.len() {
                    (Ok(TokenView::Str(text.subrange(j + 1, k))), k + 1)
                } else {
                    (Err(LexerErrorView::UnterminatedString(byte_offset(text, k))), k)
                }
            } else if is_digit(c) {
                let k = run_end(text, j, CharClass::Digit);
                let v = digits_value(text.subrange(j, k));
                if v <= i64::MAX {
                    (Ok(TokenView::Int(v as i64)), k)
                } else {
                    (
                        Err(
                            LexerErrorView::InvalidNumber(
                                text.subrange(j, k),
                                byte_offset(text, j),
                                byte_offset(text, k),
                            ),
                        ),
                        k,
                    )
                }
            } else if is_letter(c) {
                let k = run_end(text, j, CharClass::Letter);
                (Ok(classify(text.subrange(j, k))), k)
            } else {
                (Err(LexerErrorView::UnexpectedCharacter(c, byte_offset(text, j))), j + 1)
            },
        )
    }
}

/// Every token and error produced from index `i` to the end of the text.
pub open spec fn tokens_from(text: Seq<char>, i: int) -> Seq<Result<TokenView, LexerErrorView>>
    decreases text.len() - i,
{
    match scan(text, i) {
        None => Seq::empty(),
        Some((r, k)) => if 0 <= i < k <= text.len() {
            seq![r] + tokens_from(text, k)
        } else {
            seq![r]
        },
    }
}

/// The token sequence of a whole text.
pub open spec fn tokens(text: Seq<char>) -> Seq<Result<TokenView, LexerErrorView>> {
    tokens_from(text, 0)
}

/// Each step consumes at least one character and stays within the text.
pub proof fn lemma_scan_progress(text: Seq<char>, i: int)
    requires
        0 <= i <= text.len(),
    ensures
        scan(text, i) matches Some((_, k)) ==> i < k <= text.len(),
        scan(text, i) is None ==> run_end(text, i, CharClass::Whitespace) == text.len(),
{
    lemma_run_end(text, i, CharClass::Whitespace);
    let j = run_end(text, i, CharClass::Whitespace);
    if j < text.len() {
        lemma_run_end(text, j, CharClass::Digit);
        lemma_run_end(text, j, CharClass::Letter);
        lemma_run_end(text, j + 1, CharClass::NotQuote);
    }
}

/// One step, then the rest: the token sequence from `i` begins with what
/// `scan` yields there.
pub proof fn lemma_tokens_from_step(text: Seq<char>, i: int)
    requires
        0 <= i <= text.len(),
    ensures
        scan(text, i) is None ==> tokens_from(text, i) == Seq::<
            Result<TokenView, LexerErrorView>,
        >::empty(),
        scan(text, i) matches Some((r, k)) ==> tokens_from(text, i) == seq![r] + tokens_from(
            text,
            k,
        ),
{
    lemma_scan_progress(text, i);
}

/// A run ends at the first character outside its class, or at the end.
pub proof fn lemma_run_end(text: Seq<char>, i: int, cls: CharClass)
    requires
        0 <= i <= text.len(),
    ensures
        i <= run_end(text, i, cls) <= text.len(),
        forall|k: int| i <= k < run_end(text, i, cls) ==> in_class(#[trigger] text[k], cls),
        run_end(text, i, cls) < text.len() ==> !in_class(text[run_end(text, i, cls)], cls),
    decreases text.len() - i,
{
    if i < text.len() && in_class(text[i], cls) {
        lemma_run_end(text, i + 1, cls);
    }
}

/// The end of a run is the one index that the run's description admits.
pub proof fn lemma_run_end_at(text: Seq<char>, i: int, k: int, cls: CharClass)
    requires
        0 <= i <= k <= text.len(),
        forall|m: int| i <= m < k ==> in_class(#[trigger] text[m], cls),
        k == text.len() || !in_class(text[k], cls),
    ensures
        run_end(text, i, cls) == k,
    decreases k - i,
{
    if i < k {
        lemma_run_end_at(text, i + 1, k, cls);
    }
}

/// UTF-8 encoding distributes over concatenation.
pub proof fn lemma_encode_concat(a: Seq<char>, b: Seq<char>)
    ensures
        encode_utf8(a + b) == encode_utf8(a) + encode_utf8(b),
    decreases a.len(),
{
    if a.len() == 0 {
        assert(a + b =~= b);
        assert(encode_utf8(a) =~= Seq::<u8>::empty());
        assert(encode_utf8(a) + encode_utf8(b) =~= encode_utf8(b));
    } else {
        assert((a + b).drop_first() =~= a.drop_first() + b);
        lemma_encode_concat(a.drop_first(), b);
        assert(encode_utf8(a + b) =~= encode_scalar(a[0] as u32) + encode_utf8(a.drop_first() + b));
    }
}

/// The byte offset of index `k` is that of index `i` plus the bytes of the
/// characters between.
pub proof fn lemma_byte_offset_split(text: Seq<char>, i: int, k: int)
    requires
        0 <= i <= k <= text.len(),
    ensures
        byte_offset(text, k) == byte_offset(text, i) + encode_utf8(text.subrange(i, k)).len(),
{
    assert(text.subrange(0, k) =~= text.subrange(0, i) + text.subrange(i, k));
    lemma_encode_concat(text.subrange(0, i), text.subrange(i, k));
}

/// One character further, the byte offset grows by that character's width.
pub proof fn lemma_byte_offset_step(text: Seq<char>, i: int)
    requires
        0 <= i < text.len(),
    ensures
        byte_offset(text, i + 1) == byte_offset(text, i) + char_width(text[i]),
{
    lemma_byte_offset_split(text, i, i + 1);
    assert(text.subrange(i, i + 1).drop_first() =~= Seq::<char>::empty());
    assert(encode_utf8(text.subrange(i, i + 1)) =~= encode_scalar(text[i] as u32) + encode_utf8(
        Seq::<char>::empty(),
    ));
}

/// Byte offsets grow with the index.
pub proof fn lemma_byte_offset_monotone(text: Seq<char>, i: int, k: int)
    requires
        0 <= i <= k <= text.len(),
    ensures
        byte_offset(text, i) <= byte_offset(text, k),
{
    lemma_byte_offset_split(text, i, k);
}

} // verus!
