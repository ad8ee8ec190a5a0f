//! Laws of the scanner that relate whole texts and several steps, proved
//! over the model in `grammar`, which `Lexer::next` is verified against.

use vstd::prelude::*;
use vstd::utf8::encode_utf8;

use crate::error::LexerErrorView;
use crate::grammar::{
    byte_offset, in_class, is_digit, is_letter, is_whitespace, lemma_encode_concat, lemma_run_end,
    lemma_run_end_at, lemma_scan_progress, lemma_tokens_from_step, pair, run_end, scan, single,
    tokens, tokens_from, CharClass,
};
use crate::lexer::lexed;
use crate::token::{classify, is_plain, rendering, spelling, TokenKind, TokenView};

verus! {

proof fn single_symbols_from(text: Seq<char>, i: int)
    requires
        0 <= i <= text.len(),
        forall|m: int| 0 <= m < text.len() ==> single(#[trigger] text[m]) is Some,
    ensures
        tokens_from(text, i).len() == text.len() - i,
        forall|m: int|
            0 <= m < text.len() - i ==> #[trigger] tokens_from(text, i)[m] == Ok::<
                TokenView,
                LexerErrorView,
            >(TokenView::Plain(single(text[i + m])->0)),
    decreases text.len() - i,
{
    lemma_tokens_from_step(text, i);
    if i < text.len() {
        lemma_run_end_at(text, i, i, CharClass::Whitespace);
        single_symbols_from(text, i + 1);
        let rest = tokens_from(text, i + 1);
        assert forall|m: int| 0 <= m < text.len() - i implies #[trigger] tokens_from(text, i)[m]
            == Ok::<TokenView, LexerErrorView>(TokenView::Plain(single(text[i + m])->0)) by {
            if m > 0 {
                assert(tokens_from(text, i)[m] == rest[m - 1]);
            }
        }
    } else {
        lemma_run_end_at(text, i, i, CharClass::Whitespace);
    }
}

/// A text made only of the characters that are tokens by themselves
/// (`, ; ( ) { } + - * /`) scans to exactly one token per character, in
/// order, with nothing else.
pub proof fn law_single_symbols(text: Seq<char>)
    requires
        forall|m: int| 0 <= m < text.len() ==> single(#[trigger] text[m]) is Some,
    ensures
        tokens(text).len() == text.len(),
        forall|m: int|
            0 <= m < text.len() ==> #[trigger] tokens(text)[m] == Ok::<TokenView, LexerErrorView>(
                TokenView::Plain(single(text[m])->0),
            ),
{
    single_symbols_from(text, 0);
}

/// In a text made only of the characters that are tokens by themselves,
/// each call of `Lexer::next` and of `Lexer::next_token` from index `i`
/// yields the token of the `i`-th character and moves one character on;
/// at the end `next` yields nothing and `next_token` yields `Eof`.
pub proof fn law_single_symbol_steps(text: Seq<char>)
    requires
        forall|m: int| 0 <= m < text.len() ==> single(#[trigger] text[m]) is Some,
    ensures
        forall|i: int|
            0 <= i < text.len() ==> #[trigger] scan(text, i) == Some(
                (
                    Ok::<TokenView, LexerErrorView>(TokenView::Plain(single(text[i])->0)),
                    i + 1,
                ),
            ) && lexed(text, i) == (TokenView::Plain(single(text[i])->0), i + 1),
        scan(text, text.len() as int) is None,
        lexed(text, text.len() as int) == (TokenView::Plain(TokenKind::Eof), text.len() as int),
{
    assert forall|i: int| 0 <= i < text.len() implies #[trigger] scan(text, i) == Some(
        (Ok::<TokenView, LexerErrorView>(TokenView::Plain(single(text[i])->0)), i + 1),
    ) && lexed(text, i) == (TokenView::Plain(single(text[i])->0), i + 1) by {
        lemma_run_end_at(text, i, i, CharClass::Whitespace);
    }
    lemma_run_end_at(text, text.len() as int, text.len() as int, CharClass::Whitespace);
}

/// Whitespace produces no tokens: scanning from the start of a whitespace
/// run gives the same step, and the same remaining token sequence, as
/// scanning from its end. In particular a text that is whitespace from `i`
/// on has no tokens from `i`.
pub proof fn law_whitespace_skipped(text: Seq<char>, i: int, j: int)
    requires
        0 <= i <= j <= text.len(),
        forall|m: int| i <= m < j ==> is_whitespace(#[trigger] text[m]),
    ensures
        scan(text, i) == scan(text, j),
        tokens_from(text, i) == tokens_from(text, j),
        j == text.len() ==> tokens_from(text, i) == Seq::<Result<TokenView, LexerErrorView>>::empty(),
{
    lemma_run_end(text, j, CharClass::Whitespace);
    let e = run_end(text, j, CharClass::Whitespace);
    assert forall|m: int| i <= m < e implies in_class(#[trigger] text[m], CharClass::Whitespace) by {
        if m >= j {
            assert(in_class(text[m], CharClass::Whitespace));
        }
    }
    lemma_run_end_at(text, i, e, CharClass::Whitespace);
    lemma_tokens_from_step(text, i);
    lemma_tokens_from_step(text, j);
    lemma_scan_progress(text, i);
    lemma_scan_progress(text, j);
    if j == text.len() {
        lemma_run_end_at(text, j, j, CharClass::Whitespace);
    }
}

/// Whitespace put right after a token changes neither that token nor where
/// the next step starts.
pub proof fn law_whitespace_after_token(text: Seq<char>, i: int, w: Seq<char>)
    requires
        0 <= i <= text.len(),
        w.len() > 0,
        forall|m: int| 0 <= m < w.len() ==> is_whitespace(#[trigger] w[m]),
        scan(text, i) matches Some((r, _)) && r is Ok,
    ensures
        scan(text, i) matches Some((r, k)) && scan(
            text.subrange(0, k) + w + text.subrange(k, text.len() as int),
            i,
        ) == Some((r, k)),
{
    lemma_scan_progress(text, i);
    let (r, k) = scan(text, i)->0;
    let t2 = text.subrange(0, k) + w + text.subrange(k, text.len() as int);
    assert(t2.len() == text.len() + w.len());
    assert forall|m: int| 0 <= m < k implies #[trigger] t2[m] == text[m] by {}
    assert(t2[k] == w[0]);
    lemma_run_end(text, i, CharClass::Whitespace);
    let j = run_end(text, i, CharClass::Whitespace);
    lemma_run_end(text, j, CharClass::Digit);
    lemma_run_end(text, j, CharClass::Letter);
    lemma_run_end(text, j + 1, CharClass::NotQuote);
    assert(j < k);
    assert forall|m: int| i <= m < j implies in_class(#[trigger] t2[m], CharClass::Whitespace) by {
        assert(t2[m] == text[m]);
    }
    lemma_run_end_at(t2, i, j, CharClass::Whitespace);
    let c = text[j];
    if single(c) is Some {
    } else if pair(c) is Some {
    } else if c == '"' {
        lemma_run_end(text, j + 1, CharClass::NotQuote);
        let q = run_end(text, j + 1, CharClass::NotQuote);
        assert forall|m: int| j + 1 <= m < q implies in_class(
            #[trigger] t2[m],
            CharClass::NotQuote,
        ) by {
            assert(t2[m] == text[m]);
        }
        lemma_run_end_at(t2, j + 1, q, CharClass::NotQuote);
        assert(t2.subrange(j + 1, q) =~= text.subrange(j + 1, q));
    } else if is_digit(c) {
        lemma_run_end(text, j, CharClass::Digit);
        assert forall|m: int| j <= m < k implies in_class(#[trigger] t2[m], CharClass::Digit) by {
            assert(t2[m] == text[m]);
        }
        lemma_run_end_at(t2, j, k, CharClass::Digit);
        assert(t2.subrange(j, k) =~= text.subrange(j, k));
    } else if is_letter(c) {
        lemma_run_end(text, j, CharClass::Letter);
        assert forall|m: int| j <= m < k implies in_class(#[trigger] t2[m], CharClass::Letter) by {
            assert(t2[m] == text[m]);
        }
        lemma_run_end_at(t2, j, k, CharClass::Letter);
        assert(t2.subrange(j, k) =~= text.subrange(j, k));
    }
}

proof fn lemma_single_step_tokens(s: Seq<char>, r: Result<TokenView, LexerErrorView>)
    requires
        scan(s, 0) == Some((r, s.len() as int)),
    ensures
        tokens(s) == seq![r],
{
    lemma_tokens_from_step(s, 0);
    lemma_tokens_from_step(s, s.len() as int);
    lemma_run_end_at(s, s.len() as int, s.len() as int, CharClass::Whitespace);
    assert(seq![r] + Seq::<Result<TokenView, LexerErrorView>>::empty() =~= seq![r]);
}

proof fn lemma_word_scan(s: Seq<char>)
    requires
        s.len() > 0,
        forall|m: int| 0 <= m < s.len() ==> is_letter(#[trigger] s[m]),
    ensures
        scan(s, 0) == Some((Ok::<TokenView, LexerErrorView>(classify(s)), s.len() as int)),
{
    assert(is_letter(s[0]));
    lemma_run_end_at(s, 0, 0, CharClass::Whitespace);
    assert forall|m: int| 0 <= m < s.len() implies in_class(#[trigger] s[m], CharClass::Letter) by {
        assert(is_letter(s[m]));
    }
    lemma_run_end_at(s, 0, s.len() as int, CharClass::Letter);
    assert(s.subrange(0, s.len() as int) =~= s);
}

/// Rendering a token that is neither a literal nor one of the in-band
/// markers `Eof` and `Illegal`, then scanning the rendered text, gives back
/// exactly that token.
pub proof fn law_render_rescan(k: TokenKind)
    requires
        is_plain(k),
        k != TokenKind::Eof,
        k != TokenKind::Illegal,
    ensures
        tokens(rendering(TokenView::Plain(k))) == seq![
            Ok::<TokenView, LexerErrorView>(TokenView::Plain(k)),
        ],
{
    let s = spelling(k);
    match k {
        TokenKind::Function | TokenKind::Let | TokenKind::If | TokenKind::Else | TokenKind::True
        | TokenKind::False | TokenKind::Return => {
            lemma_word_scan(s);
        },
        _ => {
            lemma_run_end_at(s, 0, 0, CharClass::Whitespace);
        },
    }
    lemma_single_step_tokens(s, Ok(TokenView::Plain(k)));
}

/// A scanning outcome seen from a text with `b` more bytes in front:
/// error offsets move by `b` bytes; tokens stay as they are.
pub open spec fn shift_outcome(
    r: Result<TokenView, LexerErrorView>,
    b: int,
) -> Result<TokenView, LexerErrorView> {
    match r {
        Ok(t) => Ok(t),
        Err(e) => Err(
            match e {
                LexerErrorView::UnexpectedCharacter(c, at) => LexerErrorView::UnexpectedCharacter(
                    c,
                    at + b,
                ),
                LexerErrorView::InvalidNumber(s, from, to) => LexerErrorView::InvalidNumber(
                    s,
                    from + b,
                    to + b,
                ),
                LexerErrorView::UnterminatedString(at) => LexerErrorView::UnterminatedString(
                    at + b,
                ),
            },
        ),
    }
}

/// A whole token sequence seen from a text with `b` more bytes in front.
pub open spec fn shift_all(
    v: Seq<Result<TokenView, LexerErrorView>>,
    b: int,
) -> Seq<Result<TokenView, LexerErrorView>> {
    v.map_values(|r: Result<TokenView, LexerErrorView>| shift_outcome(r, b))
}

/// A step of `scan` seen from a text with `n` more characters, encoded in
/// `b` more bytes, in front: the step ends `n` characters later and error
/// offsets move by `b` bytes.
pub open spec fn shifted(
    o: Option<(Result<TokenView, LexerErrorView>, int)>,
    n: int,
    b: int,
) -> Option<(Result<TokenView, LexerErrorView>, int)> {
    match o {
        None => None,
        Some((r, k)) => Some((shift_outcome(r, b), k + n)),
    }
}

proof fn lemma_run_end_suffix(p: Seq<char>, s: Seq<char>, i: int, cls: CharClass)
    requires
        0 <= i <= s.len(),
    ensures
        run_end(p + s, p.len() + i, cls) == p.len() + run_end(s, i, cls),
{
    let t = p + s;
    lemma_run_end(s, i, cls);
    let e = run_end(s, i, cls);
    assert forall|m: int| p.len() + i <= m < p.len() + e implies in_class(
        #[trigger] t[m],
        cls,
    ) by {
        assert(t[m] == s[m - p.len()]);
    }
    if e < s.len() {
        assert(t[p.len() + e] == s[e]);
    }
    lemma_run_end_at(t, p.len() + i, p.len() + e, cls);
}

proof fn lemma_byte_offset_suffix(p: Seq<char>, s: Seq<char>, i: int)
    requires
        0 <= i <= s.len(),
    ensures
        byte_offset(p + s, p.len() + i) == encode_utf8(p).len() + byte_offset(s, i),
{
    assert((p + s).subrange(0, p.len() + i) =~= p + s.subrange(0, i));
    lemma_encode_concat(p, s.subrange(0, i));
}

/// Scanning behind a prefix is scanning the rest alone, shifted by the
/// prefix's length.
pub proof fn lemma_scan_suffix(p: Seq<char>, s: Seq<char>, i: int)
    requires
        0 <= i <= s.len(),
    ensures
        scan(p + s, p.len() + i) == shifted(scan(s, i), p.len() as int, encode_utf8(p).len() as int),
{
    let t = p + s;
    let n = p.len() as int;
    assert forall|m: int| 0 <= m < s.len() implies #[trigger] t[n + m] == s[m] by {}
    lemma_run_end_suffix(p, s, i, CharClass::Whitespace);
    lemma_run_end(s, i, CharClass::Whitespace);
    let j = run_end(s, i, CharClass::Whitespace);
    if j < s.len() {
        assert(t[n + j] == s[j]);
        if j + 1 < s.len() {
            assert(t[n + j + 1] == s[j + 1]);
        }
        lemma_byte_offset_suffix(p, s, j);
        lemma_run_end_suffix(p, s, j, CharClass::Digit);
        lemma_run_end_suffix(p, s, j, CharClass::Letter);
        lemma_run_end_suffix(p, s, j + 1, CharClass::NotQuote);
        lemma_run_end(s, j, CharClass::Digit);
        lemma_run_end(s, j, CharClass::Letter);
        lemma_run_end(s, j + 1, CharClass::NotQuote);
        let kd = run_end(s, j, CharClass::Digit);
        let kl = run_end(s, j, CharClass::Letter);
        let kq = run_end(s, j + 1, CharClass::NotQuote);
        lemma_byte_offset_suffix(p, s, kd);
        lemma_byte_offset_suffix(p, s, kq);
        assert(t.subrange(n + j, n + kd) =~= s.subrange(j, kd));
        assert(t.subrange(n + j, n + kl) =~= s.subrange(j, kl));
        assert(t.subrange(n + j + 1, n + kq) =~= s.subrange(j + 1, kq));
    }
}

/// The whole token sequence behind a prefix is that of the rest alone,
/// with error offsets moved by the prefix's bytes.
pub proof fn lemma_tokens_suffix(p: Seq<char>, s: Seq<char>, i: int)
    requires
        0 <= i <= s.len(),
    ensures
        tokens_from(p + s, p.len() + i) == shift_all(tokens_from(s, i), encode_utf8(p).len() as int),
    decreases s.len() - i,
{
    let b = encode_utf8(p).len() as int;
    lemma_scan_suffix(p, s, i);
    lemma_scan_progress(s, i);
    lemma_tokens_from_step(s, i);
    lemma_tokens_from_step(p + s, p.len() + i);
    match scan(s, i) {
        None => {
            assert(shift_all(tokens_from(s, i), b) =~= Seq::<
                Result<TokenView, LexerErrorView>,
            >::empty());
        },
        Some((r, k)) => {
            lemma_tokens_suffix(p, s, k);
            assert(shift_all(seq![r] + tokens_from(s, k), b) =~= seq![shift_outcome(r, b)]
                + shift_all(tokens_from(s, k), b));
        },
    }
}

/// Whitespace put between two parts of a text produces no token and
/// changes no token after it: from the insertion point on, the token
/// sequence is the same, with error offsets moved by the whitespace's bytes.
pub proof fn law_whitespace_sequence(a: Seq<char>, w: Seq<char>, b: Seq<char>)
    requires
        forall|m: int| 0 <= m < w.len() ==> is_whitespace(#[trigger] w[m]),
    ensures
        tokens_from(a + w + b, a.len() as int) == shift_all(
            tokens_from(a + b, a.len() as int),
            w.len() as int,
        ),
{
    let t = a + w + b;
    assert(t =~= (a + w) + b);
    lemma_tokens_suffix(a, b, 0);
    lemma_tokens_suffix(a + w, b, 0);
    assert forall|m: int| a.len() <= m < a.len() + w.len() implies is_whitespace(#[trigger] t[m]) by {
        assert(t[m] == w[m - a.len()]);
    }
    law_whitespace_skipped(t, a.len() as int, (a.len() + w.len()) as int);
    lemma_encode_concat(a, w);
    lemma_whitespace_bytes(w);
    let x = tokens_from(b, 0);
    let ba = encode_utf8(a).len() as int;
    assert(shift_all(x, ba + w.len()) =~= shift_all(shift_all(x, ba), w.len() as int));
}

/// Whitespace is ASCII: one byte per character.
proof fn lemma_whitespace_bytes(w: Seq<char>)
    requires
        forall|m: int| 0 <= m < w.len() ==> is_whitespace(#[trigger] w[m]),
    ensures
        encode_utf8(w).len() == w.len(),
    decreases w.len(),
{
    if w.len() > 0 {
        assert(is_whitespace(w[0]));
        assert forall|m: int| 0 <= m < w.drop_first().len() implies is_whitespace(
            #[trigger] w.drop_first()[m],
        ) by {
            assert(w.drop_first()[m] == w[m + 1]);
        }
        lemma_whitespace_bytes(w.drop_first());
    }
}
/// True of the error for a string literal left open.
pub open spec fn is_unterminated(r: Result<TokenView, LexerErrorView>) -> bool {
    r matches Err(LexerErrorView::UnterminatedString(_))
}

/// A step within `a` gives the same outcome in a longer text that agrees
/// with `a` and has whitespace right after it, unless the step left a
/// string open.
proof fn lemma_scan_prefix(a: Seq<char>, t: Seq<char>, i: int)
    requires
        0 <= i <= a.len() < t.len(),
        forall|m: int| 0 <= m < a.len() ==> #[trigger] t[m] == a[m],
        is_whitespace(t[a.len() as int]),
        scan(a, i) matches Some((r, _)) ==> !is_unterminated(r),
    ensures
        scan(a, i) is Some ==> scan(t, i) == scan(a, i),
        scan(a, i) matches Some((_, k)) ==> k <= a.len(),
{
    lemma_scan_progress(a, i);
    lemma_run_end(a, i, CharClass::Whitespace);
    let j = run_end(a, i, CharClass::Whitespace);
    if j < a.len() {
        lemma_run_end_at(t, i, j, CharClass::Whitespace);
        assert(t.subrange(0, j) =~= a.subrange(0, j));
        let c = a[j];
        lemma_run_end(a, j, CharClass::Digit);
        lemma_run_end(a, j, CharClass::Letter);
        lemma_run_end(a, j + 1, CharClass::NotQuote);
        let kd = run_end(a, j, CharClass::Digit);
        let kl = run_end(a, j, CharClass::Letter);
        let kq = run_end(a, j + 1, CharClass::NotQuote);
        if j + 1 < a.len() {
            assert(t[j + 1] == a[j + 1]);
        } else {
            assert(t[j + 1] == t[a.len() as int]);
        }
        if c == '"' && kq < a.len() {
            lemma_run_end_at(t, j + 1, kq, CharClass::NotQuote);
            assert(t.subrange(j + 1, kq) =~= a.subrange(j + 1, kq));
        }
        if is_digit(c) {
            assert(kd == a.len() ==> t[kd] == t[a.len() as int]);
            lemma_run_end_at(t, j, kd, CharClass::Digit);
            assert(t.subrange(j, kd) =~= a.subrange(j, kd));
            assert(t.subrange(0, kd) =~= a.subrange(0, kd));
        }
        if is_letter(c) {
            assert(kl == a.len() ==> t[kl] == t[a.len() as int]);
            lemma_run_end_at(t, j, kl, CharClass::Letter);
            assert(t.subrange(j, kl) =~= a.subrange(j, kl));
        }
    }
}

proof fn lemma_tokens_prefix(a: Seq<char>, t: Seq<char>, i: int)
    requires
        0 <= i <= a.len() < t.len(),
        forall|m: int| 0 <= m < a.len() ==> #[trigger] t[m] == a[m],
        is_whitespace(t[a.len() as int]),
        forall|m: int| 0 <= m < tokens_from(a, i).len() ==> !is_unterminated(
            #[trigger] tokens_from(a, i)[m],
        ),
    ensures
        tokens_from(t, i) == tokens_from(a, i) + tokens_from(t, a.len() as int),
    decreases a.len() - i,
{
    lemma_tokens_from_step(a, i);
    lemma_tokens_from_step(t, i);
    lemma_scan_progress(a, i);
    match scan(a, i) {
        None => {
            lemma_run_end(a, i, CharClass::Whitespace);
            assert forall|m: int| i <= m < a.len() implies is_whitespace(#[trigger] t[m]) by {
                assert(in_class(a[m], CharClass::Whitespace));
            }
            law_whitespace_skipped(t, i, a.len() as int);
            assert(tokens_from(a, i) + tokens_from(t, a.len() as int) =~= tokens_from(
                t,
                a.len() as int,
            ));
        },
        Some((r, k)) => {
            assert(tokens_from(a, i)[0] == r);
            lemma_scan_prefix(a, t, i);
            assert forall|m: int| 0 <= m < tokens_from(a, k).len() implies !is_unterminated(
                #[trigger] tokens_from(a, k)[m],
            ) by {
                assert(tokens_from(a, k)[m] == tokens_from(a, i)[m + 1]);
            }
            lemma_tokens_prefix(a, t, k);
            assert(seq![r] + (tokens_from(a, k) + tokens_from(t, a.len() as int)) =~= (seq![r]
                + tokens_from(a, k)) + tokens_from(t, a.len() as int));
        },
    }
}

/// Whitespace between two texts produces no token and changes no token on
/// either side: the tokens of `a`, then those of `b`, whose error offsets
/// move by the bytes in front of `b`. This needs `a` not to end inside an
/// open string literal, which `b` could close.
pub proof fn law_whitespace_between(a: Seq<char>, w: Seq<char>, b: Seq<char>)
    requires
        w.len() > 0,
        forall|m: int| 0 <= m < w.len() ==> is_whitespace(#[trigger] w[m]),
        forall|m: int| 0 <= m < tokens(a).len() ==> !is_unterminated(#[trigger] tokens(a)[m]),
    ensures
        tokens(a + w + b) == tokens(a) + shift_all(
            tokens(b),
            (encode_utf8(a).len() + w.len()) as int,
        ),
{
    let t = a + w + b;
    assert(t =~= (a + w) + b);
    assert forall|m: int| 0 <= m < a.len() implies #[trigger] t[m] == a[m] by {}
    assert(t[a.len() as int] == w[0]);
    assert forall|m: int| 0 <= m < tokens_from(a, 0).len() implies !is_unterminated(
        #[trigger] tokens_from(a, 0)[m],
    ) by {
        assert(tokens(a)[m] == tokens_from(a, 0)[m]);
    }
    lemma_tokens_prefix(a, t, 0);
    assert forall|m: int| a.len() <= m < a.len() + w.len() implies is_whitespace(#[trigger] t[m]) by {
        assert(t[m] == w[m - a.len()]);
    }
    law_whitespace_skipped(t, a.len() as int, (a.len() + w.len()) as int);
    lemma_tokens_suffix(a + w, b, 0);
    lemma_encode_concat(a, w);
    lemma_whitespace_bytes(w);
}
} // verus!
