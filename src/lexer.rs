//! The scanner: a single forward pass over the source text that produces one
//! token, or one error, per call.

use vstd::prelude::*;
use vstd::std_specs::iter::IteratorSpec;
use vstd::utf8::{char_is_scalar, encode_utf8};

use crate::error::{LexerError, LexerErrorView};
use crate::grammar::{
    byte_offset, char_width, digits_value, in_class, is_digit, is_letter,
    lemma_byte_offset_monotone, lemma_byte_offset_step, lemma_run_end, lemma_scan_progress,
    lemma_tokens_from_step, pair, run_end, scan, single, tokens, tokens_from, CharClass,
};
use crate::text::push_char;
use crate::token::{classify, Token, TokenKind, TokenView};

verus! {

/// Where the scanner stands: the index of the next unread character, the
/// byte offset of the character read last (`position`), and the byte offset
/// of the next unread character (`next_position`).
#[derive(Clone, Copy)]
struct Offsets {
    index: usize,
    position: usize,
    next_position: usize,
}

/// A scanner over a source text.
pub struct Lexer {
    chars: Vec<char>,
    at: Offsets,
}

/// The mathematical value of a scanning outcome.
pub open spec fn outcome(r: Result<Token, LexerError>) -> Result<TokenView, LexerErrorView> {
    match r {
        Ok(t) => Ok(t@),
        Err(e) => Err(e@),
    }
}

/// What `Lexer::next_token` returns from index `i`, and the index where it
/// leaves the cursor.
pub open spec fn lexed(text: Seq<char>, i: int) -> (TokenView, int) {
    match scan(text, i) {
        None => (TokenView::Plain(TokenKind::Eof), text.len() as int),
        Some((Ok(t), k)) => (t, k),
        Some((Err(_), k)) => (TokenView::Plain(TokenKind::Illegal), k),
    }
}

/// The number of bytes that encode `c` in UTF-8.
fn utf8_width(c: char) -> (r: usize)
    ensures
        r == char_width(c),
        1 <= r <= 4,
{
    proof {
        char_is_scalar(c);
    }
    let u = c as u32;
    if u < 0x80 {
        1
    } else if u < 0x800 {
        2
    } else if u < 0x10000 {
        3
    } else {
        4
    }
}

/// Whether `c` belongs to the class `cls`.
fn class_contains(cls: CharClass, c: char) -> (r: bool)
    ensures
        r == in_class(c, cls),
{
    match cls {
        CharClass::Whitespace => c == ' ' || c == '\t' || c == '\n' || c == '\r',
        CharClass::Letter => ('a' <= c && c <= 'z') || ('A' <= c && c <= 'Z') || c == '_',
        CharClass::Digit => '0' <= c && c <= '9',
        CharClass::NotQuote => c != '"',
    }
}

/// The token that the character spells alone, if it spells one whatever
/// follows it.
fn single_kind(c: char) -> (r: Option<TokenKind>)
    ensures
        r == single(c),
{
    if c == ',' {
        Some(TokenKind::Comma)
    } else if c == ';' {
        Some(TokenKind::Semicolon)
    } else if c == '(' {
        Some(TokenKind::LeftParen)
    } else if c == ')' {
        Some(TokenKind::RightParen)
    } else if c == '{' {
        Some(TokenKind::LeftBrace)
    } else if c == '}' {
        Some(TokenKind::RightBrace)
    } else if c == '+' {
        Some(TokenKind::Plus)
    } else if c == '-' {
        Some(TokenKind::Minus)
    } else if c == '*' {
        Some(TokenKind::Asterisk)
    } else if c == '/' {
        Some(TokenKind::Slash)
    } else {
        None
    }
}

/// For a character that starts a composite operator: the token it spells
/// alone, and the composite it forms with a following `=`.
fn pair_kinds(c: char) -> (r: Option<(TokenKind, TokenKind)>)
    ensures
        r == pair(c),
{
    if c == '=' {
        Some((TokenKind::Assign, TokenKind::Equal))
    } else if c == '!' {
        Some((TokenKind::Bang, TokenKind::NotEqual))
    } else if c == '<' {
        Some((TokenKind::LessThan, TokenKind::LessThanEqual))
    } else if c == '>' {
        Some((TokenKind::GreaterThan, TokenKind::GreaterThanEqual))
    } else {
        None
    }
}

impl Lexer {
    #[verifier::type_invariant]
    spec fn well_formed(self) -> bool {
        &&& self.at.index <= self.chars@.len()
        &&& self.at.next_position == byte_offset(self.chars@, self.at.index as int)
        &&& self.at.position <= self.at.next_position
        &&& byte_offset(self.chars@, self.chars@.len() as int) <= usize::MAX
    }

    /// The source text.
    pub closed spec fn text(&self) -> Seq<char> {
        self.chars@
    }

    /// The index of the next unread character.
    pub closed spec fn cursor(&self) -> int {
        self.at.index as int
    }

    /// The next unread character, left unread.
    fn peek_char(&self) -> (r: Option<char>)
        ensures
            r == (if self.cursor() < self.text().len() {
                Some(self.text()[self.cursor()])
            } else {
                None::<char>
            }),
    {
        proof {
            use_type_invariant(self);
        }
        if self.at.index < self.chars.len() {
            Some(self.chars[self.at.index])
        } else {
            None
        }
    }

    /// Consumes the next character.
    fn read_char(&mut self) -> (r: Option<char>)
        ensures
            final(self).text() == old(self).text(),
            old(self).cursor() < old(self).text().len() ==> {
                &&& r == Some(old(self).text()[old(self).cursor()])
                &&& final(self).cursor() == old(self).cursor() + 1
                &&& final(self).at.position == old(self).at.next_position
            },
            old(self).cursor() >= old(self).text().len() ==> r is None && *final(self) == *old(self),
    {
        proof {
            use_type_invariant(&*self);
        }
        if self.at.index < self.chars.len() {
            let c = self.chars[self.at.index];
            let w = utf8_width(c);
            proof {
                lemma_byte_offset_step(self.chars@, self.at.index as int);
                lemma_byte_offset_monotone(
                    self.chars@,
                    self.at.index as int + 1,
                    self.chars@.len() as int,
                );
            }
            self.at = Offsets {
                index: self.at.index + 1,
                position: self.at.next_position,
                next_position: self.at.next_position + w,
            };
            Some(c)
        } else {
            None
        }
    }

    /// Consumes the maximal run of `cls` characters at the cursor.
    fn read_while(&mut self, cls: CharClass)
        ensures
            final(self).text() == old(self).text(),
            final(self).cursor() == run_end(old(self).text(), old(self).cursor(), cls),
            final(self).cursor() == old(self).cursor() ==> *final(self) == *old(self),
    {
        loop
            invariant
                self.text() == old(self).text(),
                old(self).cursor() <= self.cursor(),
                run_end(self.text(), self.cursor(), cls) == run_end(
                    self.text(),
                    old(self).cursor(),
                    cls,
                ),
                self.cursor() == old(self).cursor() ==> *self == *old(self),
            ensures
                final(self).text() == old(self).text(),
                final(self).cursor() == run_end(old(self).text(), old(self).cursor(), cls),
                final(self).cursor() == old(self).cursor() ==> *final(self) == *old(self),
            decreases self.text().len() - self.cursor(),
        {
            proof {
                use_type_invariant(&*self);
            }
            match self.peek_char() {
                Some(c) => {
                    if class_contains(cls, c) {
                        self.read_char();
                    } else {
                        break ;
                    }
                },
                None => {
                    break ;
                },
            }
        }
    }

    /// Skips the whitespace at the cursor.
    fn skip_whitespace(&mut self)
        ensures
            final(self).text() == old(self).text(),
            final(self).cursor() == run_end(
                old(self).text(),
                old(self).cursor(),
                CharClass::Whitespace,
            ),
    {
        self.read_while(CharClass::Whitespace);
    }

    /// The characters from index `from` up to index `to`.
    fn collect(&self, from: usize, to: usize) -> (r: String)
        requires
            from <= to <= self.text().len(),
        ensures
            r@ == self.text().subrange(from as int, to as int),
    {
        let mut s = String::new();
        let mut i = from;
        while i < to
            invariant
                from <= i <= to <= self.chars@.len(),
                s@ == self.chars@.subrange(from as int, i as int),
            decreases to - i,
        {
            push_char(&mut s, self.chars[i]);
            assert(s@ =~= self.chars@.subrange(from as int, i + 1));
            i = i + 1;
        }
        s
    }

    /// The value of the digit run from index `from` up to index `to`, or
    /// `None` when it exceeds `i64::MAX`.
    fn number_value(&self, from: usize, to: usize) -> (r: Option<i64>)
        requires
            from <= to <= self.text().len(),
            forall|k: int| from <= k < to ==> is_digit(#[trigger] self.text()[k]),
        ensures
            digits_value(self.text().subrange(from as int, to as int)) <= i64::MAX ==> r == Some(
                digits_value(self.text().subrange(from as int, to as int)) as i64,
            ),
            digits_value(self.text().subrange(from as int, to as int)) > i64::MAX ==> r is None,
    {
        let mut value: i64 = 0;
        let mut overflow = false;
        let mut i = from;
        while i < to
            invariant
                from <= i <= to <= self.chars@.len(),
                forall|k: int| from <= k < to ==> is_digit(#[trigger] self.chars@[k]),
                !overflow ==> value as int == digits_value(
                    self.chars@.subrange(from as int, i as int),
                ),
                overflow ==> digits_value(self.chars@.subrange(from as int, i as int)) > i64::MAX,
            decreases to - i,
        {
            let ghost before = self.chars@.subrange(from as int, i as int);
            let ghost after = self.chars@.subrange(from as int, i + 1);
            assert(after.drop_last() =~= before);
            assert(after.last() == self.chars@[i as int]);
            let d = (self.chars[i] as u32 - '0' as u32) as i64;
            assert(0 <= d <= 9);
            if !overflow {
                if value > (i64::MAX - d) / 10 {
                    assert(value * 10 + d > i64::MAX) by (nonlinear_arith)
                        requires
                            value > (i64::MAX - d) / 10,
                            0 <= d <= 9,
                    ;
                    overflow = true;
                } else {
                    assert(value * 10 + d <= i64::MAX) by (nonlinear_arith)
                        requires
                            value <= (i64::MAX - d) / 10,
                            0 <= d <= 9,
                    ;
                    value = value * 10 + d;
                }
            }
            i = i + 1;
        }
        if overflow {
            None
        } else {
            Some(value)
        }
    }

    /// Decides between an operator alone and its composite with `=`, by
    /// looking at the next character without consuming it unless it is `=`.
    fn lex_combined_operator(&mut self, combined: Token, single: Token) -> (r: Token)
        ensures
            final(self).text() == old(self).text(),
            ({
                let text = old(self).text();
                let i = old(self).cursor();
                if i < text.len() && text[i] == '=' {
                    r == combined && final(self).cursor() == i + 1
                } else {
                    r == single && final(self).cursor() == i
                }
            }),
    {
        if self.peek_char() == Some('=') {
            self.read_char();
            combined
        } else {
            single
        }
    }

    /// Scans a string literal whose opening quote was just read.
    fn lex_string(&mut self) -> (r: Result<Token, LexerError>)
        ensures
            final(self).text() == old(self).text(),
            ({
                let text = old(self).text();
                let k = run_end(text, old(self).cursor(), CharClass::NotQuote);
                if k < text.len() {
                    outcome(r) == Ok::<TokenView, LexerErrorView>(
                        TokenView::Str(text.subrange(old(self).cursor(), k)),
                    ) && final(self).cursor() == k + 1
                } else {
                    outcome(r) == Err::<TokenView, LexerErrorView>(
                        LexerErrorView::UnterminatedString(byte_offset(text, k)),
                    ) && final(self).cursor() == k
                }
            }),
    {
        proof {
            use_type_invariant(&*self);
        }
        let from = self.at.index;
        self.read_while(CharClass::NotQuote);
        proof {
            use_type_invariant(&*self);
            lemma_run_end(self.chars@, from as int, CharClass::NotQuote);
        }
        let to = self.at.index;
        match self.read_char() {
            Some(_) => Ok(Token::String(self.collect(from, to))),
            None => Err(LexerError::UnterminatedString(self.at.next_position)),
        }
    }

    /// Scans an integer literal whose first digit was just read.
    fn lex_number(&mut self) -> (r: Result<Token, LexerError>)
        requires
            0 < old(self).cursor(),
            is_digit(old(self).text()[old(self).cursor() - 1]),
            old(self).at.position == byte_offset(old(self).text(), old(self).cursor() - 1),
        ensures
            final(self).text() == old(self).text(),
            ({
                let text = old(self).text();
                let j = old(self).cursor() - 1;
                let k = run_end(text, j, CharClass::Digit);
                let v = digits_value(text.subrange(j, k));
                &&& final(self).cursor() == k
                &&& v <= i64::MAX ==> outcome(r) == Ok::<TokenView, LexerErrorView>(
                    TokenView::Int(v as i64),
                )
                &&& v > i64::MAX ==> outcome(r) == Err::<TokenView, LexerErrorView>(
                    LexerErrorView::InvalidNumber(
                        text.subrange(j, k),
                        byte_offset(text, j),
                        byte_offset(text, k),
                    ),
                )
            }),
    {
        proof {
            use_type_invariant(&*self);
        }
        let from = self.at.index - 1;
        let start = self.at.position;
        self.read_while(CharClass::Digit);
        proof {
            use_type_invariant(&*self);
            lemma_run_end(self.chars@, from as int, CharClass::Digit);
        }
        let to = self.at.index;
        let end = self.at.next_position;
        match self.number_value(from, to) {
            Some(v) => Ok(Token::Int(v)),
            None => Err(LexerError::InvalidNumber(self.collect(from, to), (start, end))),
        }
    }

    /// Scans an identifier or keyword whose first letter was just read.
    fn lex_ident(&mut self) -> (r: Result<Token, LexerError>)
        requires
            0 < old(self).cursor(),
            is_letter(old(self).text()[old(self).cursor() - 1]),
        ensures
            final(self).text() == old(self).text(),
            ({
                let text = old(self).text();
                let j = old(self).cursor() - 1;
                let k = run_end(text, j, CharClass::Letter);
                &&& final(self).cursor() == k
                &&& outcome(r) == Ok::<TokenView, LexerErrorView>(classify(text.subrange(j, k)))
            }),
    {
        proof {
            use_type_invariant(&*self);
        }
        let from = self.at.index - 1;
        self.read_while(CharClass::Letter);
        proof {
            use_type_invariant(&*self);
            lemma_run_end(self.chars@, from as int, CharClass::Letter);
        }
        let word = self.collect(from, self.at.index);
        Ok(Token::lookup_identifier(word.as_str()))
    }

    /// Produces the next token or lexical error, or `None` once only
    /// whitespace is left. Whitespace before the token is skipped; the
    /// cursor moves exactly past what was consumed. After an error the
    /// cursor stands past the offending text, so scanning can go on.
    pub fn next(&mut self) -> (r: Option<Result<Token, LexerError>>)
        ensures
            final(self).text() == old(self).text(),
            r is None <==> scan(old(self).text(), old(self).cursor()) is None,
            r is None ==> final(self).cursor() == old(self).text().len(),
            r matches Some(x) ==> scan(old(self).text(), old(self).cursor()) == Some(
                (outcome(x), final(self).cursor()),
            ),
            old(self).cursor() <= old(self).text().len(),
            final(self).cursor() <= final(self).text().len(),
            r is Some ==> old(self).cursor() < final(self).cursor(),
            r is None ==> tokens_from(old(self).text(), old(self).cursor()) == Seq::<
                Result<TokenView, LexerErrorView>,
            >::empty(),
            r matches Some(x) ==> tokens_from(old(self).text(), old(self).cursor()) == seq![
                outcome(x),
            ] + tokens_from(final(self).text(), final(self).cursor()),
    {
        proof {
            use_type_invariant(&*self);
            lemma_run_end(self.chars@, self.at.index as int, CharClass::Whitespace);
        }
        self.skip_whitespace();
        proof {
            use_type_invariant(&*self);
        }
        let ghost j = self.cursor();
        proof {
            lemma_scan_progress(old(self).text(), old(self).cursor());
            lemma_tokens_from_step(old(self).text(), old(self).cursor());
        }
        let c = match self.read_char() {
            Some(c) => c,
            None => {
                return None;
            },
        };
        proof {
            use_type_invariant(&*self);
        }
        let r = match single_kind(c) {
            Some(k) => Ok(Token::plain(k)),
            None => match pair_kinds(c) {
                Some((alone, composite)) => Ok(
                    self.lex_combined_operator(Token::plain(composite), Token::plain(alone)),
                ),
                None => {
                    if c == '"' {
                        self.lex_string()
                    } else if class_contains(CharClass::Digit, c) {
                        self.lex_number()
                    } else if class_contains(CharClass::Letter, c) {
                        self.lex_ident()
                    } else {
                        Err(LexerError::UnexpectedCharacter(c, self.at.position))
                    }
                },
            },
        };
        Some(r)
    }

    /// Produces the next token, reporting in-band: `Eof` once only
    /// whitespace is left (and on every later call), `Illegal` where `next`
    /// would report a lexical error.
    pub fn next_token(&mut self) -> (r: Token)
        ensures
            final(self).text() == old(self).text(),
            0 <= old(self).cursor() <= old(self).text().len(),
            0 <= final(self).cursor() <= final(self).text().len(),
            ({
                let end = final(self).cursor();
                match scan(old(self).text(), old(self).cursor()) {
                    None => r@ == TokenView::Plain(TokenKind::Eof) && end == old(self).text().len(),
                    Some((Ok(t), k)) => r@ == t && end == k,
                    Some((Err(_), k)) => r@ == TokenView::Plain(TokenKind::Illegal) && end == k,
                }
            }),
            ({
                let end = final(self).cursor();
                scan(old(self).text(), old(self).cursor()) is Some ==> old(self).cursor() < end
            }),
            (r@, final(self).cursor()) == lexed(old(self).text(), old(self).cursor()),
    {
        match self.next() {
            None => Token::Eof,
            Some(Ok(t)) => t,
            Some(Err(_)) => Token::Illegal,
        }
    }

    /// A scanner positioned at the start of `input`.
    pub fn new(input: &str) -> (r: Lexer)
        ensures
            r.text() == input@,
            r.cursor() == 0,
    {
        let mut chars: Vec<char> = Vec::new();
        let mut it = input.chars();
        proof {
            broadcast use vstd::string::group_string_axioms;

        }
        loop
            invariant
                it.obeys_prophetic_iter_laws(),
                chars@ + it.remaining() == input@,
                it.decrease() is Some,
            ensures
                chars@ == input@,
            decreases it.decrease()->0,
        {
            match it.next() {
                Some(c) => {
                    proof {
                        assert(chars@.push(c) + it.remaining() =~= input@);
                    }
                    chars.push(c);
                },
                None => {
                    assert(chars@ =~= input@);
                    break ;
                },
            }
        }
        let total = input.as_bytes().len();
        proof {
            assert(chars@.subrange(0, chars@.len() as int) =~= chars@);
            assert(encode_utf8(Seq::<char>::empty()) =~= Seq::<u8>::empty());
            assert(chars@.subrange(0, 0) =~= Seq::<char>::empty());
        }
        Lexer { chars, at: Offsets { index: 0, position: 0, next_position: 0 } }
    }
}

/// Every token of a sequence, each as a successful outcome.
pub open spec fn all_ok(v: Seq<Token>) -> Seq<Result<TokenView, LexerErrorView>> {
    v.map_values(|t: Token| Ok::<TokenView, LexerErrorView>(t@))
}

/// Scans a whole text, stopping at the first lexical error: all its tokens
/// when there is none, else that first error.
pub fn tokenize(input: &str) -> (r: Result<Vec<Token>, LexerError>)
    ensures
        match r {
            Ok(v) => tokens(input@) == all_ok(v@),
            Err(e) => exists|n: int|
                0 <= n < tokens(input@).len() && tokens(input@)[n] == Err::<
                    TokenView,
                    LexerErrorView,
                >(e@) && forall|m: int| 0 <= m < n ==> (#[trigger] tokens(input@)[m]) is Ok,
        },
{
    let mut lexer = Lexer::new(input);
    let mut out: Vec<Token> = Vec::new();
    loop
        invariant
            lexer.text() == input@,
            0 <= lexer.cursor() <= input@.len(),
            tokens(input@) == all_ok(out@) + tokens_from(input@, lexer.cursor()),
        decreases input@.len() - lexer.cursor(),
    {
        match lexer.next() {
            None => {
                assert(all_ok(out@) + Seq::<Result<TokenView, LexerErrorView>>::empty() =~= all_ok(
                    out@,
                ));
                return Ok(out);
            },
            Some(Ok(t)) => {
                proof {
                    assert(all_ok(out@.push(t)) =~= all_ok(out@) + seq![
                        Ok::<TokenView, LexerErrorView>(t@),
                    ]);
                    assert(all_ok(out@) + (seq![Ok::<TokenView, LexerErrorView>(t@)]
                        + tokens_from(input@, lexer.cursor())) =~= all_ok(out@.push(t))
                        + tokens_from(input@, lexer.cursor()));
                }
                out.push(t);
            },
            Some(Err(e)) => {
                let ghost n = out@.len() as int;
                assert(tokens(input@)[n] == Err::<TokenView, LexerErrorView>(e@));
                assert forall|m: int| 0 <= m < n implies (#[trigger] tokens(input@)[m]) is Ok by {
                    assert(tokens(input@)[m] == all_ok(out@)[m]);
                }
                return Err(e);
            },
        }
    }
}

} // verus!
