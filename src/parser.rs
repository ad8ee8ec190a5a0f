//! A parser for `let` statements, reading tokens from a `Lexer` with one
//! token of lookahead.
//!
//! Its behaviour is stated over `ParseState`, the mathematical value of the
//! parser: the two tokens it holds, the text, and the lexer's cursor.

use vstd::prelude::*;
use vstd::string::StringExecFns;

use crate::ast::{Expression, Identifier, LetStatement, Program, Statement};
use crate::grammar::{lemma_run_end_at, lemma_scan_progress, CharClass};
use crate::lexer::{lexed, Lexer};
use crate::token::{debug_text, Token, TokenKind, TokenView};

verus! {

/// The parser's state: the lexer, the token being parsed, the token after
/// it, and the messages of the errors met so far.
pub struct Parser {
    pub lexer: Lexer,
    pub current_token: Token,
    pub peek_token: Token,
    pub errors: Vec<String>,
}

/// The mathematical value of a parser, errors aside.
pub struct ParseState {
    pub current: TokenView,
    pub peek: TokenView,
    pub text: Seq<char>,
    pub cursor: int,
}

pub open spec fn is_eof(t: TokenView) -> bool {
    t == TokenView::Plain(TokenKind::Eof)
}

/// The kind of a token value.
pub open spec fn kind_of(t: TokenView) -> TokenKind {
    match t {
        TokenView::Ident(_) => TokenKind::Identifier,
        TokenView::Int(_) => TokenKind::Int,
        TokenView::Str(_) => TokenKind::String,
        TokenView::Plain(k) => k,
    }
}

/// One token on: the token after the current one becomes current, and the
/// lexer supplies the next.
pub open spec fn advance(s: ParseState) -> ParseState {
    let (t, k) = lexed(s.text, s.cursor);
    ParseState { current: s.peek, peek: t, text: s.text, cursor: k }
}

/// Once `Eof` is reached it stays: the token after it is `Eof` too, and the
/// lexer has nothing left.
pub open spec fn state_wf(s: ParseState) -> bool {
    &&& 0 <= s.cursor <= s.text.len()
    &&& is_eof(s.current) ==> is_eof(s.peek)
    &&& is_eof(s.peek) ==> s.cursor == s.text.len()
}

/// The tokens still to come: the characters the lexer has left, and the
/// two tokens held unless they are `Eof`.
pub open spec fn state_measure(s: ParseState) -> int {
    (s.text.len() - s.cursor) + (if is_eof(s.peek) {
        0int
    } else {
        1int
    }) + (if is_eof(s.current) {
        0int
    } else {
        1int
    })
}

/// The message recorded when the token after the current one is not of
/// the expected kind: both tokens in their debugging text.
pub open spec fn peek_error_message(expected: TokenView, found: TokenView) -> Seq<char> {
    seq!['e', 'x', 'p', 'e', 'c', 't', 'e', 'd', ' ', 'n', 'e', 'x', 't', ' ', 't', 'o', 'k', 'e',
        'n', ' ', 't', 'o', ' ', 'b', 'e', ' '] + debug_text(expected) + seq![
        '.',
        ' ',
        'g',
        'o',
        't',
        ' ',
    ] + debug_text(found)
}

/// The name an identifier token carries.
pub open spec fn name_of(t: TokenView) -> Seq<char> {
    match t {
        TokenView::Ident(n) => n,
        _ => Seq::empty(),
    }
}

/// Skips to the `;` that ends a statement, or to the end of the tokens.
pub open spec fn skip_to_semicolon(s: ParseState) -> ParseState
    decreases state_measure(s),
{
    if !state_wf(s) || kind_of(s.current) == TokenKind::Semicolon {
        s
    } else {
        let t = advance(s);
        if is_eof(t.current) {
            t
        } else if 0 <= state_measure(t) < state_measure(s) {
            skip_to_semicolon(t)
        } else {
            t
        }
    }
}

/// A `let` statement from a state on `let`: the name it binds, or the
/// error met, and the state after it. `let`, an identifier and `=` are
/// required; what follows, up to `;`, is skipped.
pub open spec fn let_statement(s: ParseState) -> (Option<Seq<char>>, Seq<Seq<char>>, ParseState) {
    if kind_of(s.peek) != TokenKind::Identifier {
        (None, seq![peek_error_message(TokenView::Ident(Seq::empty()), s.peek)], s)
    } else {
        let s1 = advance(s);
        if kind_of(s1.peek) != TokenKind::Assign {
            (None, seq![peek_error_message(TokenView::Plain(TokenKind::Assign), s1.peek)], s1)
        } else {
            (Some(name_of(s1.current)), Seq::empty(), skip_to_semicolon(advance(s1)))
        }
    }
}

/// A statement from a state: only `let` statements are read; on any other
/// token nothing happens.
pub open spec fn statement(s: ParseState) -> (Option<Seq<char>>, Seq<Seq<char>>, ParseState) {
    if s.current == TokenView::Plain(TokenKind::Let) {
        let_statement(s)
    } else {
        (None, Seq::empty(), s)
    }
}

pub open spec fn option_seq(o: Option<Seq<char>>) -> Seq<Seq<char>> {
    match o {
        Some(n) => seq![n],
        None => Seq::empty(),
    }
}

/// A whole program from a state: the names bound by its `let` statements,
/// in order, and the error messages, in order.
pub open spec fn program(s: ParseState) -> (Seq<Seq<char>>, Seq<Seq<char>>)
    decreases state_measure(s),
{
    if !state_wf(s) || is_eof(s.current) {
        (Seq::empty(), Seq::empty())
    } else {
        let (st, errs, s1) = statement(s);
        let s2 = advance(s1);
        if 0 <= state_measure(s2) < state_measure(s) {
            let (names, more) = program(s2);
            (option_seq(st) + names, errs + more)
        } else {
            (option_seq(st), errs)
        }
    }
}

/// A `let` statement on the `let` token, whose name token is the
/// identifier it names, and whose value is the placeholder expression.
pub open spec fn binds_identifier(s: Statement) -> bool {
    match s {
        Statement::Let(l) => l.token@ == TokenView::Plain(TokenKind::Let) && l.name.token@
            == TokenView::Ident(l.name.value@) && l.value == Expression::Dummy,
    }
}

/// The name a statement binds.
pub open spec fn statement_name(s: Statement) -> Seq<char> {
    match s {
        Statement::Let(l) => l.name.value@,
    }
}

pub open spec fn statement_names(v: Seq<Statement>) -> Seq<Seq<char>> {
    v.map_values(|s: Statement| statement_name(s))
}

pub open spec fn option_name(o: Option<Statement>) -> Option<Seq<char>> {
    match o {
        Some(s) => Some(statement_name(s)),
        None => None,
    }
}

/// The texts of a list of messages.
pub open spec fn messages(v: Seq<String>) -> Seq<Seq<char>> {
    v.map_values(|s: String| s@)
}

/// What `lexed` gives from a cursor within the text.
pub proof fn lemma_lexed(text: Seq<char>, i: int)
    requires
        0 <= i <= text.len(),
    ensures
        i <= lexed(text, i).1 <= text.len(),
        is_eof(lexed(text, i).0) ==> lexed(text, i).1 == text.len(),
        !is_eof(lexed(text, i).0) ==> i < lexed(text, i).1,
        i == text.len() ==> lexed(text, i) == (
            TokenView::Plain(TokenKind::Eof),
            text.len() as int,
        ),
{
    lemma_scan_progress(text, i);
    if i == text.len() {
        lemma_run_end_at(text, i, i, CharClass::Whitespace);
    }
}

/// Advancing keeps a state well formed, ends at a fixed point once `Eof`
/// is current, and before that brings the end closer.
pub proof fn lemma_advance(s: ParseState)
    requires
        state_wf(s),
    ensures
        state_wf(advance(s)),
        is_eof(s.current) ==> advance(s) == s,
        !is_eof(s.current) ==> 0 <= state_measure(advance(s)) < state_measure(s),
{
    lemma_lexed(s.text, s.cursor);
}

/// The kind of a token's value is the token's kind.
pub proof fn lemma_kind_of_view(t: &Token)
    ensures
        kind_of(t@) == t.kind_spec(),
{
}

impl Parser {
    /// The mathematical value of the parser, errors aside.
    pub open spec fn state(&self) -> ParseState {
        ParseState {
            current: self.current_token@,
            peek: self.peek_token@,
            text: self.lexer.text(),
            cursor: self.lexer.cursor(),
        }
    }

    pub open spec fn well_formed(&self) -> bool {
        state_wf(self.state())
    }

    /// A parser holding the first two tokens that the lexer yields.
    pub fn new(lexer: Lexer) -> (r: Parser)
        ensures
            r.well_formed(),
            r.errors@.len() == 0,
            ({
                let first = lexed(lexer.text(), lexer.cursor());
                let second = lexed(lexer.text(), first.1);
                r.state() == ParseState {
                    current: first.0,
                    peek: second.0,
                    text: lexer.text(),
                    cursor: second.1,
                }
            }),
    {
        let mut lexer = lexer;
        let ghost text = lexer.text();
        let ghost start = lexer.cursor();
        let current_token = lexer.next_token();
        let ghost mid = lexer.cursor();
        let peek_token = lexer.next_token();
        proof {
            lemma_lexed(text, start);
            lemma_lexed(text, mid);
        }
        Parser { lexer, current_token, peek_token, errors: Vec::new() }
    }

    /// Moves one token on: the token after the current one becomes current,
    /// and the lexer supplies the next.
    pub fn next_token(&mut self)
        requires
            old(self).well_formed(),
        ensures
            final(self).well_formed(),
            final(self).state() == advance(old(self).state()),
            final(self).current_token == old(self).peek_token,
            final(self).errors == old(self).errors,
    {
        proof {
            lemma_advance(self.state());
        }
        let mut t = self.lexer.next_token();
        std::mem::swap(&mut self.peek_token, &mut t);
        self.current_token = t;
    }

    /// Parses statements up to the end of the text: the statements are the
    /// `let` statements that `program` reads, in order, and the errors met
    /// are appended to `errors`.
    pub fn parse_program(&mut self) -> (r: Program)
        requires
            old(self).well_formed(),
        ensures
            final(self).well_formed(),
            is_eof(final(self).state().current),
            final(self).lexer.text() == old(self).lexer.text(),
            statement_names(r.statements@) == program(old(self).state()).0,
            messages(final(self).errors@) == messages(old(self).errors@) + program(
                old(self).state(),
            ).1,
            forall|i: int|
                0 <= i < r.statements@.len() ==> binds_identifier(#[trigger] r.statements@[i]),
    {
        let mut statements: Vec<Statement> = Vec::new();
        let ghost s0 = self.state();
        let ghost e0 = messages(self.errors@);
        while !(matches!(self.current_token, Token::Eof))
            invariant
                self.well_formed(),
                self.lexer.text() == s0.text,
                statement_names(statements@) + program(self.state()).0 == program(s0).0,
                messages(self.errors@) + program(self.state()).1 == e0 + program(s0).1,
                forall|i: int|
                    0 <= i < statements@.len() ==> binds_identifier(#[trigger] statements@[i]),
            decreases self.measure(),
        {
            let ghost s = self.state();
            let ghost names = statement_names(statements@);
            let ghost errs = messages(self.errors@);
            let st = self.parse_statement();
            let ghost s1 = self.state();
            let ghost errs1 = messages(self.errors@);
            if let Some(statement) = st {
                statements.push(statement);
            }
            proof {
                assert(statement_names(statements@) =~= names + option_seq(option_name(st)));
            }
            self.next_token();
            proof {
                lemma_advance(s1);
                let (ns, es) = program(self.state());
                assert(program(s) == (option_seq(statement(s).0) + ns, statement(s).1 + es));
                assert(statement_names(statements@) + ns =~= names + (option_seq(statement(s).0)
                    + ns));
                assert(messages(self.errors@) == errs1);
                assert(errs1 + es =~= errs + (statement(s).1 + es));
            }
        }
        proof {
            assert(statement_names(statements@) + Seq::<Seq<char>>::empty() =~= statement_names(
                statements@,
            ));
            assert(messages(self.errors@) + Seq::<Seq<char>>::empty() =~= messages(self.errors@));
        }
        Program { statements }
    }

    /// The tokens still to come, as `state_measure` counts them.
    pub open spec fn measure(&self) -> int {
        state_measure(self.state())
    }

    fn parse_statement(&mut self) -> (r: Option<Statement>)
        requires
            old(self).well_formed(),
            !is_eof(old(self).state().current),
        ensures
            final(self).well_formed(),
            final(self).lexer.text() == old(self).lexer.text(),
            final(self).measure() <= old(self).measure(),
            (option_name(r), messages(final(self).errors@).subrange(
                old(self).errors@.len() as int,
                final(self).errors@.len() as int,
            ), final(self).state()) == statement(old(self).state()),
            messages(final(self).errors@).subrange(0, old(self).errors@.len() as int) == messages(
                old(self).errors@,
            ),
            old(self).errors@.len() <= final(self).errors@.len(),
            r matches Some(s) ==> binds_identifier(s),
    {
        let ghost e = messages(self.errors@);
        let r = match self.current_token {
            Token::Let => self.parse_let_statement(),
            _ => None,
        };
        proof {
            if !(old(self).current_token is Let) {
                assert(messages(self.errors@).subrange(
                    old(self).errors@.len() as int,
                    self.errors@.len() as int,
                ) =~= Seq::<Seq<char>>::empty());
                assert(messages(self.errors@).subrange(0, old(self).errors@.len() as int) =~= e);
            }
        }
        r
    }

    fn parse_let_statement(&mut self) -> (r: Option<Statement>)
        requires
            old(self).well_formed(),
            old(self).current_token is Let,
        ensures
            final(self).well_formed(),
            final(self).lexer.text() == old(self).lexer.text(),
            final(self).measure() <= old(self).measure(),
            (option_name(r), messages(final(self).errors@).subrange(
                old(self).errors@.len() as int,
                final(self).errors@.len() as int,
            ), final(self).state()) == let_statement(old(self).state()),
            messages(final(self).errors@).subrange(0, old(self).errors@.len() as int) == messages(
                old(self).errors@,
            ),
            old(self).errors@.len() <= final(self).errors@.len(),
            r matches Some(s) ==> binds_identifier(s),
    {
        let ghost s = self.state();
        let ghost e = messages(self.errors@);
        let ghost n = self.errors@.len() as int;
        if !self.expect_peek(&Token::Identifier(String::new())) {
            proof {
                assert(messages(self.errors@).subrange(n, n + 1) =~= seq![
                    peek_error_message(TokenView::Ident(Seq::empty()), s.peek),
                ]);
                assert(messages(self.errors@).subrange(0, n) =~= e);
            }
            return None;
        }
        let ghost s1 = self.state();
        let name_value = match &self.current_token {
            Token::Identifier(ident) => ident.clone(),
            _ => {
                proof {
                    lemma_kind_of_view(&self.current_token);
                }
                return None;
            },
        };
        let name = Identifier { token: Token::Identifier(name_value.clone()), value: name_value };
        if !self.expect_peek(&Token::Assign) {
            proof {
                assert(messages(self.errors@).subrange(n, n + 1) =~= seq![
                    peek_error_message(TokenView::Plain(TokenKind::Assign), s1.peek),
                ]);
                assert(messages(self.errors@).subrange(0, n) =~= e);
            }
            return None;
        }
        let ghost s2 = self.state();
        while !self.is_current_token(&Token::Semicolon)
            invariant_except_break
                !is_eof(self.state().current),
            invariant
                self.well_formed(),
                self.measure() <= old(self).measure(),
                self.lexer.text() == old(self).lexer.text(),
                self.errors == old(self).errors,
                skip_to_semicolon(self.state()) == skip_to_semicolon(s2),
            ensures
                self.well_formed(),
                self.measure() <= old(self).measure(),
                self.lexer.text() == old(self).lexer.text(),
                self.errors == old(self).errors,
                self.state() == skip_to_semicolon(s2),
            decreases self.measure(),
        {
            proof {
                lemma_advance(self.state());
            }
            self.next_token();
            if matches!(self.current_token, Token::Eof) {
                break ;
            }
        }
        proof {
            assert(messages(self.errors@).subrange(n, n) =~= Seq::<Seq<char>>::empty());
            assert(messages(self.errors@).subrange(0, n) =~= e);
        }
        Some(Statement::Let(LetStatement { token: Token::Let, name, value: Expression::Dummy }))
    }

    fn is_current_token(&self, token: &Token) -> (r: bool)
        ensures
            r == (self.current_token.kind_spec() == token.kind_spec()),
    {
        self.current_token.kind() == token.kind()
    }

    fn is_peek_token(&self, token: &Token) -> (r: bool)
        ensures
            r == (self.peek_token.kind_spec() == token.kind_spec()),
    {
        self.peek_token.kind() == token.kind()
    }

    /// Moves on when the next token is of the kind of `token`; records an
    /// error, and moves nowhere, otherwise.
    fn expect_peek(&mut self, token: &Token) -> (r: bool)
        requires
            old(self).well_formed(),
            !is_eof(old(self).state().current),
        ensures
            final(self).well_formed(),
            final(self).lexer.text() == old(self).lexer.text(),
            r == (kind_of(old(self).state().peek) == token.kind_spec()),
            ({
                let after = *final(self);
                r ==> after.state() == advance(old(self).state()) && after.current_token == old(
                    self,
                ).peek_token && after.errors == old(self).errors && after.measure() < old(
                    self,
                ).measure()
            }),
            ({
                let after = *final(self);
                !r ==> after.state() == old(self).state() && messages(after.errors@) == messages(
                    old(self).errors@,
                ).push(peek_error_message(token@, old(self).state().peek))
            }),
    {
        proof {
            lemma_advance(self.state());
        }
        if self.is_peek_token(token) {
            self.next_token();
            return true;
        }
        self.peek_error(token);
        false
    }

    fn peek_error(&mut self, expected: &Token)
        ensures
            final(self).lexer == old(self).lexer,
            final(self).current_token == old(self).current_token,
            final(self).peek_token == old(self).peek_token,
            messages(final(self).errors@) == messages(old(self).errors@).push(
                peek_error_message(expected@, old(self).peek_token@),
            ),
    {
        proof {
            reveal_strlit("expected next token to be ");
            reveal_strlit(". got ");
        }
        let mut message = String::from_str("expected next token to be ");
        message.append(expected.debug_text().as_str());
        message.append(". got ");
        message.append(self.peek_token.debug_text().as_str());
        assert(message@ =~= peek_error_message(expected@, self.peek_token@));
        let ghost before = self.errors@;
        self.errors.push(message);
        assert(messages(self.errors@) =~= messages(before).push(message@));
    }
}

} // verus!
