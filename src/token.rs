//! The token model: the lexical categories, their payloads, keyword lookup
//! and the human-readable rendering of a token.

use vstd::prelude::*;
use vstd::string::StringExecFns;

use crate::text::{i64_to_text, int_text};

verus! {

/// The category of a token, without its payload.
#[derive(Clone, Copy, Debug, PartialEq, Eq, Structural)]
pub enum TokenKind {
    Illegal,
    Eof,
    Identifier,
    Int,
    String,
    Assign,
    Plus,
    Minus,
    Bang,
    Asterisk,
    Slash,
    LessThan,
    GreaterThan,
    Equal,
    NotEqual,
    LessThanEqual,
    GreaterThanEqual,
    Comma,
    Semicolon,
    LeftParen,
    RightParen,
    LeftBrace,
    RightBrace,
    Function,
    Let,
    If,
    Else,
    True,
    False,
    Return,
}

/// A classified lexical unit.
///
/// `Illegal` and `Eof` are never produced by `Lexer::next`; they exist for
/// `Lexer::next_token`, which reports failures and the end of the text
/// in-band.
#[derive(Debug, PartialEq, Clone)]
pub enum Token {
    Illegal,
    Eof,
    // identifier and literals
    Identifier(String),
    Int(i64),
    String(String),
    // operators
    Assign,
    Plus,
    Minus,
    Bang,
    Asterisk,
    Slash,
    LessThan,
    GreaterThan,
    Equal,
    NotEqual,
    LessThanEqual,
    GreaterThanEqual,
    // punctuation
    Comma,
    Semicolon,
    LeftParen,
    RightParen,
    LeftBrace,
    RightBrace,
    // reserved words
    Function,
    Let,
    If,
    Else,
    True,
    False,
    Return,
}

/// The mathematical value of a token: literals carry their payload, every
/// other token is identified by its kind alone.
pub enum TokenView {
    Ident(Seq<char>),
    Int(i64),
    Str(Seq<char>),
    Plain(TokenKind),
}

/// True of the kinds whose tokens carry no payload.
pub open spec fn is_plain(k: TokenKind) -> bool {
    !(k is Identifier || k is Int || k is String)
}

impl Token {
    pub open spec fn kind_spec(&self) -> TokenKind {
        match self {
            Token::Illegal => TokenKind::Illegal,
            Token::Eof => TokenKind::Eof,
            Token::Identifier(_) => TokenKind::Identifier,
            Token::Int(_) => TokenKind::Int,
            Token::String(_) => TokenKind::String,
            Token::Assign => TokenKind::Assign,
            Token::Plus => TokenKind::Plus,
            Token::Minus => TokenKind::Minus,
            Token::Bang => TokenKind::Bang,
            Token::Asterisk => TokenKind::Asterisk,
            Token::Slash => TokenKind::Slash,
            Token::LessThan => TokenKind::LessThan,
            Token::GreaterThan => TokenKind::GreaterThan,
            Token::Equal => TokenKind::Equal,
            Token::NotEqual => TokenKind::NotEqual,
            Token::LessThanEqual => TokenKind::LessThanEqual,
            Token::GreaterThanEqual => TokenKind::GreaterThanEqual,
            Token::Comma => TokenKind::Comma,
            Token::Semicolon => TokenKind::Semicolon,
            Token::LeftParen => TokenKind::LeftParen,
            Token::RightParen => TokenKind::RightParen,
            Token::LeftBrace => TokenKind::LeftBrace,
            Token::RightBrace => TokenKind::RightBrace,
            Token::Function => TokenKind::Function,
            Token::Let => TokenKind::Let,
            Token::If => TokenKind::If,
            Token::Else => TokenKind::Else,
            Token::True => TokenKind::True,
            Token::False => TokenKind::False,
            Token::Return => TokenKind::Return,
        }
    }
}

impl View for Token {
    type V = TokenView;

    open spec fn view(&self) -> TokenView {
        match self {
            Token::Identifier(s) => TokenView::Ident(s@),
            Token::Int(n) => TokenView::Int(*n),
            Token::String(s) => TokenView::Str(s@),
            _ => TokenView::Plain(self.kind_spec()),
        }
    }
}

/// The keyword spelled by a word, if any.
pub open spec fn keyword(word: Seq<char>) -> Option<TokenKind> {
    if word == seq!['f', 'n'] {
        Some(TokenKind::Function)
    } else if word == seq!['l', 'e', 't'] {
        Some(TokenKind::Let)
    } else if word == seq!['t', 'r', 'u', 'e'] {
        Some(TokenKind::True)
    } else if word == seq!['f', 'a', 'l', 's', 'e'] {
        Some(TokenKind::False)
    } else if word == seq!['i', 'f'] {
        Some(TokenKind::If)
    } else if word == seq!['e', 'l', 's', 'e'] {
        Some(TokenKind::Else)
    } else if word == seq!['r', 'e', 't', 'u', 'r', 'n'] {
        Some(TokenKind::Return)
    } else {
        None
    }
}

/// An identifier-shaped word is its keyword if it spells one, and an
/// identifier carrying the word otherwise.
pub open spec fn classify(word: Seq<char>) -> TokenView {
    match keyword(word) {
        Some(k) => TokenView::Plain(k),
        None => TokenView::Ident(word),
    }
}

/// The surface spelling of a payload-free kind.
pub open spec fn spelling(k: TokenKind) -> Seq<char> {
    match k {
        TokenKind::Illegal => seq!['I', 'L', 'L', 'E', 'G', 'A', 'L'],
        TokenKind::Eof => seq!['E', 'O', 'F'],
        TokenKind::Assign => seq!['='],
        TokenKind::Plus => seq!['+'],
        TokenKind::Minus => seq!['-'],
        TokenKind::Bang => seq!['!'],
        TokenKind::Asterisk => seq!['*'],
        TokenKind::Slash => seq!['/'],
        TokenKind::LessThan => seq!['<'],
        TokenKind::GreaterThan => seq!['>'],
        TokenKind::Equal => seq!['=', '='],
        TokenKind::NotEqual => seq!['!', '='],
        TokenKind::LessThanEqual => seq!['<', '='],
        TokenKind::GreaterThanEqual => seq!['>', '='],
        TokenKind::Comma => seq![','],
        TokenKind::Semicolon => seq![';'],
        TokenKind::LeftParen => seq!['('],
        TokenKind::RightParen => seq![')'],
        TokenKind::LeftBrace => seq!['{'],
        TokenKind::RightBrace => seq!['}'],
        TokenKind::Function => seq!['f', 'n'],
        TokenKind::Let => seq!['l', 'e', 't'],
        TokenKind::If => seq!['i', 'f'],
        TokenKind::Else => seq!['e', 'l', 's', 'e'],
        TokenKind::True => seq!['t', 'r', 'u', 'e'],
        TokenKind::False => seq!['f', 'a', 'l', 's', 'e'],
        TokenKind::Return => seq!['r', 'e', 't', 'u', 'r', 'n'],
        _ => Seq::empty(),
    }
}

/// How a token is rendered: literals by their value, everything else by
/// its surface spelling.
pub open spec fn rendering(t: TokenView) -> Seq<char> {
    match t {
        TokenView::Ident(s) => s,
        TokenView::Int(n) => int_text(n as int),
        TokenView::Str(s) => s,
        TokenView::Plain(k) => spelling(k),
    }
}

/// The name of a kind: the name of its variant.
pub open spec fn kind_name(k: TokenKind) -> Seq<char> {
    match k {
        TokenKind::Illegal => seq!['I', 'l', 'l', 'e', 'g', 'a', 'l'],
        TokenKind::Eof => seq!['E', 'o', 'f'],
        TokenKind::Identifier => seq!['I', 'd', 'e', 'n', 't', 'i', 'f', 'i', 'e', 'r'],
        TokenKind::Int => seq!['I', 'n', 't'],
        TokenKind::String => seq!['S', 't', 'r', 'i', 'n', 'g'],
        TokenKind::Assign => seq!['A', 's', 's', 'i', 'g', 'n'],
        TokenKind::Plus => seq!['P', 'l', 'u', 's'],
        TokenKind::Minus => seq!['M', 'i', 'n', 'u', 's'],
        TokenKind::Bang => seq!['B', 'a', 'n', 'g'],
        TokenKind::Asterisk => seq!['A', 's', 't', 'e', 'r', 'i', 's', 'k'],
        TokenKind::Slash => seq!['S', 'l', 'a', 's', 'h'],
        TokenKind::LessThan => seq!['L', 'e', 's', 's', 'T', 'h', 'a', 'n'],
        TokenKind::GreaterThan => seq!['G', 'r', 'e', 'a', 't', 'e', 'r', 'T', 'h', 'a', 'n'],
        TokenKind::Equal => seq!['E', 'q', 'u', 'a', 'l'],
        TokenKind::NotEqual => seq!['N', 'o', 't', 'E', 'q', 'u', 'a', 'l'],
        TokenKind::LessThanEqual => seq!['L', 'e', 's', 's', 'T', 'h', 'a', 'n', 'E', 'q', 'u', 'a', 'l'],
        TokenKind::GreaterThanEqual => seq!['G', 'r', 'e', 'a', 't', 'e', 'r', 'T', 'h', 'a', 'n', 'E', 'q', 'u', 'a', 'l'],
        TokenKind::Comma => seq!['C', 'o', 'm', 'm', 'a'],
        TokenKind::Semicolon => seq!['S', 'e', 'm', 'i', 'c', 'o', 'l', 'o', 'n'],
        TokenKind::LeftParen => seq!['L', 'e', 'f', 't', 'P', 'a', 'r', 'e', 'n'],
        TokenKind::RightParen => seq!['R', 'i', 'g', 'h', 't', 'P', 'a', 'r', 'e', 'n'],
        TokenKind::LeftBrace => seq!['L', 'e', 'f', 't', 'B', 'r', 'a', 'c', 'e'],
        TokenKind::RightBrace => seq!['R', 'i', 'g', 'h', 't', 'B', 'r', 'a', 'c', 'e'],
        TokenKind::Function => seq!['F', 'u', 'n', 'c', 't', 'i', 'o', 'n'],
        TokenKind::Let => seq!['L', 'e', 't'],
        TokenKind::If => seq!['I', 'f'],
        TokenKind::Else => seq!['E', 'l', 's', 'e'],
        TokenKind::True => seq!['T', 'r', 'u', 'e'],
        TokenKind::False => seq!['F', 'a', 'l', 's', 'e'],
        TokenKind::Return => seq!['R', 'e', 't', 'u', 'r', 'n'],
    }
}

/// What `str`'s `Debug` writes for a text: the text quoted, with escapes.
pub uninterp spec fn debug_quoted(s: Seq<char>) -> Seq<char>;

/// The debugging text of a token: the variant's name, followed by the
/// payload in parentheses (integers in decimal, texts quoted).
pub open spec fn debug_text(t: TokenView) -> Seq<char> {
    match t {
        TokenView::Ident(s) => kind_name(TokenKind::Identifier) + seq!['('] + debug_quoted(s)
            + seq![')'],
        TokenView::Int(n) => kind_name(TokenKind::Int) + seq!['('] + int_text(n as int) + seq![
            ')',
        ],
        TokenView::Str(s) => kind_name(TokenKind::String) + seq!['('] + debug_quoted(s) + seq![
            ')',
        ],
        TokenView::Plain(k) => kind_name(k),
    }
}

/// Relies on `str`'s `Debug` impl, through `format!("{:?}")`: the quoted,
/// escaped text depends on the characters alone.
#[verifier::external_body]
fn quoted(s: &str) -> (r: String)
    ensures
        r@ == debug_quoted(s@),
{
    format!("{:?}", s)
}

/// Whether the characters of `s` are exactly those of `word`.
fn spells(s: &str, n: usize, word: &[char]) -> (r: bool)
    requires
        n == s@.len(),
    ensures
        r == (s@ == word@),
{
    if word.len() != n {
        return false;
    }
    let mut i: usize = 0;
    while i < n
        invariant
            n == s@.len(),
            n == word@.len(),
            i <= n,
            forall|j: int| 0 <= j < i ==> s@[j] == word@[j],
        decreases n - i,
    {
        if s.get_char(i) != word[i] {
            return false;
        }
        i = i + 1;
    }
    assert(s@ =~= word@);
    true
}

impl TokenKind {
    /// The name of the kind: the name of its variant.
    pub fn name(&self) -> (r: String)
        ensures
            r@ == kind_name(*self),
    {
        self.name_str().to_owned()
    }

    fn name_str(&self) -> (r: &'static str)
        ensures
            r@ == kind_name(*self),
    {
        match self {
            TokenKind::Illegal => {
                proof {
                    reveal_strlit("Illegal");
                    assert("Illegal"@ =~= kind_name(*self));
                }
                "Illegal"
            },
            TokenKind::Eof => {
                proof {
                    reveal_strlit("Eof");
                    assert("Eof"@ =~= kind_name(*self));
                }
                "Eof"
            },
            TokenKind::Identifier => {
                proof {
                    reveal_strlit("Identifier");
                    assert("Identifier"@ =~= kind_name(*self));
                }
                "Identifier"
            },
            TokenKind::Int => {
                proof {
                    reveal_strlit("Int");
                    assert("Int"@ =~= kind_name(*self));
                }
                "Int"
            },
            TokenKind::String => {
                proof {
                    reveal_strlit("String");
                    assert("String"@ =~= kind_name(*self));
                }
                "String"
            },
            TokenKind::Assign => {
                proof {
                    reveal_strlit("Assign");
                    assert("Assign"@ =~= kind_name(*self));
                }
                "Assign"
            },
            TokenKind::Plus => {
                proof {
                    reveal_strlit("Plus");
                    assert("Plus"@ =~= kind_name(*self));
                }
                "Plus"
            },
            TokenKind::Minus => {
                proof {
                    reveal_strlit("Minus");
                    assert("Minus"@ =~= kind_name(*self));
                }
                "Minus"
            },
            TokenKind::Bang => {
                proof {
                    reveal_strlit("Bang");
                    assert("Bang"@ =~= kind_name(*self));
                }
                "Bang"
            },
            TokenKind::Asterisk => {
                proof {
                    reveal_strlit("Asterisk");
                    assert("Asterisk"@ =~= kind_name(*self));
                }
                "Asterisk"
            },
            TokenKind::Slash => {
                proof {
                    reveal_strlit("Slash");
                    assert("Slash"@ =~= kind_name(*self));
                }
                "Slash"
            },
            TokenKind::LessThan => {
                proof {
                    reveal_strlit("LessThan");
                    assert("LessThan"@ =~= kind_name(*self));
                }
                "LessThan"
            },
            TokenKind::GreaterThan => {
                proof {
                    reveal_strlit("GreaterThan");
                    assert("GreaterThan"@ =~= kind_name(*self));
                }
                "GreaterThan"
            },
            TokenKind::Equal => {
                proof {
                    reveal_strlit("Equal");
                    assert("Equal"@ =~= kind_name(*self));
                }
                "Equal"
            },
            TokenKind::NotEqual => {
                proof {
                    reveal_strlit("NotEqual");
                    assert("NotEqual"@ =~= kind_name(*self));
                }
                "NotEqual"
            },
            TokenKind::LessThanEqual => {
                proof {
                    reveal_strlit("LessThanEqual");
                    assert("LessThanEqual"@ =~= kind_name(*self));
                }
                "LessThanEqual"
            },
            TokenKind::GreaterThanEqual => {
                proof {
                    reveal_strlit("GreaterThanEqual");
                    assert("GreaterThanEqual"@ =~= kind_name(*self));
                }
                "GreaterThanEqual"
            },
            TokenKind::Comma => {
                proof {
                    reveal_strlit("Comma");
                    assert("Comma"@ =~= kind_name(*self));
                }
                "Comma"
            },
            TokenKind::Semicolon => {
                proof {
                    reveal_strlit("Semicolon");
                    assert("Semicolon"@ =~= kind_name(*self));
                }
                "Semicolon"
            },
            TokenKind::LeftParen => {
                proof {
                    reveal_strlit("LeftParen");
                    assert("LeftParen"@ =~= kind_name(*self));
                }
                "LeftParen"
            },
            TokenKind::RightParen => {
                proof {
                    reveal_strlit("RightParen");
                    assert("RightParen"@ =~= kind_name(*self));
                }
                "RightParen"
            },
            TokenKind::LeftBrace => {
                proof {
                    reveal_strlit("LeftBrace");
                    assert("LeftBrace"@ =~= kind_name(*self));
                }
                "LeftBrace"
            },
            TokenKind::RightBrace => {
                proof {
                    reveal_strlit("RightBrace");
                    assert("RightBrace"@ =~= kind_name(*self));
                }
                "RightBrace"
            },
            TokenKind::Function => {
                proof {
                    reveal_strlit("Function");
                    assert("Function"@ =~= kind_name(*self));
                }
                "Function"
            },
            TokenKind::Let => {
                proof {
                    reveal_strlit("Let");
                    assert("Let"@ =~= kind_name(*self));
                }
                "Let"
            },
            TokenKind::If => {
                proof {
                    reveal_strlit("If");
                    assert("If"@ =~= kind_name(*self));
                }
                "If"
            },
            TokenKind::Else => {
                proof {
                    reveal_strlit("Else");
                    assert("Else"@ =~= kind_name(*self));
                }
                "Else"
            },
            TokenKind::True => {
                proof {
                    reveal_strlit("True");
                    assert("True"@ =~= kind_name(*self));
                }
                "True"
            },
            TokenKind::False => {
                proof {
                    reveal_strlit("False");
                    assert("False"@ =~= kind_name(*self));
                }
                "False"
            },
            TokenKind::Return => {
                proof {
                    reveal_strlit("Return");
                    assert("Return"@ =~= kind_name(*self));
                }
                "Return"
            },
        }
    }

    /// The surface spelling of a payload-free kind.
    pub fn spell(&self) -> (r: String)
        ensures
            r@ == spelling(*self),
    {
        self.spelling_str().to_owned()
    }

    fn spelling_str(&self) -> (r: &'static str)
        ensures
            r@ == spelling(*self),
    {
        match self {
            TokenKind::Illegal => {
                proof {
                    reveal_strlit("ILLEGAL");
                    assert("ILLEGAL"@ =~= spelling(*self));
                }
                "ILLEGAL"
            },
            TokenKind::Eof => {
                proof {
                    reveal_strlit("EOF");
                    assert("EOF"@ =~= spelling(*self));
                }
                "EOF"
            },
            TokenKind::Assign => {
                proof {
                    reveal_strlit("=");
                    assert("="@ =~= spelling(*self));
                }
                "="
            },
            TokenKind::Plus => {
                proof {
                    reveal_strlit("+");
                    assert("+"@ =~= spelling(*self));
                }
                "+"
            },
            TokenKind::Minus => {
                proof {
                    reveal_strlit("-");
                    assert("-"@ =~= spelling(*self));
                }
                "-"
            },
            TokenKind::Bang => {
                proof {
                    reveal_strlit("!");
                    assert("!"@ =~= spelling(*self));
                }
                "!"
            },
            TokenKind::Asterisk => {
                proof {
                    reveal_strlit("*");
                    assert("*"@ =~= spelling(*self));
                }
                "*"
            },
            TokenKind::Slash => {
                proof {
                    reveal_strlit("/");
                    assert("/"@ =~= spelling(*self));
                }
                "/"
            },
            TokenKind::LessThan => {
                proof {
                    reveal_strlit("<");
                    assert("<"@ =~= spelling(*self));
                }
                "<"
            },
            TokenKind::GreaterThan => {
                proof {
                    reveal_strlit(">");
                    assert(">"@ =~= spelling(*self));
                }
                ">"
            },
            TokenKind::Equal => {
                proof {
                    reveal_strlit("==");
                    assert("=="@ =~= spelling(*self));
                }
                "=="
            },
            TokenKind::NotEqual => {
                proof {
                    reveal_strlit("!=");
                    assert("!="@ =~= spelling(*self));
                }
                "!="
            },
            TokenKind::LessThanEqual => {
                proof {
                    reveal_strlit("<=");
                    assert("<="@ =~= spelling(*self));
                }
                "<="
            },
            TokenKind::GreaterThanEqual => {
                proof {
                    reveal_strlit(">=");
                    assert(">="@ =~= spelling(*self));
                }
                ">="
            },
            TokenKind::Comma => {
                proof {
                    reveal_strlit(",");
                    assert(","@ =~= spelling(*self));
                }
                ","
            },
            TokenKind::Semicolon => {
                proof {
                    reveal_strlit(";");
                    assert(";"@ =~= spelling(*self));
                }
                ";"
            },
            TokenKind::LeftParen => {
                proof {
                    reveal_strlit("(");
                    assert("("@ =~= spelling(*self));
                }
                "("
            },
            TokenKind::RightParen => {
                proof {
                    reveal_strlit(")");
                    assert(")"@ =~= spelling(*self));
                }
                ")"
            },
            TokenKind::LeftBrace => {
                proof {
                    reveal_strlit("{");
                    assert("{"@ =~= spelling(*self));
                }
                "{"
            },
            TokenKind::RightBrace => {
                proof {
                    reveal_strlit("}");
                    assert("}"@ =~= spelling(*self));
                }
                "}"
            },
            TokenKind::Function => {
                proof {
                    reveal_strlit("fn");
                    assert("fn"@ =~= spelling(*self));
                }
                "fn"
            },
            TokenKind::Let => {
                proof {
                    reveal_strlit("let");
                    assert("let"@ =~= spelling(*self));
                }
                "let"
            },
            TokenKind::If => {
                proof {
                    reveal_strlit("if");
                    assert("if"@ =~= spelling(*self));
                }
                "if"
            },
            TokenKind::Else => {
                proof {
                    reveal_strlit("else");
                    assert("else"@ =~= spelling(*self));
                }
                "else"
            },
            TokenKind::True => {
                proof {
                    reveal_strlit("true");
                    assert("true"@ =~= spelling(*self));
                }
                "true"
            },
            TokenKind::False => {
                proof {
                    reveal_strlit("false");
                    assert("false"@ =~= spelling(*self));
                }
                "false"
            },
            TokenKind::Return => {
                proof {
                    reveal_strlit("return");
                    assert("return"@ =~= spelling(*self));
                }
                "return"
            },
            _ => {
                proof {
                    reveal_strlit("");
                    assert(""@ =~= spelling(*self));
                }
                ""
            },
        }
    }
}

impl Token {
    /// The category of the token.
    pub fn kind(&self) -> (r: TokenKind)
        ensures
            r == self.kind_spec(),
    {
        match self {
            Token::Illegal => TokenKind::Illegal,
            Token::Eof => TokenKind::Eof,
            Token::Identifier(_) => TokenKind::Identifier,
            Token::Int(_) => TokenKind::Int,
            Token::String(_) => TokenKind::String,
            Token::Assign => TokenKind::Assign,
            Token::Plus => TokenKind::Plus,
            Token::Minus => TokenKind::Minus,
            Token::Bang => TokenKind::Bang,
            Token::Asterisk => TokenKind::Asterisk,
            Token::Slash => TokenKind::Slash,
            Token::LessThan => TokenKind::LessThan,
            Token::GreaterThan => TokenKind::GreaterThan,
            Token::Equal => TokenKind::Equal,
            Token::NotEqual => TokenKind::NotEqual,
            Token::LessThanEqual => TokenKind::LessThanEqual,
            Token::GreaterThanEqual => TokenKind::GreaterThanEqual,
            Token::Comma => TokenKind::Comma,
            Token::Semicolon => TokenKind::Semicolon,
            Token::LeftParen => TokenKind::LeftParen,
            Token::RightParen => TokenKind::RightParen,
            Token::LeftBrace => TokenKind::LeftBrace,
            Token::RightBrace => TokenKind::RightBrace,
            Token::Function => TokenKind::Function,
            Token::Let => TokenKind::Let,
            Token::If => TokenKind::If,
            Token::Else => TokenKind::Else,
            Token::True => TokenKind::True,
            Token::False => TokenKind::False,
            Token::Return => TokenKind::Return,
        }
    }

    /// The token of a payload-free kind.
    pub fn plain(k: TokenKind) -> (r: Token)
        requires
            is_plain(k),
        ensures
            r@ == TokenView::Plain(k),
    {
        match k {
            TokenKind::Illegal => Token::Illegal,
            TokenKind::Eof => Token::Eof,
            TokenKind::Assign => Token::Assign,
            TokenKind::Plus => Token::Plus,
            TokenKind::Minus => Token::Minus,
            TokenKind::Bang => Token::Bang,
            TokenKind::Asterisk => Token::Asterisk,
            TokenKind::Slash => Token::Slash,
            TokenKind::LessThan => Token::LessThan,
            TokenKind::GreaterThan => Token::GreaterThan,
            TokenKind::Equal => Token::Equal,
            TokenKind::NotEqual => Token::NotEqual,
            TokenKind::LessThanEqual => Token::LessThanEqual,
            TokenKind::GreaterThanEqual => Token::GreaterThanEqual,
            TokenKind::Comma => Token::Comma,
            TokenKind::Semicolon => Token::Semicolon,
            TokenKind::LeftParen => Token::LeftParen,
            TokenKind::RightParen => Token::RightParen,
            TokenKind::LeftBrace => Token::LeftBrace,
            TokenKind::RightBrace => Token::RightBrace,
            TokenKind::Function => Token::Function,
            TokenKind::Let => Token::Let,
            TokenKind::If => Token::If,
            TokenKind::Else => Token::Else,
            TokenKind::True => Token::True,
            TokenKind::False => Token::False,
            _ => Token::Return,
        }
    }

    /// Classifies an identifier-shaped word: a keyword when the word spells
    /// one of `fn let true false if else return`, else an identifier that
    /// carries the word.
    pub fn lookup_identifier(ident: &str) -> (r: Token)
        ensures
            r@ == classify(ident@),
    {
        let n = ident.unicode_len();
        let kind = if n > 6 {
            TokenKind::Identifier
        } else if spells(ident, n, &['f', 'n']) {
            TokenKind::Function
        } else if spells(ident, n, &['l', 'e', 't']) {
            TokenKind::Let
        } else if spells(ident, n, &['t', 'r', 'u', 'e']) {
            TokenKind::True
        } else if spells(ident, n, &['f', 'a', 'l', 's', 'e']) {
            TokenKind::False
        } else if spells(ident, n, &['i', 'f']) {
            TokenKind::If
        } else if spells(ident, n, &['e', 'l', 's', 'e']) {
            TokenKind::Else
        } else if spells(ident, n, &['r', 'e', 't', 'u', 'r', 'n']) {
            TokenKind::Return
        } else {
            TokenKind::Identifier
        };
        if kind == TokenKind::Identifier {
            Token::Identifier(ident.to_owned())
        } else {
            Token::plain(kind)
        }
    }

    /// Renders the token: literals by their value, every other token by its
    /// surface spelling (`==` as `==`, `If` as `if`).
    pub fn render(&self) -> (r: String)
        ensures
            r@ == rendering(self@),
    {
        match self {
            Token::Identifier(s) => s.clone(),
            Token::Int(n) => i64_to_text(*n),
            Token::String(s) => s.clone(),
            _ => self.kind().spell(),
        }
    }
    /// The debugging text of the token: `Assign`, `Int(5)`,
    /// `Identifier("x")`.
    pub fn debug_text(&self) -> (r: String)
        ensures
            r@ == debug_text(self@),
    {
        let payload = match self {
            Token::Identifier(s) => quoted(s.as_str()),
            Token::Int(n) => i64_to_text(*n),
            Token::String(s) => quoted(s.as_str()),
            _ => {
                return self.kind().name();
            },
        };
        proof {
            reveal_strlit("(");
            reveal_strlit(")");
        }
        let mut r = self.kind().name();
        r.append("(");
        r.append(payload.as_str());
        r.append(")");
        assert(r@ =~= debug_text(self@));
        r
    }
}

} // verus!
