//! The syntax tree that the parser builds.

use vstd::prelude::*;

use crate::token::{rendering, Token};

verus! {

/// A node of the syntax tree.
pub trait Node {
    /// The text of the token that the node stands on.
    spec fn literal(&self) -> Seq<char>;

    /// The text of the token that the node stands on.
    fn token_literal(&self) -> (r: String)
        ensures
            r@ == self.literal(),
    ;
}

#[derive(Debug, PartialEq, Clone)]
pub enum Statement {
    Let(LetStatement),
}

impl Node for Statement {
    open spec fn literal(&self) -> Seq<char> {
        match self {
            Statement::Let(statement) => statement.literal(),
        }
    }

    fn token_literal(&self) -> (r: String) {
        match self {
            Statement::Let(statement) => statement.token_literal(),
        }
    }
}

/// An expression; the parser does not read expressions yet.
#[derive(Debug, PartialEq, Clone)]
pub enum Expression {
    Dummy,
}

/// A whole program: its statements in order.
pub struct Program {
    pub statements: Vec<Statement>,
}

impl Node for Program {
    /// The literal of the first statement, or nothing for an empty program.
    open spec fn literal(&self) -> Seq<char> {
        if self.statements@.len() > 0 {
            self.statements@[0].literal()
        } else {
            Seq::empty()
        }
    }

    fn token_literal(&self) -> (r: String) {
        if self.statements.len() > 0 {
            self.statements[0].token_literal()
        } else {
            String::new()
        }
    }
}

/// `let <name> = <value>;`
#[derive(Debug, PartialEq, Clone)]
pub struct LetStatement {
    pub token: Token,
    pub name: Identifier,
    pub value: Expression,
}

impl Node for LetStatement {
    /// The rendering of the statement's token: `let`.
    open spec fn literal(&self) -> Seq<char> {
        rendering(self.token@)
    }

    fn token_literal(&self) -> (r: String) {
        self.token.render()
    }
}

/// A name, with the token it was read from.
#[derive(Debug, PartialEq, Clone)]
pub struct Identifier {
    pub token: Token,
    pub value: String,
}

impl Node for Identifier {
    open spec fn literal(&self) -> Seq<char> {
        self.value@
    }

    fn token_literal(&self) -> (r: String) {
        self.value.clone()
    }
}

} // verus!
