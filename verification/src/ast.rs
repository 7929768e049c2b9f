//! The syntax tree of the scripting language, as far as the parser builds
//! it.

use crate::lexer::Keyword;
use vstd::prelude::*;

verus! {

/// The type of a value. No keyword names one, so that the only type is that
/// of a function that returns nothing.
#[derive(Clone, Copy, Debug, PartialEq, Eq, Structural)]
pub enum Type {
    Void,
}

/// The type that a keyword names, if it names one.
pub open spec fn type_named(word: Keyword) -> Option<Type> {
    None
}

impl Type {
    pub fn of(word: Keyword) -> (ty: Option<Type>)
        ensures
            ty == type_named(word),
    {
        None
    }
}

/// An expression. Expressions have no grammar, so that none is ever read.
#[derive(Clone, Copy, Debug, PartialEq, Eq, Structural)]
pub struct Expression {
}

impl Expression {
    /// The type of the expression, where it can be told.
    pub fn infer_type(&self) -> (ty: Option<Type>)
        ensures
            ty is None,
    {
        None
    }
}

/// A statement. Statements have no grammar, so that none is ever read.
#[derive(Clone, Copy, Debug, PartialEq, Eq, Structural)]
pub struct Statement {
}

pub struct Declaration {
    pub name: String,
    pub ty: Type,
    pub value: Option<Expression>,
}

pub struct Block {
    pub statements: Vec<Statement>,
}

pub struct Function {
    pub name: String,
    pub parameters: Vec<(String, Type)>,
    pub return_type: Type,
    pub body: Block,
}

pub enum TopLevelStatement {
    Include(String),
    Use(Vec<String>),
    Declaration(Declaration),
}

pub enum Element {
    Statement(TopLevelStatement),
    Function(Function),
    Empty,
}

/// The elements of a source file, in order.
pub struct Program {
    pub elements: Vec<Element>,
}

impl Program {
    pub fn new() -> (program: Program)
        ensures
            program.elements@.len() == 0,
    {
        Program { elements: Vec::new() }
    }

    pub fn push(&mut self, element: Element)
        ensures
            final(self).elements@ == old(self).elements@.push(element),
    {
        self.elements.push(element);
    }
}

} // verus!
