//! The syntax tree of twotetrated programs, with the source span of every node.

use std::fmt::Debug;
use std::hash::Hash;
use std::ops::Deref;
use std::ops::Range;
use vstd::prelude::*;

verus! {

/// A stretch of a source file: the file's name and the byte range that the
/// stretch covers in it.
#[derive(Debug, PartialEq, Eq, Hash)]
pub struct FileSpan<'a> {
    pub source: &'a str,
    pub chars: Range<usize>,
}

impl<'a> Clone for FileSpan<'a> {
    fn clone(&self) -> (copy: Self)
        ensures
            copy == *self,
    {
        FileSpan { source: self.source, chars: Range { start: self.chars.start, end: self.chars.end } }
    }
}

impl<'a> FileSpan<'a> {
    pub fn new(source: &'a str, chars: Range<usize>) -> (span: FileSpan<'a>)
        ensures
            span.source == source,
            span.chars == chars,
    {
        FileSpan { source, chars }
    }
}

#[derive(Debug, Clone, PartialEq, Eq, Hash)]
pub enum UnaryOperator {
    Negative,
    BitwiseNot,
    LogicalNot,
    DerefData,
    DerefInsn,
    AddrOf,
    SizeOf,
}

#[derive(Debug, Clone, PartialEq, Eq, Hash)]
pub enum BinaryOperator {
    Add,
    Mul,
}

/// A value together with the span of source text it was read from.
#[derive(Debug, Clone, PartialEq, Eq, Hash)]
pub struct Located<'a, T> where T: Debug + Clone + PartialEq + Eq + Hash {
    pub value: T,
    pub span: FileSpan<'a>,
}

impl<'a, T> Located<'a, T> where T: Debug + Clone + PartialEq + Eq + Hash {
    pub fn new(value: T, span: FileSpan<'a>) -> (located: Self)
        ensures
            located.value == value,
            located.span == span,
    {
        Self { value, span }
    }
}

impl<'a, T> Deref for Located<'a, T> where T: Debug + Clone + PartialEq + Eq + Hash {
    type Target = T;

    fn deref(&self) -> (value: &Self::Target)
        ensures
            *value == self.value,
    {
        &self.value
    }
}

pub type LocatedToken<'a> = Located<'a, &'a str>;

pub type LocatedExpression<'a> = Located<'a, Expression<'a>>;

#[derive(Debug, PartialEq, Eq, Hash)]
pub enum Expression<'a> {
    Literal(u16),
    Variable(&'a str),
    Unary(UnaryOperator, Box<LocatedExpression<'a>>),
}

impl UnaryOperator {
    fn copied(&self) -> (op: UnaryOperator)
        ensures
            op == *self,
    {
        match self {
            UnaryOperator::Negative => UnaryOperator::Negative,
            UnaryOperator::BitwiseNot => UnaryOperator::BitwiseNot,
            UnaryOperator::LogicalNot => UnaryOperator::LogicalNot,
            UnaryOperator::DerefData => UnaryOperator::DerefData,
            UnaryOperator::DerefInsn => UnaryOperator::DerefInsn,
            UnaryOperator::AddrOf => UnaryOperator::AddrOf,
            UnaryOperator::SizeOf => UnaryOperator::SizeOf,
        }
    }
}

impl<'a> Clone for Expression<'a> {
    fn clone(&self) -> (copy: Self)
        ensures
            copy == *self,
        decreases self,
    {
        match self {
            Expression::Literal(n) => Expression::Literal(*n),
            Expression::Variable(name) => Expression::Variable(*name),
            Expression::Unary(op, operand) => Expression::Unary(
                op.copied(),
                Box::new(Located { value: operand.value.clone(), span: operand.span.clone() }),
            ),
        }
    }
}

#[derive(Debug, Clone, PartialEq, Eq, Hash)]
pub enum Statement<'a> {
    Yield(LocatedExpression<'a>),
    Assign(Located<'a, &'a str>, LocatedExpression<'a>),
}

pub type LocatedStatement<'a> = Located<'a, Statement<'a>>;

/// The statements between a pair of braces.
#[derive(Debug, Clone, PartialEq, Eq, Hash)]
pub struct BracedBody<'a>(pub Vec<LocatedStatement<'a>>);

impl<'a> Deref for BracedBody<'a> {
    type Target = Vec<LocatedStatement<'a>>;

    fn deref(&self) -> (statements: &Self::Target)
        ensures
            *statements == self.0,
    {
        &self.0
    }
}

pub type LocatedBracedBody<'a> = Located<'a, BracedBody<'a>>;

/// The name of a type, where it was written.
#[derive(Debug, Clone, PartialEq, Eq, Hash)]
pub struct LocatedType<'a>(pub LocatedToken<'a>);

impl<'a> Deref for LocatedType<'a> {
    type Target = LocatedToken<'a>;

    fn deref(&self) -> (token: &Self::Target)
        ensures
            *token == self.0,
    {
        &self.0
    }
}

#[derive(Debug, Clone, PartialEq, Eq, Hash)]
pub struct LocatedVariableDecl<'a> {
    pub type_: LocatedType<'a>,
    pub variable_name: LocatedToken<'a>,
}

#[derive(Debug, Clone, PartialEq, Eq, Hash)]
pub struct FunctionItem<'a> {
    pub name: LocatedToken<'a>,
    pub argument_list: Vec<LocatedVariableDecl<'a>>,
    pub return_declaration: Option<LocatedType<'a>>,
    pub body: LocatedBracedBody<'a>,
}

pub type LocatedFunctionItem<'a> = Located<'a, FunctionItem<'a>>;

} // verus!
