//! The closed set of failures, shared by every stage.

use vstd::prelude::*;
use crate::environment::{Value, ValueView};
use crate::scanner::TokenType;

verus! {

/// Anything that ends the current run before its normal result.
#[derive(Debug, PartialEq)]
pub enum ErrorOrEarlyReturn {
    ICE(ICE),
    CompilationError(CompilationError),
    RuntimeError(RuntimeError),
    /// Not a failure: a `return` on its way to the nearest call boundary.
    EarlyReturn(Value),
}

/// Detected while scanning or parsing.
#[derive(Debug, PartialEq)]
pub enum CompilationError {
    GenericError(String),
    UnexpectedCharacter(char),
    /// What was expected, and what was found instead.
    ExpectedToken(String, String),
    UnterminatedString,
    /// The kind of literal and its text.
    InvalidLiteral(String, String),
    ExpectedNameAfterVar,
    ExpectedSemicolonAfterVarDecl,
    ReturnOutsideFunction,
}

/// A state that the interpreter itself should make impossible.
#[derive(Debug, PartialEq)]
pub enum ICE {
    Generic(String),
    /// The host could not write the output; its message.
    IOError(String),
}

/// Detected while evaluating.
#[derive(Debug, PartialEq)]
pub enum RuntimeError {
    DivisionByZero,
    /// The expected type and the value found.
    TypeMismatch(String, String),
    UndefinedVariable(String),
    UndefinedFunction(String),
    /// The operator and its two operands.
    InvalidOperator(TokenType, String, String),
    /// The number of parameters, the function's name, the number of arguments.
    NumberOfArgumentsMismatch(usize, String, usize),
    StackOverflow,
}

/// A compilation error as the contracts speak of it.
pub enum CompilationErrorView {
    GenericError(Seq<char>),
    UnexpectedCharacter(char),
    ExpectedToken(Seq<char>, Seq<char>),
    UnterminatedString,
    InvalidLiteral(Seq<char>, Seq<char>),
    ExpectedNameAfterVar,
    ExpectedSemicolonAfterVarDecl,
    ReturnOutsideFunction,
}

impl View for CompilationError {
    type V = CompilationErrorView;

    open spec fn view(&self) -> CompilationErrorView {
        match self {
            CompilationError::GenericError(m) => CompilationErrorView::GenericError(m@),
            CompilationError::UnexpectedCharacter(c) => CompilationErrorView::UnexpectedCharacter(
                *c,
            ),
            CompilationError::ExpectedToken(e, f) => CompilationErrorView::ExpectedToken(e@, f@),
            CompilationError::UnterminatedString => CompilationErrorView::UnterminatedString,
            CompilationError::InvalidLiteral(k, t) => CompilationErrorView::InvalidLiteral(k@, t@),
            CompilationError::ExpectedNameAfterVar => CompilationErrorView::ExpectedNameAfterVar,
            CompilationError::ExpectedSemicolonAfterVarDecl =>
                CompilationErrorView::ExpectedSemicolonAfterVarDecl,
            CompilationError::ReturnOutsideFunction => CompilationErrorView::ReturnOutsideFunction,
        }
    }
}

/// An internal error as the contracts speak of it.
pub enum ICEView {
    Generic(Seq<char>),
    IOError(Seq<char>),
}

impl View for ICE {
    type V = ICEView;

    open spec fn view(&self) -> ICEView {
        match self {
            ICE::Generic(m) => ICEView::Generic(m@),
            ICE::IOError(m) => ICEView::IOError(m@),
        }
    }
}

/// A runtime error as the contracts speak of it.
pub enum RuntimeErrorView {
    DivisionByZero,
    TypeMismatch(Seq<char>, Seq<char>),
    UndefinedVariable(Seq<char>),
    UndefinedFunction(Seq<char>),
    InvalidOperator(TokenType, Seq<char>, Seq<char>),
    NumberOfArgumentsMismatch(usize, Seq<char>, usize),
    StackOverflow,
}

impl View for RuntimeError {
    type V = RuntimeErrorView;

    open spec fn view(&self) -> RuntimeErrorView {
        match self {
            RuntimeError::DivisionByZero => RuntimeErrorView::DivisionByZero,
            RuntimeError::TypeMismatch(e, g) => RuntimeErrorView::TypeMismatch(e@, g@),
            RuntimeError::UndefinedVariable(n) => RuntimeErrorView::UndefinedVariable(n@),
            RuntimeError::UndefinedFunction(n) => RuntimeErrorView::UndefinedFunction(n@),
            RuntimeError::InvalidOperator(op, l, r) => RuntimeErrorView::InvalidOperator(
                *op,
                l@,
                r@,
            ),
            RuntimeError::NumberOfArgumentsMismatch(e, n, a) =>
                RuntimeErrorView::NumberOfArgumentsMismatch(*e, n@, *a),
            RuntimeError::StackOverflow => RuntimeErrorView::StackOverflow,
        }
    }
}

/// Whatever ends a run early, as the contracts speak of it.
pub enum ErrorView {
    ICE(ICEView),
    CompilationError(CompilationErrorView),
    RuntimeError(RuntimeErrorView),
    EarlyReturn(ValueView),
}

impl View for ErrorOrEarlyReturn {
    type V = ErrorView;

    open spec fn view(&self) -> ErrorView {
        match self {
            ErrorOrEarlyReturn::ICE(e) => ErrorView::ICE(e@),
            ErrorOrEarlyReturn::CompilationError(e) => ErrorView::CompilationError(e@),
            ErrorOrEarlyReturn::RuntimeError(e) => ErrorView::RuntimeError(e@),
            ErrorOrEarlyReturn::EarlyReturn(v) => ErrorView::EarlyReturn(v@),
        }
    }
}

pub fn ice(kind: ICE) -> (e: ErrorOrEarlyReturn)
    ensures
        e == ErrorOrEarlyReturn::ICE(kind),
{
    ErrorOrEarlyReturn::ICE(kind)
}

pub fn compilation_error(kind: CompilationError) -> (e: ErrorOrEarlyReturn)
    ensures
        e == ErrorOrEarlyReturn::CompilationError(kind),
{
    ErrorOrEarlyReturn::CompilationError(kind)
}

pub fn runtime_error(kind: RuntimeError) -> (e: ErrorOrEarlyReturn)
    ensures
        e == ErrorOrEarlyReturn::RuntimeError(kind),
{
    ErrorOrEarlyReturn::RuntimeError(kind)
}

} // verus!
