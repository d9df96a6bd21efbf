//! The failures of reading and of evaluating. Every one is a value that
//! the caller gets back; none ends the process.

use crate::printer::{render_items, write_items};
use crate::types::{clone_items, values_of, MalType, Value};
use vstd::prelude::*;

verus! {

/// Why a text could not be read.
#[derive(Clone, Copy, Debug, PartialEq, Eq, Structural)]
pub enum ParseError {
    /// The tokens ended inside an open collection.
    UnexpectedEof,
    /// A closing delimiter stood where a form was expected, or closed a
    /// collection of another kind.
    UnbalancedCollection,
    /// A string lacks its closing quote.
    UnterminatedString,
    /// An integer literal does not fit in 64 bits.
    NumberParseError,
}

/// Why a form could not be evaluated.
#[derive(Debug)]
pub enum EvalError {
    /// No scope binds the symbol.
    SymbolNotFound(String),
    /// The head of an application is no function.
    NotCallable,
    /// An operation got too few operands, or a number of them it cannot use.
    ArityMismatch,
    /// The named operation got these operands, which it cannot work on.
    TypeMismatch(String, Vec<MalType>),
    /// The divisor was zero.
    DivisionByZero,
    /// Applications were nested deeper than the environment allows. The
    /// language knows no such failure: it stands for the exhaustion of the
    /// stack, which the bound of the environment forestalls.
    DepthExceeded,
}

/// Mathematical view of an [`EvalError`].
pub ghost enum Failure {
    SymbolNotFound(Seq<char>),
    NotCallable,
    ArityMismatch,
    TypeMismatch(Seq<char>, Seq<Value>),
    DivisionByZero,
    DepthExceeded,
}

impl View for EvalError {
    type V = Failure;

    open spec fn view(&self) -> Failure {
        match self {
            EvalError::SymbolNotFound(name) => Failure::SymbolNotFound(name@),
            EvalError::NotCallable => Failure::NotCallable,
            EvalError::ArityMismatch => Failure::ArityMismatch,
            EvalError::TypeMismatch(op, operands) => Failure::TypeMismatch(
                op@,
                values_of(operands@),
            ),
            EvalError::DivisionByZero => Failure::DivisionByZero,
            EvalError::DepthExceeded => Failure::DepthExceeded,
        }
    }
}

/// The view of what an evaluation returned.
pub open spec fn outcome_of(r: Result<MalType, EvalError>) -> Result<Value, Failure> {
    match r {
        Ok(v) => Ok(v@),
        Err(e) => Err(e@),
    }
}


impl ParseError {
    /// The failure in words, on one line.
    pub open spec fn message_spec(self) -> Seq<char> {
        match self {
            ParseError::UnexpectedEof => "unexpected end of input"@,
            ParseError::UnbalancedCollection => "unbalanced collection"@,
            ParseError::UnterminatedString => "unterminated string"@,
            ParseError::NumberParseError => "number out of range"@,
        }
    }

    /// The failure in words, on one line.
    pub fn message(&self) -> (r: String)
        ensures
            r@ == self.message_spec(),
    {
        match self {
            ParseError::UnexpectedEof => String::from_str("unexpected end of input"),
            ParseError::UnbalancedCollection => String::from_str("unbalanced collection"),
            ParseError::UnterminatedString => String::from_str("unterminated string"),
            ParseError::NumberParseError => String::from_str("number out of range"),
        }
    }
}

impl Failure {
    /// The failure in words. Operands stand in readable form, so that the
    /// words stay on one line.
    pub open spec fn message_spec(self) -> Seq<char> {
        match self {
            Failure::SymbolNotFound(name) => name + " not found"@,
            Failure::NotCallable => "not callable"@,
            Failure::ArityMismatch => "wrong number of operands"@,
            Failure::TypeMismatch(op, operands) => op + ": unexpected operands: "@ + render_items(
                operands,
                true,
            ),
            Failure::DivisionByZero => "division by zero"@,
            Failure::DepthExceeded => "applications nested too deep"@,
        }
    }
}

impl EvalError {
    /// The failure in words, on one line.
    pub fn message(&self) -> (r: String)
        ensures
            r@ == self@.message_spec(),
    {
        match self {
            EvalError::SymbolNotFound(name) => {
                let mut out = name.clone();
                out.append(" not found");
                out
            },
            EvalError::NotCallable => String::from_str("not callable"),
            EvalError::ArityMismatch => String::from_str("wrong number of operands"),
            EvalError::TypeMismatch(op, operands) => {
                let mut out = op.clone();
                out.append(": unexpected operands: ");
                write_items(operands.as_slice(), true, &mut out);
                out
            },
            EvalError::DivisionByZero => String::from_str("division by zero"),
            EvalError::DepthExceeded => String::from_str("applications nested too deep"),
        }
    }
}

impl Clone for EvalError {
    fn clone(&self) -> (r: Self)
        ensures
            r@ == self@,
    {
        match self {
            EvalError::SymbolNotFound(name) => EvalError::SymbolNotFound(name.clone()),
            EvalError::NotCallable => EvalError::NotCallable,
            EvalError::ArityMismatch => EvalError::ArityMismatch,
            EvalError::TypeMismatch(op, operands) => EvalError::TypeMismatch(
                op.clone(),
                clone_items(operands.as_slice()),
            ),
            EvalError::DivisionByZero => EvalError::DivisionByZero,
            EvalError::DepthExceeded => EvalError::DepthExceeded,
        }
    }
}

} // verus!
