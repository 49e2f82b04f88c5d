use vstd::prelude::*;

verus! {

/// Why a token sequence failed to parse.
#[derive(Debug, Clone, Copy, PartialEq, Eq)]
pub enum ParseErrorKind {
    /// The token at the cursor cannot begin a term, or the tokens ran out
    /// where a term was required.
    UnexpectedToken,
    /// A `(` was not closed by a `)`.
    UnclosedParen,
    /// A full expression was parsed but tokens remain after it.
    TrailingTokens,
    /// A number literal does not fit in an `i32`.
    NumberTooLarge,
}

/// Why evaluation of an expression tree failed.
#[derive(Debug, PartialEq, Eq)]
pub enum EvalErrorKind {
    /// A variable was read before any assignment gave it a value.
    UnboundVariable(String),
    /// The target of an assignment is not a variable reference.
    InvalidAssignmentTarget,
    /// An arithmetic result does not fit in an `i32`.
    Overflow,
}

/// Spec-level model of [`EvalErrorKind`]: the variable name as its characters.
pub enum EvalErrorModel {
    UnboundVariable(Seq<char>),
    InvalidAssignmentTarget,
    Overflow,
}

impl View for EvalErrorKind {
    type V = EvalErrorModel;

    open spec fn view(&self) -> EvalErrorModel {
        match self {
            EvalErrorKind::UnboundVariable(name) => EvalErrorModel::UnboundVariable(name@),
            EvalErrorKind::InvalidAssignmentTarget => EvalErrorModel::InvalidAssignmentTarget,
            EvalErrorKind::Overflow => EvalErrorModel::Overflow,
        }
    }
}

/// Any failure of the pipeline: one variant per stage.
#[derive(Debug, PartialEq, Eq)]
pub enum Error {
    /// The lexer met a character it does not recognise; it is carried here.
    LexError(char),
    /// The parser could not build an expression from the tokens.
    ParseError(ParseErrorKind),
    /// The evaluator could not produce a value.
    EvalError(EvalErrorKind),
}

} // verus!
