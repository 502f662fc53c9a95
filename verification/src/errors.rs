//! What can go wrong, as values.

use vstd::prelude::*;

verus! {

/// Why a text could not be turned into tokens.
#[derive(Debug, Clone, PartialEq)]
pub enum LexError {
    /// A character outside the accepted set.
    UnidentifiedCharacter(char),
    /// A run of letters that names no function and no constant.
    UnidentifiedIdentifier(String),
    /// A run of numeric characters and points that is no decimal numeral.
    MalformedNumber(String),
}

/// A lexical error as a mathematical value.
pub enum LexErrorView {
    UnidentifiedCharacter(char),
    UnidentifiedIdentifier(Seq<char>),
    MalformedNumber(Seq<char>),
}

impl View for LexError {
    type V = LexErrorView;

    open spec fn view(&self) -> LexErrorView {
        match self {
            LexError::UnidentifiedCharacter(c) => LexErrorView::UnidentifiedCharacter(*c),
            LexError::UnidentifiedIdentifier(name) => LexErrorView::UnidentifiedIdentifier(name@),
            LexError::MalformedNumber(text) => LexErrorView::MalformedNumber(text@),
        }
    }
}

/// Why a token sequence is no expression.
#[derive(Debug, Copy, Clone, PartialEq, Eq, Structural)]
pub enum ParseError {
    /// A parenthesis without its partner.
    ImbalancedParenthesis,
    /// An operator or a function that finds fewer than two operands to take.
    MissingOperand,
    /// A function that is not followed by a parenthesised argument list.
    FunctionWithoutArguments,
    /// No operand at all.
    EmptyExpression,
    /// More operands than the operators and functions consume.
    UnusedOperand,
}

/// Why a text is no expression.
#[derive(Debug, Clone, PartialEq)]
pub enum ExpressionError {
    /// The text has no tokens.
    Lex(LexError),
    /// The tokens have no tree.
    Parse(ParseError),
}

/// An expression error as a mathematical value.
pub enum ExpressionErrorView {
    Lex(LexErrorView),
    Parse(ParseError),
}

impl View for ExpressionError {
    type V = ExpressionErrorView;

    open spec fn view(&self) -> ExpressionErrorView {
        match self {
            ExpressionError::Lex(error) => ExpressionErrorView::Lex(error@),
            ExpressionError::Parse(error) => ExpressionErrorView::Parse(*error),
        }
    }
}

} // verus!
