//! From text to syntax tree in one call.

use crate::ast::{AstNode, Expr};
use crate::errors::{ExpressionError, ExpressionErrorView};
use crate::lexical::tokenize;
use crate::machine::parse;
use crate::shunting_yard_parser::parse_expression;
use crate::tokenizer::build_lexer;
use vstd::prelude::*;

verus! {

/// The syntax tree of the text `s`: its tokens, parsed. A lexical error
/// comes before any structural one.
pub open spec fn expression(s: Seq<char>) -> Result<Expr, ExpressionErrorView> {
    match tokenize(s) {
        Err(error) => Err(ExpressionErrorView::Lex(error)),
        Ok(tokens) => match parse(tokens) {
            Err(error) => Err(ExpressionErrorView::Parse(error)),
            Ok(tree) => Ok(tree),
        },
    }
}

/// The outcome of building an expression as a mathematical value.
pub open spec fn built(outcome: Result<AstNode, ExpressionError>) -> Result<
    Expr,
    ExpressionErrorView,
> {
    match outcome {
        Ok(ast) => Ok(ast@),
        Err(error) => Err(error@),
    }
}

/// Tokenizes and parses `expr`. The tree that comes out is well formed.
pub fn build_expression(expr: &str) -> (outcome: Result<AstNode, ExpressionError>)
    ensures
        built(outcome) == expression(expr@),
        outcome matches Ok(ast) ==> ast@.wf(),
{
    let tokens = match build_lexer(expr) {
        Ok(tokens) => tokens,
        Err(error) => {
            return Err(ExpressionError::Lex(error));
        },
    };
    let slice = tokens.as_slice();
    proof {
        assert(slice.deep_view() =~= tokens.deep_view());
    }
    match parse_expression(slice) {
        Ok(ast) => Ok(ast),
        Err(error) => Err(ExpressionError::Parse(error)),
    }
}

} // verus!
