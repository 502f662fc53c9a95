//! Laws of building an expression from text.

use crate::ast::AstNode;
use crate::characters::char_class;
use crate::errors::{ExpressionError, ExpressionErrorView, LexErrorView};
use crate::expression::{built, expression};
use crate::lexical::tokenize;
use crate::lexical_laws::{
    lemma_separator_redundant, lemma_separators_interchangeable,
    lemma_unidentified_character_after_tokens, lemma_unidentified_character_fails, splits_at,
};
use vstd::prelude::*;

verus! {

/// Building an expression is a function of the text: two outcomes for one
/// text are the same.
pub proof fn lemma_building_is_deterministic(
    s: Seq<char>,
    first: Result<AstNode, ExpressionError>,
    second: Result<AstNode, ExpressionError>,
)
    requires
        built(first) == expression(s),
        built(second) == expression(s),
    ensures
        built(first) == built(second),
{
}

/// A text that holds a character outside the accepted set is no
/// expression: it fails in the tokenizer, before any parsing.
pub proof fn lemma_unidentified_character_is_no_expression(s: Seq<char>, at: int)
    requires
        0 <= at < s.len(),
        char_class(s[at]) is Unidentified,
    ensures
        expression(s) matches Err(error) && error is Lex,
{
    lemma_unidentified_character_fails(s, at);
}

/// Where the text before an unaccepted character has tokens, the error
/// names that character.
pub proof fn lemma_unidentified_character_is_named(before: Seq<char>, c: char, after: Seq<char>)
    requires
        tokenize(before) is Ok,
        char_class(c) is Unidentified,
    ensures
        expression(before + seq![c] + after) == Err::<crate::ast::Expr, ExpressionErrorView>(
            ExpressionErrorView::Lex(LexErrorView::UnidentifiedCharacter(c)),
        ),
{
    lemma_unidentified_character_after_tokens(before, c, after);
}

/// A comma and a space mean the same wherever they stand.
pub proof fn lemma_expression_separators_interchangeable(
    before: Seq<char>,
    one: char,
    other: char,
    after: Seq<char>,
)
    requires
        char_class(one) is Separator,
        char_class(other) is Separator,
    ensures
        expression(before + seq![one] + after) == expression(before + seq![other] + after),
{
    lemma_separators_interchangeable(before, one, other, after);
}

/// A separator that does not keep two lexemes apart changes nothing: the
/// text with it is the same expression, or fails in the same way, as the
/// text without it.
pub proof fn lemma_expression_ignores_separator(
    before: Seq<char>,
    separator: char,
    after: Seq<char>,
)
    requires
        char_class(separator) is Separator,
        splits_at(before, after),
    ensures
        expression(before + seq![separator] + after) == expression(before + after),
{
    lemma_separator_redundant(before, separator, after);
}

} // verus!
