use shunting_parser::ast::AstNode;
use shunting_parser::errors::{ExpressionError, LexError, ParseError};
use shunting_parser::expression::build_expression;
use shunting_parser::tokens::IFunctions;

fn evaluate(node: &AstNode) -> f64 {
    match node {
        AstNode::Num { literal } => literal.parse::<f64>().unwrap(),
        AstNode::Const { literal, .. } => literal.parse::<f64>().unwrap(),
        AstNode::Pow { left, right } => evaluate(left).powf(evaluate(right)),
        AstNode::Mul { left, right } => evaluate(left) * evaluate(right),
        AstNode::Div { left, right } => evaluate(left) / evaluate(right),
        AstNode::Add { left, right } => evaluate(left) + evaluate(right),
        AstNode::Sub { left, right } => evaluate(left) - evaluate(right),
        AstNode::Fun { function, left, right } => {
            let first = evaluate(left);
            let second = evaluate(right);
            match function {
                IFunctions::Max => {
                    if first > second {
                        first
                    } else {
                        second
                    }
                }
                IFunctions::Min => {
                    if first < second {
                        first
                    } else {
                        second
                    }
                }
            }
        }
    }
}

fn evaluate_expression_shunting_yard(expr: &str) -> f64 {
    evaluate(&build_expression(expr).unwrap())
}

#[test]
fn can_evaluate_expressions_with_simple_operators() {
    assert_eq!(4.0, evaluate_expression_shunting_yard("2+2"));
    assert_eq!(11.0, evaluate_expression_shunting_yard("3 + 4 * 2 / 1 ^ 2 ^ 3"));
}

#[test]
fn can_evaluate_expressions_with_simple_operators_and_parenthesis() {
    assert_eq!(
        3.0001220703125,
        evaluate_expression_shunting_yard("3 + 4 * 2 / ( 1 - 5 ) ^ 2 ^ 3")
    );
}

#[test]
fn can_evaluate_expressions_with_constants() {
    assert_eq!(0.9141592653589999, evaluate_expression_shunting_yard("((2*3) + pi) / 10"));
}

#[test]
fn can_evaluate_expressions_with_functions() {
    assert_eq!(1.0, evaluate_expression_shunting_yard("min(1,2)"));
    assert_eq!(14.206, evaluate_expression_shunting_yard("max(14.206, 14.201)"));
}

#[test]
fn can_evaluate_expressions_with_simple_operators_and_parenthesis_and_functions() {
    assert_eq!(
        3.0001220703125,
        evaluate_expression_shunting_yard("3 + 4 * 2 / ( 1 - max(5, 2) ) ^ min(2,11) ^ 3")
    );
}

#[test]
fn precedence_decides_the_value() {
    assert_eq!(14.0, evaluate_expression_shunting_yard("2+3*4"));
}

#[test]
fn parentheses_decide_the_value() {
    assert_eq!(20.0, evaluate_expression_shunting_yard("(2+3)*4"));
}

#[test]
fn a_chain_of_powers_is_evaluated_from_the_right() {
    assert_eq!(512.0, evaluate_expression_shunting_yard("2^3^2"));
    assert_eq!(64.0, evaluate_expression_shunting_yard("(2^3)^2"));
}

#[test]
fn subtraction_and_division_are_evaluated_from_the_left() {
    assert_eq!(3.0, evaluate_expression_shunting_yard("8-3-2"));
    assert_eq!(1.0, evaluate_expression_shunting_yard("8/4/2"));
}

#[test]
fn division_by_zero_is_a_value() {
    assert_eq!(f64::INFINITY, evaluate_expression_shunting_yard("1/0"));
    assert!(evaluate_expression_shunting_yard("0/0").is_nan());
    assert!(evaluate_expression_shunting_yard("(0-8)^0.5").is_nan());
}

#[test]
fn a_power_may_be_fractional_or_negative() {
    assert_eq!(3.0, evaluate_expression_shunting_yard("9^0.5"));
    assert_eq!(0.25, evaluate_expression_shunting_yard("2^(0-2)"));
}

#[test]
fn spaces_and_commas_do_not_change_the_value() {
    assert_eq!(build_expression("3 + 4 * 2"), build_expression("3+4*2"));
    assert_eq!(11.0, evaluate_expression_shunting_yard("3 + 4 * 2"));
    assert_eq!(11.0, evaluate_expression_shunting_yard("3+4*2"));
    assert_eq!(11.0, evaluate_expression_shunting_yard(",3,+,4,*,2,"));
    assert_eq!(build_expression("min(1,2)"), build_expression("min(1 2)"));
    assert_eq!(build_expression("min(1,2)"), build_expression("min ( 1 , 2 )"));
}

#[test]
fn evaluating_twice_gives_the_same_value() {
    let text = "3 + 4 * 2 / ( 1 - max(5, 2) ) ^ min(2,11) ^ 3";
    assert_eq!(build_expression(text), build_expression(text));
    assert_eq!(
        evaluate_expression_shunting_yard(text).to_bits(),
        evaluate_expression_shunting_yard(text).to_bits()
    );
}

#[test]
fn an_unsupported_character_is_a_lexical_error() {
    assert_eq!(
        build_expression("2+2_"),
        Err(ExpressionError::Lex(LexError::UnidentifiedCharacter('_')))
    );
    assert_eq!(
        build_expression("2 # 2"),
        Err(ExpressionError::Lex(LexError::UnidentifiedCharacter('#')))
    );
}

#[test]
fn an_unknown_identifier_is_its_own_error() {
    assert_eq!(
        build_expression("2+sin(1)"),
        Err(ExpressionError::Lex(LexError::UnidentifiedIdentifier(String::from("sin"))))
    );
}

#[test]
fn a_malformed_number_is_its_own_error() {
    assert_eq!(
        build_expression("1.2.3+1"),
        Err(ExpressionError::Lex(LexError::MalformedNumber(String::from("1.2.3"))))
    );
}

#[test]
fn imbalanced_parentheses_are_structural_errors() {
    assert_eq!(
        build_expression("(2+3"),
        Err(ExpressionError::Parse(ParseError::ImbalancedParenthesis))
    );
    assert_eq!(
        build_expression("2+3)"),
        Err(ExpressionError::Parse(ParseError::ImbalancedParenthesis))
    );
}

#[test]
fn a_lexical_error_comes_before_a_structural_one() {
    assert_eq!(
        build_expression("(2+_"),
        Err(ExpressionError::Lex(LexError::UnidentifiedCharacter('_')))
    );
    assert_eq!(
        build_expression(")+foo"),
        Err(ExpressionError::Lex(LexError::UnidentifiedIdentifier(String::from("foo"))))
    );
}

#[test]
fn every_structural_error_reaches_the_caller() {
    assert_eq!(build_expression("2+"), Err(ExpressionError::Parse(ParseError::MissingOperand)));
    assert_eq!(
        build_expression("min 1 2"),
        Err(ExpressionError::Parse(ParseError::FunctionWithoutArguments))
    );
    assert_eq!(build_expression(""), Err(ExpressionError::Parse(ParseError::EmptyExpression)));
    assert_eq!(build_expression("1 2"), Err(ExpressionError::Parse(ParseError::UnusedOperand)));
}
