//! The parser: the two-stack machine, run over a token sequence.

use crate::ast::{AstNode, Expr};
use crate::errors::ParseError;
use crate::machine::{
    apply_function, apply_operator, close_paren, drain, finish, lemma_parse_wf,
    lemma_resume_step, parse, reduce_for, reduce_to_paren, resume, step, yields_to, Machine,
};
use crate::tokens::{all_wf, IAssociativity, IToken, Token};
use vstd::prelude::*;

verus! {

/// The two stacks as a mathematical value.
pub open spec fn stacks(value_stack: &Vec<AstNode>, operator_stack: &Vec<IToken>) -> Machine {
    Machine { values: value_stack.deep_view(), operators: operator_stack@ }
}

/// The outcome of parsing as a mathematical value.
pub open spec fn parsed(outcome: Result<AstNode, ParseError>) -> Result<Expr, ParseError> {
    match outcome {
        Ok(ast) => Ok(ast@),
        Err(error) => Err(error),
    }
}

/// The syntax tree of one token sequence.
pub struct ShuntingYardParser {
    ast: AstNode,
}

impl View for ShuntingYardParser {
    type V = Expr;

    closed spec fn view(&self) -> Expr {
        self.ast@
    }
}

impl ShuntingYardParser {
    /// Parses `token_stream`: the syntax tree, or the first structural error.
    pub fn build(token_stream: &[Token]) -> (outcome: Result<ShuntingYardParser, ParseError>)
        requires
            all_wf(token_stream.deep_view()),
        ensures
            match parse(token_stream.deep_view()) {
                Ok(tree) => outcome matches Ok(parser) && parser@ == tree,
                Err(error) => outcome matches Err(e) && e == error,
            },
            outcome matches Ok(parser) ==> parser@.wf(),
    {
        proof {
            lemma_parse_wf(token_stream.deep_view());
        }
        let mut value_stack: Vec<AstNode> = Vec::new();
        let mut operator_stack: Vec<IToken> = Vec::new();
        let ghost tokens = token_stream.deep_view();
        proof {
            assert(tokens.skip(0) =~= tokens);
            assert(stacks(&value_stack, &operator_stack).values =~= Machine::start().values);
        }
        let mut position: usize = 0;
        while position < token_stream.len()
            invariant
                position <= token_stream.len(),
                tokens == token_stream.deep_view(),
                all_wf(tokens),
                parse(tokens) == resume(
                    stacks(&value_stack, &operator_stack),
                    tokens.skip(position as int),
                ),
            decreases token_stream.len() - position,
        {
            let token = &token_stream[position];
            let ghost before = stacks(&value_stack, &operator_stack);
            proof {
                lemma_resume_step(before, tokens, position as int);
                assert(tokens[position as int] == token@);
                assert(token@.wf());
            }
            match token.token_type {
                IToken::Num => {
                    match &token.literal {
                        Some(text) => {
                            value_stack.push(AstNode::Num { literal: text.clone() });
                        },
                        None => {},
                    }
                    proof {
                        assert(value_stack.deep_view() =~= before.values.push(
                            Expr::Num(token@.literal->0),
                        ));
                    }
                },
                IToken::Const(constant) => {
                    match &token.literal {
                        Some(text) => {
                            value_stack.push(AstNode::Const { constant, literal: text.clone() });
                        },
                        None => {},
                    }
                    proof {
                        assert(value_stack.deep_view() =~= before.values.push(
                            Expr::Const(constant, token@.literal->0),
                        ));
                    }
                },
                IToken::Fun(_) => {
                    operator_stack.push(token.token_type);
                },
                IToken::Add | IToken::Sub | IToken::Div | IToken::Mul | IToken::Pow => {
                    match Self::reduce_for_operator(value_stack, operator_stack, token) {
                        Ok((values, operators)) => {
                            value_stack = values;
                            operator_stack = operators;
                        },
                        Err(error) => {
                            return Err(error);
                        },
                    }
                },
                IToken::LPar => {
                    operator_stack.push(IToken::LPar);
                },
                IToken::RPar => {
                    match Self::close_parenthesis(value_stack, operator_stack) {
                        Ok((values, operators)) => {
                            value_stack = values;
                            operator_stack = operators;
                        },
                        Err(error) => {
                            return Err(error);
                        },
                    }
                },
            }
            position = position + 1;
        }
        proof {
            assert(tokens.skip(position as int).len() == 0);
        }
        match Self::take_tree(value_stack, operator_stack) {
            Ok(ast) => Ok(ShuntingYardParser { ast }),
            Err(error) => Err(error),
        }
    }

    /// Pops the operator on top of the operator stack and its two operands,
    /// and pushes the node that joins them. Changes nothing where it fails.
    fn evaluate_operator(
        value_stack: &mut Vec<AstNode>,
        operator_stack: &mut Vec<IToken>,
    ) -> (outcome: Result<(), ParseError>)
        requires
            old(operator_stack)@.len() > 0,
        ensures
            match apply_operator(stacks(old(value_stack), old(operator_stack))) {
                Ok(next) => outcome is Ok && stacks(final(value_stack), final(operator_stack))
                    == next,
                Err(error) => {
                    &&& outcome == Err::<(), ParseError>(error)
                    &&& *final(value_stack) == *old(value_stack)
                    &&& *final(operator_stack) == *old(operator_stack)
                },
            },
    {
        let operator = operator_stack[operator_stack.len() - 1];
        if value_stack.len() < 2 {
            return Err(ParseError::MissingOperand);
        }
        match operator {
            IToken::Pow | IToken::Mul | IToken::Div | IToken::Add | IToken::Sub => {},
            _ => {
                return Err(ParseError::FunctionWithoutArguments);
            },
        }
        let ghost before = stacks(value_stack, operator_stack);
        operator_stack.pop();
        let arg_2 = value_stack.pop().unwrap();
        let arg_1 = value_stack.pop().unwrap();
        let ghost joined = Expr::Binary(operator, Box::new(arg_1@), Box::new(arg_2@));
        value_stack.push(AstNode::binary(operator, arg_1, arg_2));
        proof {
            assert(before.left() == arg_1@);
            assert(before.right() == arg_2@);
            assert(value_stack.deep_view() =~= before.fold(joined).values);
            assert(operator_stack@ =~= before.fold(joined).operators);
        }
        Ok(())
    }

    /// Pops the function on top of the operator stack and its two arguments,
    /// and pushes the node that joins them. Changes nothing where it fails.
    fn evaluate_function(
        value_stack: &mut Vec<AstNode>,
        operator_stack: &mut Vec<IToken>,
    ) -> (outcome: Result<(), ParseError>)
        requires
            old(operator_stack)@.len() > 0,
            old(operator_stack)@.last() is Fun,
        ensures
            match apply_function(stacks(old(value_stack), old(operator_stack))) {
                Ok(next) => outcome is Ok && stacks(final(value_stack), final(operator_stack))
                    == next,
                Err(error) => {
                    &&& outcome == Err::<(), ParseError>(error)
                    &&& *final(value_stack) == *old(value_stack)
                    &&& *final(operator_stack) == *old(operator_stack)
                },
            },
    {
        if value_stack.len() < 2 {
            return Err(ParseError::MissingOperand);
        }
        let ghost before = stacks(value_stack, operator_stack);
        match operator_stack.pop() {
            Some(IToken::Fun(function)) => {
                let arg_2 = value_stack.pop().unwrap();
                let arg_1 = value_stack.pop().unwrap();
                let ghost joined = Expr::Fun(function, Box::new(arg_1@), Box::new(arg_2@));
                value_stack.push(
                    AstNode::Fun { function, left: Box::new(arg_1), right: Box::new(arg_2) },
                );
                proof {
                    assert(before.left() == arg_1@);
                    assert(before.right() == arg_2@);
                    assert(value_stack.deep_view() =~= before.fold(joined).values);
                    assert(operator_stack@ =~= before.fold(joined).operators);
                }
            },
            _ => {},
        }
        Ok(())
    }

    /// Whether the operator on top of the operator stack is applied before
    /// the operator `token` is pushed.
    fn top_yields(operator_stack: &Vec<IToken>, token: &Token) -> (yields: bool)
        requires
            token@.wf(),
        ensures
            yields == (operator_stack@.len() > 0 && yields_to(
                operator_stack@.last(),
                token@.token_type,
            )),
    {
        if operator_stack.is_empty() {
            return false;
        }
        let top = operator_stack[operator_stack.len() - 1];
        if top == IToken::LPar {
            return false;
        }
        let groups_left = match token.associativity {
            Some(IAssociativity::Left) => true,
            _ => false,
        };
        match (top.precedence(), token.precedence) {
            (Some(waiting), Some(incoming)) => waiting >= incoming && groups_left,
            _ => false,
        }
    }

    /// Whether something other than an opening parenthesis is on top of the
    /// operator stack.
    fn operator_waits(operator_stack: &Vec<IToken>) -> (waits: bool)
        ensures
            waits == (operator_stack@.len() > 0 && !(operator_stack@.last() is LPar)),
    {
        !operator_stack.is_empty() && operator_stack[operator_stack.len() - 1] != IToken::LPar
    }

    /// The operator `token`: applies the waiting operators that yield to it,
    /// then pushes it. Gives the stacks back as they are then.
    fn reduce_for_operator(
        value_stack: Vec<AstNode>,
        operator_stack: Vec<IToken>,
        token: &Token,
    ) -> (outcome: Result<(Vec<AstNode>, Vec<IToken>), ParseError>)
        requires
            token@.wf(),
            token@.token_type.is_operator(),
        ensures
            match step(stacks(&value_stack, &operator_stack), token@) {
                Ok(next) => outcome matches Ok(pair) && stacks(&pair.0, &pair.1) == next,
                Err(error) => outcome matches Err(e) && e == error,
            },
    {
        let mut values = value_stack;
        let mut operators = operator_stack;
        let ghost incoming = token@.token_type;
        while Self::top_yields(&operators, token)
            invariant
                token@.wf(),
                incoming == token@.token_type,
                reduce_for(stacks(&value_stack, &operator_stack), incoming) == reduce_for(
                    stacks(&values, &operators),
                    incoming,
                ),
            decreases operators@.len(),
        {
            match Self::evaluate_operator(&mut values, &mut operators) {
                Ok(()) => {},
                Err(error) => {
                    return Err(error);
                },
            }
        }
        operators.push(token.token_type);
        Ok((values, operators))
    }

    /// A closing parenthesis: applies what waits above the nearest opening
    /// parenthesis, drops the parenthesis, and applies a function that waits
    /// right below it. Gives the stacks back as they are then.
    fn close_parenthesis(value_stack: Vec<AstNode>, operator_stack: Vec<IToken>) -> (outcome:
        Result<(Vec<AstNode>, Vec<IToken>), ParseError>)
        ensures
            match close_paren(stacks(&value_stack, &operator_stack)) {
                Ok(next) => outcome matches Ok(pair) && stacks(&pair.0, &pair.1) == next,
                Err(error) => outcome matches Err(e) && e == error,
            },
    {
        let mut values = value_stack;
        let mut operators = operator_stack;
        let ghost start = stacks(&value_stack, &operator_stack);
        while Self::operator_waits(&operators)
            invariant
                start == stacks(&value_stack, &operator_stack),
                reduce_to_paren(start) == reduce_to_paren(stacks(&values, &operators)),
            decreases operators@.len(),
        {
            match Self::evaluate_operator(&mut values, &mut operators) {
                Ok(()) => {},
                Err(error) => {
                    return Err(error);
                },
            }
        }
        if operators.is_empty() {
            return Err(ParseError::ImbalancedParenthesis);
        }
        operators.pop();
        proof {
            assert(operators@ =~= reduce_to_paren(start)->Ok_0.pop_operator().operators);
        }
        if !operators.is_empty() {
            match operators[operators.len() - 1] {
                IToken::Fun(_) => {
                    match Self::evaluate_function(&mut values, &mut operators) {
                        Ok(()) => {},
                        Err(error) => {
                            return Err(error);
                        },
                    }
                },
                _ => {},
            }
        }
        Ok((values, operators))
    }

    /// The end of the tokens: applies every waiting operator and hands out
    /// the only value that is left.
    fn take_tree(value_stack: Vec<AstNode>, operator_stack: Vec<IToken>) -> (outcome: Result<
        AstNode,
        ParseError,
    >)
        ensures
            parsed(outcome) == finish(stacks(&value_stack, &operator_stack)),
    {
        let mut values = value_stack;
        let mut operators = operator_stack;
        while !operators.is_empty()
            invariant
                drain(stacks(&value_stack, &operator_stack)) == drain(stacks(&values, &operators)),
            decreases operators@.len(),
        {
            if operators[operators.len() - 1] == IToken::LPar {
                return Err(ParseError::ImbalancedParenthesis);
            }
            match Self::evaluate_operator(&mut values, &mut operators) {
                Ok(()) => {},
                Err(error) => {
                    return Err(error);
                },
            }
        }
        if values.len() == 0 {
            return Err(ParseError::EmptyExpression);
        }
        if values.len() > 1 {
            return Err(ParseError::UnusedOperand);
        }
        match values.pop() {
            Some(ast) => Ok(ast),
            None => Err(ParseError::EmptyExpression),
        }
    }

    /// The syntax tree.
    pub fn ast(&self) -> (ast: &AstNode)
        ensures
            ast@ == self@,
    {
        &self.ast
    }

    /// The syntax tree, by value.
    pub fn into_ast(self) -> (ast: AstNode)
        ensures
            ast@ == self@,
    {
        self.ast
    }
}

/// Parses `tokens`: the syntax tree, or the first structural error.
pub fn parse_expression(tokens: &[Token]) -> (outcome: Result<AstNode, ParseError>)
    requires
        all_wf(tokens.deep_view()),
    ensures
        parsed(outcome) == parse(tokens.deep_view()),
        outcome matches Ok(ast) ==> ast@.wf(),
{
    match ShuntingYardParser::build(tokens) {
        Ok(parser) => Ok(parser.into_ast()),
        Err(error) => Err(error),
    }
}

} // verus!
