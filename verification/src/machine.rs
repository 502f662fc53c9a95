//! What parsing a token sequence means: the two-stack machine.
//!
//! Operands go to the value stack; operators, functions and opening
//! parentheses wait on the operator stack. An operator is applied to the two
//! topmost values when a later token shows that its right operand is
//! complete. Any token sequence has an outcome, a tree or an error: nothing
//! here asks that operands and operators alternate.

use crate::ast::Expr;
use crate::errors::ParseError;
use crate::tokens::{all_wf, IAssociativity, IToken, TokenView};
use vstd::prelude::*;

verus! {

/// The two stacks, tops at the end.
pub struct Machine {
    pub values: Seq<Expr>,
    pub operators: Seq<IToken>,
}

/// The machine after a move, or the reason why it cannot move.
pub type Transition = Result<Machine, ParseError>;

impl Machine {
    /// Both stacks empty.
    pub open spec fn start() -> Machine {
        Machine { values: Seq::empty(), operators: Seq::empty() }
    }

    /// With `value` on top of the value stack.
    pub open spec fn push_value(self, value: Expr) -> Machine {
        Machine { values: self.values.push(value), operators: self.operators }
    }

    /// With `kind` on top of the operator stack.
    pub open spec fn push_operator(self, kind: IToken) -> Machine {
        Machine { values: self.values, operators: self.operators.push(kind) }
    }

    /// Without the top of the operator stack.
    pub open spec fn pop_operator(self) -> Machine {
        Machine { values: self.values, operators: self.operators.drop_last() }
    }

    /// The two topmost values replaced by `value`, and the top of the
    /// operator stack gone.
    pub open spec fn fold(self, value: Expr) -> Machine {
        Machine {
            values: self.values.drop_last().drop_last().push(value),
            operators: self.operators.drop_last(),
        }
    }

    /// The operand below the top of the value stack: the left one.
    pub open spec fn left(self) -> Expr {
        self.values[self.values.len() - 2]
    }

    /// The top of the value stack: the right operand.
    pub open spec fn right(self) -> Expr {
        self.values.last()
    }
}

/// Applies the operator on top of the operator stack to the two topmost
/// values. Too few values is the first thing noticed; a function in the
/// operator's place is the second.
pub open spec fn apply_operator(m: Machine) -> Transition
    recommends
        m.operators.len() > 0,
{
    let operator = m.operators.last();
    if m.values.len() < 2 {
        Err(ParseError::MissingOperand)
    } else if !operator.is_operator() {
        Err(ParseError::FunctionWithoutArguments)
    } else {
        Ok(m.fold(Expr::Binary(operator, Box::new(m.left()), Box::new(m.right()))))
    }
}

/// Applies the function on top of the operator stack to the two topmost
/// values, the lower one first.
pub open spec fn apply_function(m: Machine) -> Transition
    recommends
        m.operators.len() > 0,
        m.operators.last() is Fun,
{
    if m.values.len() < 2 {
        Err(ParseError::MissingOperand)
    } else {
        Ok(m.fold(Expr::Fun(m.operators.last()->Fun_0, Box::new(m.left()), Box::new(m.right()))))
    }
}

/// Whether `top`, waiting on the operator stack, is applied before the
/// operator `incoming` is pushed: it binds at least as tightly, and
/// `incoming` groups to the left. A right-grouping operator makes nothing
/// yield, so a chain of `^` is applied from the right.
pub open spec fn yields_to(top: IToken, incoming: IToken) -> bool {
    &&& top.rank() is Some
    &&& incoming.rank() is Some
    &&& top.rank()->0 >= incoming.rank()->0
    &&& incoming.grouping() == Some(IAssociativity::Left)
}

/// Applies the waiting operators that yield to `incoming`.
pub open spec fn reduce_for(m: Machine, incoming: IToken) -> Transition
    decreases m.operators.len(),
{
    if m.operators.len() > 0 && yields_to(m.operators.last(), incoming) {
        match apply_operator(m) {
            Ok(next) => reduce_for(next, incoming),
            Err(error) => Err(error),
        }
    } else {
        Ok(m)
    }
}

/// Applies the waiting operators down to the nearest opening parenthesis,
/// or to the bottom of the stack if there is none.
pub open spec fn reduce_to_paren(m: Machine) -> Transition
    decreases m.operators.len(),
{
    if m.operators.len() > 0 && !(m.operators.last() is LPar) {
        match apply_operator(m) {
            Ok(next) => reduce_to_paren(next),
            Err(error) => Err(error),
        }
    } else {
        Ok(m)
    }
}

/// A closing parenthesis: what waits above the nearest opening parenthesis
/// is applied, the parenthesis goes, and a function waiting right below it
/// takes the two topmost values as its arguments.
pub open spec fn close_paren(m: Machine) -> Transition {
    match reduce_to_paren(m) {
        Err(error) => Err(error),
        Ok(reduced) => if reduced.operators.len() == 0 {
            Err(ParseError::ImbalancedParenthesis)
        } else {
            let inner = reduced.pop_operator();
            if inner.operators.len() > 0 && inner.operators.last() is Fun {
                apply_function(inner)
            } else {
                Ok(inner)
            }
        },
    }
}

/// One token.
pub open spec fn step(m: Machine, token: TokenView) -> Transition {
    match token.token_type {
        IToken::Num => Ok(m.push_value(Expr::Num(token.literal->0))),
        IToken::Const(constant) => Ok(m.push_value(Expr::Const(constant, token.literal->0))),
        IToken::Fun(function) => Ok(m.push_operator(IToken::Fun(function))),
        IToken::LPar => Ok(m.push_operator(IToken::LPar)),
        IToken::RPar => close_paren(m),
        operator => match reduce_for(m, operator) {
            Ok(reduced) => Ok(reduced.push_operator(operator)),
            Err(error) => Err(error),
        },
    }
}

/// All of `tokens`, from the left, up to the first error.
pub open spec fn run(m: Machine, tokens: Seq<TokenView>) -> Transition
    decreases tokens.len(),
{
    if tokens.len() == 0 {
        Ok(m)
    } else {
        match step(m, tokens[0]) {
            Ok(next) => run(next, tokens.drop_first()),
            Err(error) => Err(error),
        }
    }
}

/// The end of the tokens: every waiting operator is applied. An opening
/// parenthesis that still waits was never closed.
pub open spec fn drain(m: Machine) -> Transition
    decreases m.operators.len(),
{
    if m.operators.len() == 0 {
        Ok(m)
    } else if m.operators.last() is LPar {
        Err(ParseError::ImbalancedParenthesis)
    } else {
        match apply_operator(m) {
            Ok(next) => drain(next),
            Err(error) => Err(error),
        }
    }
}

/// The tree that is left when the tokens have ended: the only value.
pub open spec fn finish(m: Machine) -> Result<Expr, ParseError> {
    match drain(m) {
        Err(error) => Err(error),
        Ok(drained) => if drained.values.len() == 0 {
            Err(ParseError::EmptyExpression)
        } else if drained.values.len() > 1 {
            Err(ParseError::UnusedOperand)
        } else {
            Ok(drained.values[0])
        },
    }
}

/// What is left to do from `m` with `tokens` still to come.
pub open spec fn resume(m: Machine, tokens: Seq<TokenView>) -> Result<Expr, ParseError> {
    match run(m, tokens) {
        Ok(end) => finish(end),
        Err(error) => Err(error),
    }
}

/// The syntax tree of `tokens`, or the first structural error.
pub open spec fn parse(tokens: Seq<TokenView>) -> Result<Expr, ParseError> {
    resume(Machine::start(), tokens)
}

/// Reading the first of the remaining tokens.
pub proof fn lemma_resume_step(m: Machine, tokens: Seq<TokenView>, at: int)
    requires
        0 <= at < tokens.len(),
    ensures
        resume(m, tokens.skip(at)) == (match step(m, tokens[at]) {
            Ok(next) => resume(next, tokens.skip(at + 1)),
            Err(error) => Err(error),
        }),
{
    let rest = tokens.skip(at);
    assert(rest[0] == tokens[at]);
    assert(rest.drop_first() =~= tokens.skip(at + 1));
}

/// Every tree on the value stack is well formed.
pub open spec fn values_wf(m: Machine) -> bool {
    forall|i: int| 0 <= i < m.values.len() ==> (#[trigger] m.values[i]).wf()
}

proof fn lemma_apply_operator_wf(m: Machine)
    requires
        values_wf(m),
    ensures
        apply_operator(m) matches Ok(next) ==> values_wf(next),
{
}

proof fn lemma_reduce_for_wf(m: Machine, incoming: IToken)
    requires
        values_wf(m),
    ensures
        reduce_for(m, incoming) matches Ok(next) ==> values_wf(next),
    decreases m.operators.len(),
{
    if m.operators.len() > 0 && yields_to(m.operators.last(), incoming) {
        lemma_apply_operator_wf(m);
        if let Ok(next) = apply_operator(m) {
            lemma_reduce_for_wf(next, incoming);
        }
    }
}

proof fn lemma_reduce_to_paren_wf(m: Machine)
    requires
        values_wf(m),
    ensures
        reduce_to_paren(m) matches Ok(next) ==> values_wf(next),
    decreases m.operators.len(),
{
    if m.operators.len() > 0 && !(m.operators.last() is LPar) {
        lemma_apply_operator_wf(m);
        if let Ok(next) = apply_operator(m) {
            lemma_reduce_to_paren_wf(next);
        }
    }
}

proof fn lemma_drain_wf(m: Machine)
    requires
        values_wf(m),
    ensures
        drain(m) matches Ok(next) ==> values_wf(next),
    decreases m.operators.len(),
{
    if m.operators.len() > 0 && !(m.operators.last() is LPar) {
        lemma_apply_operator_wf(m);
        if let Ok(next) = apply_operator(m) {
            lemma_drain_wf(next);
        }
    }
}

proof fn lemma_step_wf(m: Machine, token: TokenView)
    requires
        values_wf(m),
        token.wf(),
    ensures
        step(m, token) matches Ok(next) ==> values_wf(next),
{
    match token.token_type {
        IToken::Num | IToken::Const(_) | IToken::Fun(_) | IToken::LPar => {},
        IToken::RPar => {
            lemma_reduce_to_paren_wf(m);
        },
        operator => {
            lemma_reduce_for_wf(m, operator);
        },
    }
}

proof fn lemma_run_wf(m: Machine, tokens: Seq<TokenView>)
    requires
        values_wf(m),
        all_wf(tokens),
    ensures
        run(m, tokens) matches Ok(next) ==> values_wf(next),
    decreases tokens.len(),
{
    if tokens.len() > 0 {
        lemma_step_wf(m, tokens[0]);
        if let Ok(next) = step(m, tokens[0]) {
            let rest = tokens.drop_first();
            assert forall|i: int| 0 <= i < rest.len() implies (#[trigger] rest[i]).wf() by {
                assert(rest[i] == tokens[i + 1]);
            }
            lemma_run_wf(next, rest);
        }
    }
}

/// The tree of well-formed tokens is well formed.
pub proof fn lemma_parse_wf(tokens: Seq<TokenView>)
    requires
        all_wf(tokens),
    ensures
        parse(tokens) matches Ok(tree) ==> tree.wf(),
{
    lemma_run_wf(Machine::start(), tokens);
    if let Ok(end) = run(Machine::start(), tokens) {
        lemma_drain_wf(end);
    }
}

} // verus!
