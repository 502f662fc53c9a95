//! Laws of parsing.

use crate::ast::{AstNode, Expr};
use crate::errors::ParseError;
use crate::machine::{
    apply_function, apply_operator, close_paren, drain, parse, reduce_for, reduce_to_paren, run,
    step, yields_to, Machine,
};
use crate::shunting_yard_parser::parsed;
use crate::tokens::{IAssociativity, IFunctions, IToken, TokenView};
use vstd::prelude::*;

verus! {

/// Parsing is a function of the tokens: two outcomes for one token sequence
/// are the same.
pub proof fn lemma_parsing_is_deterministic(
    tokens: Seq<TokenView>,
    first: Result<AstNode, ParseError>,
    second: Result<AstNode, ParseError>,
)
    requires
        parsed(first) == parse(tokens),
        parsed(second) == parse(tokens),
    ensures
        parsed(first) == parsed(second),
{
}

/// Whether the parentheses of `tokens` match, given that `depth` of them are
/// open where `tokens` begins.
pub open spec fn balanced_from(depth: nat, tokens: Seq<TokenView>) -> bool
    decreases tokens.len(),
{
    if tokens.len() == 0 {
        depth == 0
    } else {
        match tokens[0].token_type {
            IToken::LPar => balanced_from(depth + 1, tokens.drop_first()),
            IToken::RPar => depth > 0 && balanced_from((depth - 1) as nat, tokens.drop_first()),
            _ => balanced_from(depth, tokens.drop_first()),
        }
    }
}

/// Every closing parenthesis has its opening parenthesis before it, and no
/// opening parenthesis stays open.
pub open spec fn balanced(tokens: Seq<TokenView>) -> bool {
    balanced_from(0, tokens)
}

/// Number of opening parentheses on the operator stack.
pub open spec fn open_parens(operators: Seq<IToken>) -> nat
    decreases operators.len(),
{
    if operators.len() == 0 {
        0
    } else if operators.last() is LPar {
        open_parens(operators.drop_last()) + 1
    } else {
        open_parens(operators.drop_last())
    }
}

proof fn lemma_open_parens_push(operators: Seq<IToken>, kind: IToken)
    ensures
        open_parens(operators.push(kind)) == open_parens(operators) + if kind is LPar {
            1nat
        } else {
            0nat
        },
{
    assert(operators.push(kind).drop_last() =~= operators);
}

proof fn lemma_reduce_for_parens(m: Machine, incoming: IToken)
    ensures
        reduce_for(m, incoming) matches Ok(next) ==> open_parens(next.operators) == open_parens(
            m.operators,
        ),
    decreases m.operators.len(),
{
    if m.operators.len() > 0 && yields_to(m.operators.last(), incoming) {
        if let Ok(next) = apply_operator(m) {
            lemma_reduce_for_parens(next, incoming);
        }
    }
}

proof fn lemma_reduce_to_paren_parens(m: Machine)
    ensures
        reduce_to_paren(m) matches Ok(next) ==> {
            &&& open_parens(next.operators) == open_parens(m.operators)
            &&& next.operators.len() > 0 ==> next.operators.last() is LPar
        },
    decreases m.operators.len(),
{
    if m.operators.len() > 0 && !(m.operators.last() is LPar) {
        if let Ok(next) = apply_operator(m) {
            lemma_reduce_to_paren_parens(next);
        }
    }
}

proof fn lemma_drain_parens(m: Machine)
    ensures
        drain(m) is Ok ==> open_parens(m.operators) == 0,
    decreases m.operators.len(),
{
    if m.operators.len() > 0 && !(m.operators.last() is LPar) {
        if let Ok(next) = apply_operator(m) {
            lemma_drain_parens(next);
        }
    }
}

proof fn lemma_step_parens(m: Machine, token: TokenView)
    ensures
        step(m, token) matches Ok(next) ==> match token.token_type {
            IToken::LPar => open_parens(next.operators) == open_parens(m.operators) + 1,
            IToken::RPar => open_parens(next.operators) + 1 == open_parens(m.operators),
            _ => open_parens(next.operators) == open_parens(m.operators),
        },
{
    match token.token_type {
        IToken::Num | IToken::Const(_) => {},
        IToken::Fun(function) => {
            lemma_open_parens_push(m.operators, IToken::Fun(function));
        },
        IToken::LPar => {
            lemma_open_parens_push(m.operators, IToken::LPar);
        },
        IToken::RPar => {
            lemma_reduce_to_paren_parens(m);
            if let Ok(reduced) = reduce_to_paren(m) {
                if reduced.operators.len() > 0 {
                    let inner = reduced.pop_operator();
                    assert(open_parens(reduced.operators) == open_parens(inner.operators) + 1);
                    if inner.operators.len() > 0 && inner.operators.last() is Fun {
                        if let Ok(next) = apply_function(inner) {
                            assert(next.operators == inner.operators.drop_last());
                            assert(open_parens(inner.operators) == open_parens(next.operators));
                        }
                    }
                }
            }
        },
        IToken::Pow | IToken::Mul | IToken::Div | IToken::Add | IToken::Sub => {
            let operator = token.token_type;
            lemma_reduce_for_parens(m, operator);
            if let Ok(reduced) = reduce_for(m, operator) {
                lemma_open_parens_push(reduced.operators, operator);
            }
        },
    }
}

proof fn lemma_run_parens(m: Machine, tokens: Seq<TokenView>)
    ensures
        run(m, tokens) matches Ok(end) && open_parens(end.operators) == 0 ==> balanced_from(
            open_parens(m.operators),
            tokens,
        ),
    decreases tokens.len(),
{
    if tokens.len() > 0 {
        lemma_step_parens(m, tokens[0]);
        if let Ok(next) = step(m, tokens[0]) {
            lemma_run_parens(next, tokens.drop_first());
        }
    }
}

/// Only a token sequence with balanced parentheses has a tree: one with an
/// opening or closing parenthesis too many is rejected.
pub proof fn lemma_tree_implies_balanced(tokens: Seq<TokenView>)
    ensures
        parse(tokens) is Ok ==> balanced(tokens),
{
    lemma_run_parens(Machine::start(), tokens);
    if let Ok(end) = run(Machine::start(), tokens) {
        lemma_drain_parens(end);
    }
}

/// The leaf that an operand token becomes.
pub open spec fn leaf(token: TokenView) -> Expr {
    match token.token_type {
        IToken::Const(constant) => Expr::Const(constant, token.literal->0),
        _ => Expr::Num(token.literal->0),
    }
}

/// The node of `operator` over `left` and `right`.
pub open spec fn binary(operator: IToken, left: Expr, right: Expr) -> Expr {
    Expr::Binary(operator, Box::new(left), Box::new(right))
}

/// An operand alone is its own tree.
pub proof fn lemma_single_operand(x: TokenView)
    requires
        x.token_type.is_operand(),
    ensures
        parse(seq![x]) == Ok::<Expr, ParseError>(leaf(x)),
{
    let tokens = seq![x];
    reveal_with_fuel(run, 2);
    assert(tokens.drop_first() =~= Seq::<TokenView>::empty());
    let end = Machine::start().push_value(leaf(x));
    assert(run(Machine::start(), tokens) == Ok::<Machine, ParseError>(end));
    assert(drain(end) == Ok::<Machine, ParseError>(end));
}

/// Running a sequence that begins with `token`.
proof fn lemma_run_first(m: Machine, token: TokenView, rest: Seq<TokenView>)
    ensures
        run(m, seq![token] + rest) == (match step(m, token) {
            Ok(next) => run(next, rest),
            Err(error) => Err(error),
        }),
{
    let tokens = seq![token] + rest;
    assert(tokens[0] == token);
    assert(tokens.drop_first() =~= rest);
}

/// `x first y second z`: the first operator is applied first exactly if it
/// yields to the second, that is if it binds at least as tightly and the
/// second groups to the left. Else the second is applied first.
pub proof fn lemma_two_operators(
    x: TokenView,
    first: IToken,
    y: TokenView,
    second: IToken,
    z: TokenView,
)
    requires
        x.token_type.is_operand(),
        y.token_type.is_operand(),
        z.token_type.is_operand(),
        first.is_operator(),
        second.is_operator(),
    ensures
        parse(seq![x, TokenView::fixed(first), y, TokenView::fixed(second), z]) == Ok::<
            Expr,
            ParseError,
        >(
            if yields_to(first, second) {
                binary(second, binary(first, leaf(x), leaf(y)), leaf(z))
            } else {
                binary(first, leaf(x), binary(second, leaf(y), leaf(z)))
            },
        ),
{
    let t1 = TokenView::fixed(first);
    let t3 = TokenView::fixed(second);
    let tokens = seq![x, t1, y, t3, z];
    let none = Seq::<TokenView>::empty();
    assert(tokens =~= seq![x] + (seq![t1] + (seq![y] + (seq![t3] + (seq![z] + none)))));
    let m0 = Machine::start();
    let m1 = m0.push_value(leaf(x));
    lemma_run_first(m0, x, seq![t1] + (seq![y] + (seq![t3] + (seq![z] + none))));
    assert(step(m0, x) == Ok::<Machine, ParseError>(m1));
    let m2 = m1.push_operator(first);
    lemma_run_first(m1, t1, seq![y] + (seq![t3] + (seq![z] + none)));
    assert(reduce_for(m1, first) == Ok::<Machine, ParseError>(m1));
    assert(step(m1, t1) == Ok::<Machine, ParseError>(m2));
    let m3 = m2.push_value(leaf(y));
    lemma_run_first(m2, y, seq![t3] + (seq![z] + none));
    assert(step(m2, y) == Ok::<Machine, ParseError>(m3));
    lemma_run_first(m3, t3, seq![z] + none);
    assert(m3.operators.last() == first);
    assert(m3.values.len() == 2);
    assert(m3.left() == leaf(x));
    assert(m3.right() == leaf(y));
    if yields_to(first, second) {
        let joined = binary(first, leaf(x), leaf(y));
        let folded = m3.fold(joined);
        assert(apply_operator(m3) == Ok::<Machine, ParseError>(folded));
        assert(folded.operators =~= Seq::<IToken>::empty());
        assert(folded.values =~= seq![joined]);
        assert(reduce_for(folded, second) == Ok::<Machine, ParseError>(folded));
        assert(reduce_for(m3, second) == Ok::<Machine, ParseError>(folded));
        let m4 = folded.push_operator(second);
        assert(step(m3, t3) == Ok::<Machine, ParseError>(m4));
        let m5 = m4.push_value(leaf(z));
        lemma_run_first(m4, z, none);
        assert(step(m4, z) == Ok::<Machine, ParseError>(m5));
        assert(run(m5, none) == Ok::<Machine, ParseError>(m5));
        assert(m5.operators.last() == second);
        assert(m5.values.len() == 2);
        assert(m5.left() == joined);
        assert(m5.right() == leaf(z));
        let tree = binary(second, joined, leaf(z));
        let end = m5.fold(tree);
        assert(apply_operator(m5) == Ok::<Machine, ParseError>(end));
        assert(end.operators =~= Seq::<IToken>::empty());
        assert(end.values =~= seq![tree]);
        assert(drain(end) == Ok::<Machine, ParseError>(end));
        assert(drain(m5) == Ok::<Machine, ParseError>(end));
    } else {
        assert(reduce_for(m3, second) == Ok::<Machine, ParseError>(m3));
        let m4 = m3.push_operator(second);
        assert(step(m3, t3) == Ok::<Machine, ParseError>(m4));
        let m5 = m4.push_value(leaf(z));
        lemma_run_first(m4, z, none);
        assert(step(m4, z) == Ok::<Machine, ParseError>(m5));
        assert(run(m5, none) == Ok::<Machine, ParseError>(m5));
        assert(m5.operators.last() == second);
        assert(m5.values.len() == 3);
        assert(m5.left() == leaf(y));
        assert(m5.right() == leaf(z));
        let inner = binary(second, leaf(y), leaf(z));
        let m6 = m5.fold(inner);
        assert(apply_operator(m5) == Ok::<Machine, ParseError>(m6));
        assert(m6.operators =~= seq![first]);
        assert(m6.values =~= seq![leaf(x), inner]);
        assert(m6.operators.last() == first);
        assert(m6.left() == leaf(x));
        assert(m6.right() == inner);
        let tree = binary(first, leaf(x), inner);
        let end = m6.fold(tree);
        assert(apply_operator(m6) == Ok::<Machine, ParseError>(end));
        assert(end.operators =~= Seq::<IToken>::empty());
        assert(end.values =~= seq![tree]);
        assert(drain(end) == Ok::<Machine, ParseError>(end));
        assert(drain(m6) == Ok::<Machine, ParseError>(end));
        assert(drain(m5) == Ok::<Machine, ParseError>(end));
    }
}

/// An operator that binds tighter than the one before it is applied first:
/// `x + y * z` is `x + (y * z)`.
pub proof fn lemma_tighter_operator_first(
    x: TokenView,
    loose: IToken,
    y: TokenView,
    tight: IToken,
    z: TokenView,
)
    requires
        x.token_type.is_operand(),
        y.token_type.is_operand(),
        z.token_type.is_operand(),
        loose.is_operator(),
        tight.is_operator(),
        loose.rank()->0 < tight.rank()->0,
    ensures
        parse(seq![x, TokenView::fixed(loose), y, TokenView::fixed(tight), z]) == Ok::<
            Expr,
            ParseError,
        >(binary(loose, leaf(x), binary(tight, leaf(y), leaf(z)))),
{
    lemma_two_operators(x, loose, y, tight, z);
}

/// Left-grouping operators of the same rank are applied from the left:
/// `x - y + z` is `(x - y) + z`.
pub proof fn lemma_equal_rank_groups_left(
    x: TokenView,
    first: IToken,
    y: TokenView,
    second: IToken,
    z: TokenView,
)
    requires
        x.token_type.is_operand(),
        y.token_type.is_operand(),
        z.token_type.is_operand(),
        first.is_operator(),
        second.is_operator(),
        first.rank() == second.rank(),
        second.grouping() == Some(IAssociativity::Left),
    ensures
        parse(seq![x, TokenView::fixed(first), y, TokenView::fixed(second), z]) == Ok::<
            Expr,
            ParseError,
        >(binary(second, binary(first, leaf(x), leaf(y)), leaf(z))),
{
    lemma_two_operators(x, first, y, second, z);
}

/// A chain of powers is applied from the right: `x ^ y ^ z` is
/// `x ^ (y ^ z)`.
pub proof fn lemma_power_groups_right(x: TokenView, y: TokenView, z: TokenView)
    requires
        x.token_type.is_operand(),
        y.token_type.is_operand(),
        z.token_type.is_operand(),
    ensures
        parse(seq![x, TokenView::fixed(IToken::Pow), y, TokenView::fixed(IToken::Pow), z]) == Ok::<
            Expr,
            ParseError,
        >(binary(IToken::Pow, leaf(x), binary(IToken::Pow, leaf(y), leaf(z)))),
{
    lemma_two_operators(x, IToken::Pow, y, IToken::Pow, z);
}

/// Parentheses override the ranks: in `(x inner y) outer z` the operator
/// in the parentheses is applied first, whatever the two operators are.
pub proof fn lemma_parentheses_override(
    x: TokenView,
    inner: IToken,
    y: TokenView,
    outer: IToken,
    z: TokenView,
)
    requires
        x.token_type.is_operand(),
        y.token_type.is_operand(),
        z.token_type.is_operand(),
        inner.is_operator(),
        outer.is_operator(),
    ensures
        parse(
            seq![
                TokenView::fixed(IToken::LPar),
                x,
                TokenView::fixed(inner),
                y,
                TokenView::fixed(IToken::RPar),
                TokenView::fixed(outer),
                z,
            ],
        ) == Ok::<Expr, ParseError>(binary(outer, binary(inner, leaf(x), leaf(y)), leaf(z))),
{
    let open = TokenView::fixed(IToken::LPar);
    let close = TokenView::fixed(IToken::RPar);
    let t_inner = TokenView::fixed(inner);
    let t_outer = TokenView::fixed(outer);
    let tokens = seq![open, x, t_inner, y, close, t_outer, z];
    let none = Seq::<TokenView>::empty();
    let r6 = seq![z] + none;
    let r5 = seq![t_outer] + r6;
    let r4 = seq![close] + r5;
    let r3 = seq![y] + r4;
    let r2 = seq![t_inner] + r3;
    let r1 = seq![x] + r2;
    assert(tokens =~= seq![open] + r1);
    let m0 = Machine::start();
    let m1 = m0.push_operator(IToken::LPar);
    lemma_run_first(m0, open, r1);
    assert(step(m0, open) == Ok::<Machine, ParseError>(m1));
    let m2 = m1.push_value(leaf(x));
    lemma_run_first(m1, x, r2);
    assert(step(m1, x) == Ok::<Machine, ParseError>(m2));
    lemma_run_first(m2, t_inner, r3);
    assert(m2.operators.last() == IToken::LPar);
    assert(reduce_for(m2, inner) == Ok::<Machine, ParseError>(m2));
    let m3 = m2.push_operator(inner);
    assert(step(m2, t_inner) == Ok::<Machine, ParseError>(m3));
    let m4 = m3.push_value(leaf(y));
    lemma_run_first(m3, y, r4);
    assert(step(m3, y) == Ok::<Machine, ParseError>(m4));
    lemma_run_first(m4, close, r5);
    assert(m4.operators.last() == inner);
    assert(m4.values.len() == 2);
    assert(m4.left() == leaf(x));
    assert(m4.right() == leaf(y));
    let joined = binary(inner, leaf(x), leaf(y));
    let folded = m4.fold(joined);
    assert(apply_operator(m4) == Ok::<Machine, ParseError>(folded));
    assert(folded.operators =~= seq![IToken::LPar]);
    assert(folded.values =~= seq![joined]);
    assert(folded.operators.last() == IToken::LPar);
    assert(reduce_to_paren(folded) == Ok::<Machine, ParseError>(folded));
    assert(reduce_to_paren(m4) == Ok::<Machine, ParseError>(folded));
    let m5 = folded.pop_operator();
    assert(m5.operators =~= Seq::<IToken>::empty());
    assert(close_paren(m4) == Ok::<Machine, ParseError>(m5));
    assert(step(m4, close) == Ok::<Machine, ParseError>(m5));
    lemma_run_first(m5, t_outer, r6);
    assert(reduce_for(m5, outer) == Ok::<Machine, ParseError>(m5));
    let m6 = m5.push_operator(outer);
    assert(step(m5, t_outer) == Ok::<Machine, ParseError>(m6));
    let m7 = m6.push_value(leaf(z));
    lemma_run_first(m6, z, none);
    assert(step(m6, z) == Ok::<Machine, ParseError>(m7));
    assert(run(m7, none) == Ok::<Machine, ParseError>(m7));
    assert(m7.operators.last() == outer);
    assert(m7.values.len() == 2);
    assert(m7.left() == joined);
    assert(m7.right() == leaf(z));
    let tree = binary(outer, joined, leaf(z));
    let end = m7.fold(tree);
    assert(apply_operator(m7) == Ok::<Machine, ParseError>(end));
    assert(end.operators =~= Seq::<IToken>::empty());
    assert(end.values =~= seq![tree]);
    assert(drain(end) == Ok::<Machine, ParseError>(end));
    assert(drain(m7) == Ok::<Machine, ParseError>(end));
}

/// A function takes the two operands in its parentheses as its arguments,
/// in the order written: `f(x, y)`.
pub proof fn lemma_function_application(function: IFunctions, x: TokenView, y: TokenView)
    requires
        x.token_type.is_operand(),
        y.token_type.is_operand(),
    ensures
        parse(
            seq![
                TokenView::fixed(IToken::Fun(function)),
                TokenView::fixed(IToken::LPar),
                x,
                y,
                TokenView::fixed(IToken::RPar),
            ],
        ) == Ok::<Expr, ParseError>(Expr::Fun(function, Box::new(leaf(x)), Box::new(leaf(y)))),
{
    let name = TokenView::fixed(IToken::Fun(function));
    let open = TokenView::fixed(IToken::LPar);
    let close = TokenView::fixed(IToken::RPar);
    let tokens = seq![name, open, x, y, close];
    let none = Seq::<TokenView>::empty();
    let r4 = seq![close] + none;
    let r3 = seq![y] + r4;
    let r2 = seq![x] + r3;
    let r1 = seq![open] + r2;
    assert(tokens =~= seq![name] + r1);
    let m0 = Machine::start();
    let m1 = m0.push_operator(IToken::Fun(function));
    lemma_run_first(m0, name, r1);
    assert(step(m0, name) == Ok::<Machine, ParseError>(m1));
    let m2 = m1.push_operator(IToken::LPar);
    lemma_run_first(m1, open, r2);
    assert(step(m1, open) == Ok::<Machine, ParseError>(m2));
    let m3 = m2.push_value(leaf(x));
    lemma_run_first(m2, x, r3);
    assert(step(m2, x) == Ok::<Machine, ParseError>(m3));
    let m4 = m3.push_value(leaf(y));
    lemma_run_first(m3, y, r4);
    assert(step(m3, y) == Ok::<Machine, ParseError>(m4));
    lemma_run_first(m4, close, none);
    assert(m4.operators.last() == IToken::LPar);
    assert(reduce_to_paren(m4) == Ok::<Machine, ParseError>(m4));
    let inner = m4.pop_operator();
    assert(inner.operators =~= seq![IToken::Fun(function)]);
    assert(inner.operators.last() == IToken::Fun(function));
    assert(inner.values.len() == 2);
    assert(inner.left() == leaf(x));
    assert(inner.right() == leaf(y));
    let tree = Expr::Fun(function, Box::new(leaf(x)), Box::new(leaf(y)));
    let end = inner.fold(tree);
    assert(apply_function(inner) == Ok::<Machine, ParseError>(end));
    assert(close_paren(m4) == Ok::<Machine, ParseError>(end));
    assert(step(m4, close) == Ok::<Machine, ParseError>(end));
    assert(run(end, none) == Ok::<Machine, ParseError>(end));
    assert(end.operators =~= Seq::<IToken>::empty());
    assert(end.values =~= seq![tree]);
    assert(drain(end) == Ok::<Machine, ParseError>(end));
}

/// The leaves of `tree`, from left to right.
pub open spec fn fringe(tree: Expr) -> Seq<Expr>
    decreases tree,
{
    match tree {
        Expr::Binary(_, left, right) | Expr::Fun(_, left, right) => fringe(*left) + fringe(*right),
        _ => seq![tree],
    }
}

/// The leaves of the trees on a value stack, those of the bottom tree first.
pub open spec fn fringes(values: Seq<Expr>) -> Seq<Expr>
    decreases values.len(),
{
    if values.len() == 0 {
        Seq::empty()
    } else {
        fringes(values.drop_last()) + fringe(values.last())
    }
}

/// The operands among `tokens` as leaves, in the order of the tokens.
pub open spec fn operand_leaves(tokens: Seq<TokenView>) -> Seq<Expr>
    decreases tokens.len(),
{
    if tokens.len() == 0 {
        Seq::empty()
    } else if tokens[0].token_type.is_operand() {
        seq![leaf(tokens[0])] + operand_leaves(tokens.drop_first())
    } else {
        operand_leaves(tokens.drop_first())
    }
}

proof fn lemma_fringes_push(values: Seq<Expr>, value: Expr)
    ensures
        fringes(values.push(value)) == fringes(values) + fringe(value),
{
    assert(values.push(value).drop_last() =~= values);
}

proof fn lemma_fringes_fold(m: Machine, joined: Expr)
    requires
        m.values.len() >= 2,
        fringe(joined) == fringe(m.left()) + fringe(m.right()),
    ensures
        fringes(m.fold(joined).values) == fringes(m.values),
{
    let base = m.values.drop_last().drop_last();
    assert(m.values.drop_last() =~= base.push(m.left()));
    assert(m.values =~= base.push(m.left()).push(m.right()));
    lemma_fringes_push(base, joined);
    lemma_fringes_push(base, m.left());
    lemma_fringes_push(base.push(m.left()), m.right());
    assert(fringes(base) + (fringe(m.left()) + fringe(m.right())) =~= (fringes(base) + fringe(
        m.left(),
    )) + fringe(m.right()));
}

proof fn lemma_apply_operator_fringes(m: Machine)
    ensures
        apply_operator(m) matches Ok(next) ==> fringes(next.values) == fringes(m.values),
{
    if let Ok(next) = apply_operator(m) {
        lemma_fringes_fold(m, binary(m.operators.last(), m.left(), m.right()));
    }
}

proof fn lemma_reduce_for_fringes(m: Machine, incoming: IToken)
    ensures
        reduce_for(m, incoming) matches Ok(next) ==> fringes(next.values) == fringes(m.values),
    decreases m.operators.len(),
{
    if m.operators.len() > 0 && yields_to(m.operators.last(), incoming) {
        lemma_apply_operator_fringes(m);
        if let Ok(next) = apply_operator(m) {
            lemma_reduce_for_fringes(next, incoming);
        }
    }
}

proof fn lemma_reduce_to_paren_fringes(m: Machine)
    ensures
        reduce_to_paren(m) matches Ok(next) ==> fringes(next.values) == fringes(m.values),
    decreases m.operators.len(),
{
    if m.operators.len() > 0 && !(m.operators.last() is LPar) {
        lemma_apply_operator_fringes(m);
        if let Ok(next) = apply_operator(m) {
            lemma_reduce_to_paren_fringes(next);
        }
    }
}

proof fn lemma_drain_fringes(m: Machine)
    ensures
        drain(m) matches Ok(next) ==> fringes(next.values) == fringes(m.values),
    decreases m.operators.len(),
{
    if m.operators.len() > 0 && !(m.operators.last() is LPar) {
        lemma_apply_operator_fringes(m);
        if let Ok(next) = apply_operator(m) {
            lemma_drain_fringes(next);
        }
    }
}

proof fn lemma_step_fringes(m: Machine, token: TokenView)
    ensures
        step(m, token) matches Ok(next) ==> fringes(next.values) == fringes(m.values) + (
        if token.token_type.is_operand() {
            seq![leaf(token)]
        } else {
            Seq::empty()
        }),
{
    let nothing = Seq::<Expr>::empty();
    assert(fringes(m.values) + nothing =~= fringes(m.values));
    match token.token_type {
        IToken::Num | IToken::Const(_) => {
            lemma_fringes_push(m.values, leaf(token));
        },
        IToken::Fun(_) | IToken::LPar => {},
        IToken::RPar => {
            lemma_reduce_to_paren_fringes(m);
            if let Ok(reduced) = reduce_to_paren(m) {
                if reduced.operators.len() > 0 {
                    let inner = reduced.pop_operator();
                    if inner.operators.len() > 0 && inner.operators.last() is Fun {
                        if let Ok(next) = apply_function(inner) {
                            lemma_fringes_fold(
                                inner,
                                Expr::Fun(
                                    inner.operators.last()->Fun_0,
                                    Box::new(inner.left()),
                                    Box::new(inner.right()),
                                ),
                            );
                        }
                    }
                }
            }
        },
        IToken::Pow | IToken::Mul | IToken::Div | IToken::Add | IToken::Sub => {
            lemma_reduce_for_fringes(m, token.token_type);
        },
    }
}

proof fn lemma_run_fringes(m: Machine, tokens: Seq<TokenView>)
    ensures
        run(m, tokens) matches Ok(end) ==> fringes(end.values) == fringes(m.values)
            + operand_leaves(tokens),
    decreases tokens.len(),
{
    if tokens.len() == 0 {
        assert(fringes(m.values) + Seq::<Expr>::empty() =~= fringes(m.values));
    } else {
        lemma_step_fringes(m, tokens[0]);
        if let Ok(next) = step(m, tokens[0]) {
            let rest = tokens.drop_first();
            lemma_run_fringes(next, rest);
            let head = if tokens[0].token_type.is_operand() {
                seq![leaf(tokens[0])]
            } else {
                Seq::<Expr>::empty()
            };
            assert(operand_leaves(tokens) =~= head + operand_leaves(rest));
            assert((fringes(m.values) + head) + operand_leaves(rest) =~= fringes(m.values) + (head
                + operand_leaves(rest)));
        }
    }
}

/// The leaves of the tree are the operands among the tokens, each once and
/// in the order written: the parser drops, repeats and reorders none.
pub proof fn lemma_tree_keeps_operands(tokens: Seq<TokenView>)
    ensures
        parse(tokens) matches Ok(tree) ==> fringe(tree) == operand_leaves(tokens),
{
    let start = Machine::start();
    lemma_run_fringes(start, tokens);
    if let Ok(end) = run(start, tokens) {
        lemma_drain_fringes(end);
        if let Ok(drained) = drain(end) {
            if drained.values.len() == 1 {
                let tree = drained.values[0];
                assert(drained.values.drop_last() =~= Seq::<Expr>::empty());
                assert(fringes(drained.values) =~= fringe(tree));
                assert(fringes(start.values) + operand_leaves(tokens) =~= operand_leaves(tokens));
            }
        }
    }
}

} // verus!
