//! Writing a tree out as tokens, and reading it back.
//!
//! A tree is written in the usual way: operands and operators in order, a
//! function before its parenthesised arguments, and parentheses around an
//! operand exactly where the operand's own operator would otherwise be
//! applied too late or too early. The parser reads every such sequence back
//! to the tree it was written from.

use crate::ast::Expr;
use crate::errors::ParseError;
use crate::machine::{
    apply_function, apply_operator, close_paren, drain, parse, reduce_for, reduce_to_paren, run,
    step, yields_to, Machine,
};
use crate::tokens::{IToken, TokenView};
use vstd::prelude::*;

verus! {

/// The token that a leaf is written as.
pub open spec fn operand_token(leaf: Expr) -> TokenView {
    match leaf {
        Expr::Const(constant, text) => TokenView {
            token_type: IToken::Const(constant),
            associativity: None,
            precedence: None,
            literal: Some(text),
        },
        Expr::Num(text) => TokenView::number(text),
        _ => TokenView::number(Seq::empty()),
    }
}

/// A left operand may stand without parentheses if it is an operator node
/// whose operator yields to `parent`: it is then applied before `parent` is
/// pushed.
pub open spec fn open_left(parent: IToken, child: Expr) -> bool {
    child is Binary && yields_to(child.kind(), parent)
}

/// A right operand may stand without parentheses if it is an operator node
/// to whose operator `parent` does not yield: `parent` then waits for it.
pub open spec fn open_right(parent: IToken, child: Expr) -> bool {
    child is Binary && !yields_to(parent, child.kind())
}

/// The tokens that `tree` is written as; with `enclose`, an operator node
/// is put in parentheses.
pub open spec fn render(tree: Expr, enclose: bool) -> Seq<TokenView>
    decreases tree, (if enclose {
        1nat
    } else {
        0nat
    }),
{
    if enclose && tree is Binary {
        seq![TokenView::fixed(IToken::LPar)] + render(tree, false) + seq![
            TokenView::fixed(IToken::RPar),
        ]
    } else {
        match tree {
            Expr::Binary(operator, left, right) => render(*left, !open_left(operator, *left))
                + seq![TokenView::fixed(operator)] + render(*right, !open_right(operator, *right)),
            Expr::Fun(function, left, right) => seq![
                TokenView::fixed(IToken::Fun(function)),
                TokenView::fixed(IToken::LPar),
            ] + render(*left, true) + render(*right, true) + seq![TokenView::fixed(IToken::RPar)],
            _ => seq![operand_token(tree)],
        }
    }
}

/// The machine after it has read `render(tree, enclose)` from `m`: a closed
/// tree is a value; of an open operator node the left operand is a value
/// and the operator waits for the right operand to be complete.
pub open spec fn load(m: Machine, tree: Expr, enclose: bool) -> Machine
    decreases tree,
{
    match tree {
        Expr::Binary(operator, left, right) if !enclose => load(
            m.push_value(*left).push_operator(operator),
            *right,
            !open_right(operator, *right),
        ),
        _ => m.push_value(tree),
    }
}

/// Whether `tree` can be written behind what `m` has read: no function
/// waits for its parenthesis, and the waiting operator does not yield to
/// the operator of an open `tree`.
pub open spec fn fits(m: Machine, tree: Expr, enclose: bool) -> bool {
    m.operators.len() > 0 ==> {
        &&& !(m.operators.last() is Fun)
        &&& !enclose && tree is Binary ==> !yields_to(m.operators.last(), tree.kind())
    }
}

/// Running two sequences one after the other.
pub proof fn lemma_run_concat(m: Machine, first: Seq<TokenView>, second: Seq<TokenView>)
    ensures
        run(m, first + second) == (match run(m, first) {
            Ok(next) => run(next, second),
            Err(error) => Err(error),
        }),
    decreases first.len(),
{
    let whole = first + second;
    if first.len() == 0 {
        assert(whole =~= second);
    } else {
        assert(whole[0] == first[0]);
        assert(whole.drop_first() =~= first.drop_first() + second);
        if let Ok(next) = step(m, first[0]) {
            lemma_run_concat(next, first.drop_first(), second);
        }
    }
}

/// Running one token.
pub proof fn lemma_run_one(m: Machine, token: TokenView)
    ensures
        run(m, seq![token]) == step(m, token),
{
    let tokens = seq![token];
    assert(tokens[0] == token);
    assert(tokens.drop_first() =~= Seq::<TokenView>::empty());
    if let Ok(next) = step(m, token) {
        assert(run(next, tokens.drop_first()) == Ok::<Machine, ParseError>(next));
    }
}

/// With the right operand on the value stack, the waiting operator joins
/// its operands.
proof fn lemma_join(m: Machine, operator: IToken, left: Expr, right: Expr)
    requires
        operator.is_operator(),
    ensures
        apply_operator(m.push_value(left).push_operator(operator).push_value(right)) == Ok::<
            Machine,
            ParseError,
        >(m.push_value(Expr::Binary(operator, Box::new(left), Box::new(right)))),
{
    let full = m.push_value(left).push_operator(operator).push_value(right);
    let joined = Expr::Binary(operator, Box::new(left), Box::new(right));
    assert(full.left() == left);
    assert(full.right() == right);
    assert(full.fold(joined).values =~= m.push_value(joined).values);
    assert(full.fold(joined).operators =~= m.push_value(joined).operators);
}

/// A closing parenthesis applies every operator of an open tree.
proof fn lemma_collapse_to_paren(m: Machine, tree: Expr, enclose: bool)
    requires
        tree.wf(),
    ensures
        reduce_to_paren(load(m, tree, enclose)) == reduce_to_paren(m.push_value(tree)),
    decreases tree,
{
    match tree {
        Expr::Binary(operator, left, right) if !enclose => {
            let waiting = m.push_value(*left).push_operator(operator);
            lemma_collapse_to_paren(waiting, *right, !open_right(operator, *right));
            lemma_join(m, operator, *left, *right);
            assert(waiting.push_value(*right).operators.last() == operator);
        },
        _ => {},
    }
}

/// The end of the tokens applies every operator of an open tree.
proof fn lemma_collapse_drain(m: Machine, tree: Expr, enclose: bool)
    requires
        tree.wf(),
    ensures
        drain(load(m, tree, enclose)) == drain(m.push_value(tree)),
    decreases tree,
{
    match tree {
        Expr::Binary(operator, left, right) if !enclose => {
            let waiting = m.push_value(*left).push_operator(operator);
            lemma_collapse_drain(waiting, *right, !open_right(operator, *right));
            lemma_join(m, operator, *left, *right);
            assert(waiting.push_value(*right).operators.last() == operator);
        },
        _ => {},
    }
}

/// Up an open tree's right spine the operators bind ever tighter: what the
/// lowest yields to, the next yields to as well.
proof fn lemma_yields_up(lower: IToken, upper: IToken, incoming: IToken)
    requires
        lower.is_operator(),
        upper.is_operator(),
        incoming.is_operator(),
        !yields_to(lower, upper),
        yields_to(lower, incoming),
    ensures
        yields_to(upper, incoming),
{
}

/// An operator to which the operator of an open tree yields applies every
/// operator of the tree.
proof fn lemma_collapse_for(m: Machine, tree: Expr, enclose: bool, incoming: IToken)
    requires
        tree.wf(),
        incoming.is_operator(),
        !enclose && tree is Binary ==> yields_to(tree.kind(), incoming),
    ensures
        reduce_for(load(m, tree, enclose), incoming) == reduce_for(m.push_value(tree), incoming),
    decreases tree,
{
    match tree {
        Expr::Binary(operator, left, right) if !enclose => {
            let waiting = m.push_value(*left).push_operator(operator);
            assert(right.wf());
            if open_right(operator, *right) {
                lemma_yields_up(operator, right.kind(), incoming);
            }
            lemma_collapse_for(waiting, *right, !open_right(operator, *right), incoming);
            lemma_join(m, operator, *left, *right);
            assert(waiting.push_value(*right).operators.last() == operator);
        },
        _ => {},
    }
}

/// Reading a written tree: from any machine that the tree fits behind, the
/// machine ends up with the tree loaded.
pub proof fn lemma_run_render(m: Machine, tree: Expr, enclose: bool)
    requires
        tree.wf(),
        fits(m, tree, enclose),
    ensures
        run(m, render(tree, enclose)) == Ok::<Machine, ParseError>(load(m, tree, enclose)),
    decreases tree, (if enclose {
        1nat
    } else {
        0nat
    }),
{
    let open = TokenView::fixed(IToken::LPar);
    let close = TokenView::fixed(IToken::RPar);
    if enclose && tree is Binary {
        let inside = render(tree, false);
        let opened = m.push_operator(IToken::LPar);
        assert(opened.operators.last() == IToken::LPar);
        lemma_run_one(m, open);
        lemma_run_render(opened, tree, false);
        lemma_run_concat(m, seq![open], inside);
        let loaded = load(opened, tree, false);
        lemma_collapse_to_paren(opened, tree, false);
        let closed = opened.push_value(tree);
        assert(closed.operators.last() == IToken::LPar);
        assert(reduce_to_paren(closed) == Ok::<Machine, ParseError>(closed));
        assert(closed.pop_operator().operators =~= m.operators);
        assert(closed.pop_operator() == m.push_value(tree));
        assert(close_paren(loaded) == Ok::<Machine, ParseError>(m.push_value(tree)));
        lemma_run_one(loaded, close);
        lemma_run_concat(m, seq![open] + inside, seq![close]);
    } else {
        match tree {
            Expr::Binary(operator, left, right) => {
                let enclose_left = !open_left(operator, *left);
                let enclose_right = !open_right(operator, *right);
                let first = render(*left, enclose_left);
                let second = render(*right, enclose_right);
                let sign = TokenView::fixed(operator);
                lemma_run_render(m, *left, enclose_left);
                let read_left = load(m, *left, enclose_left);
                lemma_collapse_for(m, *left, enclose_left, operator);
                let held = m.push_value(*left);
                assert(reduce_for(held, operator) == Ok::<Machine, ParseError>(held));
                let waiting = held.push_operator(operator);
                assert(step(read_left, sign) == Ok::<Machine, ParseError>(waiting));
                lemma_run_one(read_left, sign);
                lemma_run_concat(m, first, seq![sign]);
                assert(waiting.operators.last() == operator);
                lemma_run_render(waiting, *right, enclose_right);
                lemma_run_concat(m, first + seq![sign], second);
            },
            Expr::Fun(function, left, right) => {
                let name = TokenView::fixed(IToken::Fun(function));
                let named = m.push_operator(IToken::Fun(function));
                let opened = named.push_operator(IToken::LPar);
                let head = seq![name, open];
                assert(head =~= seq![name] + seq![open]);
                lemma_run_one(m, name);
                lemma_run_one(named, open);
                lemma_run_concat(m, seq![name], seq![open]);
                assert(run(m, head) == Ok::<Machine, ParseError>(opened));
                assert(opened.operators.last() == IToken::LPar);
                let first = render(*left, true);
                let second = render(*right, true);
                lemma_run_render(opened, *left, true);
                let one = opened.push_value(*left);
                assert(load(opened, *left, true) == one);
                lemma_run_concat(m, head, first);
                assert(one.operators.last() == IToken::LPar);
                lemma_run_render(one, *right, true);
                let two = one.push_value(*right);
                assert(load(one, *right, true) == two);
                lemma_run_concat(m, head + first, second);
                assert(two.operators.last() == IToken::LPar);
                assert(reduce_to_paren(two) == Ok::<Machine, ParseError>(two));
                let inner = two.pop_operator();
                assert(inner.operators =~= named.operators);
                assert(inner.operators.last() == IToken::Fun(function));
                assert(inner.left() == *left);
                assert(inner.right() == *right);
                assert(inner.fold(tree).values =~= m.push_value(tree).values);
                assert(inner.fold(tree).operators =~= m.operators);
                assert(apply_function(inner) == Ok::<Machine, ParseError>(m.push_value(tree)));
                assert(close_paren(two) == Ok::<Machine, ParseError>(m.push_value(tree)));
                lemma_run_one(two, close);
                lemma_run_concat(m, head + first + second, seq![close]);
            },
            _ => {
                lemma_run_one(m, operand_token(tree));
            },
        }
    }
}

/// The parser inverts the writer: every well-formed tree is the tree of
/// the tokens it is written as, with or without parentheses around the
/// whole.
pub proof fn lemma_parse_render(tree: Expr, enclose: bool)
    requires
        tree.wf(),
    ensures
        parse(render(tree, enclose)) == Ok::<Expr, ParseError>(tree),
{
    let start = Machine::start();
    lemma_run_render(start, tree, enclose);
    lemma_collapse_drain(start, tree, enclose);
    let end = start.push_value(tree);
    assert(drain(end) == Ok::<Machine, ParseError>(end));
    assert(end.values =~= seq![tree]);
}

} // verus!
