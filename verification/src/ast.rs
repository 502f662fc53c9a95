//! The syntax tree of an expression.

use crate::literal::is_decimal_literal;
use crate::tokens::{constant_literal, IConstants, IFunctions, IToken};
use vstd::prelude::*;

verus! {

/// A node of the syntax tree. An operator or function node owns its two
/// operands; there is no node without its operands.
#[derive(Debug, PartialEq)]
pub enum AstNode {
    /// A number, as the numeral that was written.
    Num { literal: String },
    /// A named constant, with the numeral it resolves to.
    Const { constant: IConstants, literal: String },
    /// `left ^ right`
    Pow { left: Box<AstNode>, right: Box<AstNode> },
    /// `left * right`
    Mul { left: Box<AstNode>, right: Box<AstNode> },
    /// `left / right`
    Div { left: Box<AstNode>, right: Box<AstNode> },
    /// `left + right`
    Add { left: Box<AstNode>, right: Box<AstNode> },
    /// `left - right`
    Sub { left: Box<AstNode>, right: Box<AstNode> },
    /// `function(left, right)`
    Fun { function: IFunctions, left: Box<AstNode>, right: Box<AstNode> },
}

/// A syntax tree as a mathematical value. The five operators share one
/// shape, told apart by the kind of their token.
pub enum Expr {
    Num(Seq<char>),
    Const(IConstants, Seq<char>),
    Binary(IToken, Box<Expr>, Box<Expr>),
    Fun(IFunctions, Box<Expr>, Box<Expr>),
}

impl Expr {
    /// Well-formedness: every operator node holds an operator, every number
    /// a decimal numeral, every constant the numeral it resolves to.
    pub open spec fn wf(self) -> bool
        decreases self,
    {
        match self {
            Expr::Num(text) => is_decimal_literal(text),
            Expr::Const(constant, text) => text == constant_literal(constant),
            Expr::Binary(operator, left, right) => {
                operator.is_operator() && left.wf() && right.wf()
            },
            Expr::Fun(_, left, right) => left.wf() && right.wf(),
        }
    }

    /// The kind of the token that the root of the tree stems from.
    pub open spec fn kind(self) -> IToken {
        match self {
            Expr::Num(_) => IToken::Num,
            Expr::Const(constant, _) => IToken::Const(constant),
            Expr::Binary(operator, _, _) => operator,
            Expr::Fun(function, _, _) => IToken::Fun(function),
        }
    }
}

impl View for AstNode {
    type V = Expr;

    open spec fn view(&self) -> Expr
        decreases self,
    {
        match self {
            AstNode::Num { literal } => Expr::Num(literal@),
            AstNode::Const { constant, literal } => Expr::Const(*constant, literal@),
            AstNode::Pow { left, right } => Expr::Binary(
                IToken::Pow,
                Box::new((**left)@),
                Box::new((**right)@),
            ),
            AstNode::Mul { left, right } => Expr::Binary(
                IToken::Mul,
                Box::new((**left)@),
                Box::new((**right)@),
            ),
            AstNode::Div { left, right } => Expr::Binary(
                IToken::Div,
                Box::new((**left)@),
                Box::new((**right)@),
            ),
            AstNode::Add { left, right } => Expr::Binary(
                IToken::Add,
                Box::new((**left)@),
                Box::new((**right)@),
            ),
            AstNode::Sub { left, right } => Expr::Binary(
                IToken::Sub,
                Box::new((**left)@),
                Box::new((**right)@),
            ),
            AstNode::Fun { function, left, right } => Expr::Fun(
                *function,
                Box::new((**left)@),
                Box::new((**right)@),
            ),
        }
    }
}

impl DeepView for AstNode {
    type V = Expr;

    open spec fn deep_view(&self) -> Expr {
        self@
    }
}

impl AstNode {
    /// The node of the operator `operator` over two operands.
    pub fn binary(operator: IToken, left: AstNode, right: AstNode) -> (node: AstNode)
        requires
            operator.is_operator(),
        ensures
            node@ == Expr::Binary(operator, Box::new(left@), Box::new(right@)),
    {
        let left = Box::new(left);
        let right = Box::new(right);
        match operator {
            IToken::Pow => AstNode::Pow { left, right },
            IToken::Mul => AstNode::Mul { left, right },
            IToken::Div => AstNode::Div { left, right },
            IToken::Add => AstNode::Add { left, right },
            _ => AstNode::Sub { left, right },
        }
    }

    /// The kind of the token that this node stems from.
    pub fn token_type(&self) -> (kind: IToken)
        ensures
            kind == self@.kind(),
    {
        match self {
            AstNode::Num { .. } => IToken::Num,
            AstNode::Const { constant, .. } => IToken::Const(*constant),
            AstNode::Pow { .. } => IToken::Pow,
            AstNode::Mul { .. } => IToken::Mul,
            AstNode::Div { .. } => IToken::Div,
            AstNode::Add { .. } => IToken::Add,
            AstNode::Sub { .. } => IToken::Sub,
            AstNode::Fun { function, .. } => IToken::Fun(*function),
        }
    }

    /// The binding strength of this node's operator; `None` for a node that
    /// is no operator.
    pub fn precedence(&self) -> (rank: Option<u8>)
        ensures
            rank == self@.kind().rank(),
    {
        self.token_type().precedence()
    }
}

} // verus!
