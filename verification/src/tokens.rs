//! The token vocabulary: what the tokenizer produces and the parser consumes.

use crate::literal::{is_decimal, is_decimal_literal};
use vstd::prelude::*;
use vstd::string::StringExecFns;

verus! {

/// How a chain of operators of equal precedence groups.
#[derive(Debug, Copy, Clone, PartialEq, Eq, Structural)]
pub enum IAssociativity {
    Left,
    Right,
}

/// The named constants.
#[derive(Debug, Copy, Clone, PartialEq, Eq, Structural)]
pub enum IConstants {
    Pi,
}

/// The two-argument functions.
#[derive(Debug, Copy, Clone, PartialEq, Eq, Structural)]
pub enum IFunctions {
    Max,
    Min,
}

/// The kind of a token.
#[derive(Debug, Copy, Clone, PartialEq, Eq, Structural)]
pub enum IToken {
    Pow,
    Mul,
    Div,
    Add,
    Sub,
    Fun(IFunctions),
    LPar,
    RPar,
    Num,
    Const(IConstants),
}

impl IToken {
    /// The five binary operators.
    pub open spec fn is_operator(self) -> bool {
        self is Pow || self is Mul || self is Div || self is Add || self is Sub
    }

    /// Binding strength of an operator, higher binds tighter; `None` for every
    /// other kind.
    pub open spec fn rank(self) -> Option<u8> {
        match self {
            IToken::Pow => Some(4u8),
            IToken::Mul | IToken::Div => Some(3u8),
            IToken::Add | IToken::Sub => Some(2u8),
            _ => None,
        }
    }

    /// Grouping of an operator; `None` for every other kind.
    pub open spec fn grouping(self) -> Option<IAssociativity> {
        match self {
            IToken::Pow => Some(IAssociativity::Right),
            IToken::Mul | IToken::Div | IToken::Add | IToken::Sub => Some(IAssociativity::Left),
            _ => None,
        }
    }

    /// Kinds whose token carries a literal.
    pub open spec fn is_operand(self) -> bool {
        self is Num || self is Const
    }

    /// Binding strength of an operator; `None` for every other kind.
    #[verifier::when_used_as_spec(rank)]
    pub fn precedence(self) -> (rank: Option<u8>)
        ensures
            rank == self.rank(),
    {
        match self {
            IToken::Pow => Some(4),
            IToken::Mul | IToken::Div => Some(3),
            IToken::Add | IToken::Sub => Some(2),
            _ => None,
        }
    }

    /// Grouping of an operator; `None` for every other kind.
    #[verifier::when_used_as_spec(grouping)]
    pub fn associativity(self) -> (grouping: Option<IAssociativity>)
        ensures
            grouping == self.grouping(),
    {
        match self {
            IToken::Pow => Some(IAssociativity::Right),
            IToken::Mul | IToken::Div | IToken::Add | IToken::Sub => Some(IAssociativity::Left),
            _ => None,
        }
    }
}

/// The numeral that a constant resolves to.
pub open spec fn constant_literal(constant: IConstants) -> Seq<char> {
    match constant {
        IConstants::Pi => seq!['3', '.', '1', '4', '1', '5', '9', '2', '6', '5', '3', '5', '9'],
    }
}

/// The numeral of a constant is a decimal numeral.
pub proof fn lemma_constant_literal_is_decimal(constant: IConstants)
    ensures
        is_decimal_literal(constant_literal(constant)),
{
    let text = constant_literal(constant);
    assert(text.len() == 13);
    assert(text[1] == '.');
    assert(crate::literal::is_digit(text[0]));
}

/// The smallest lexical unit.
///
/// `associativity` and `precedence` are present exactly for the binary
/// operators, `literal` exactly for numbers and constants; see [`TokenView::wf`].
#[derive(Debug, Clone, PartialEq)]
pub struct Token {
    pub token_type: IToken,
    pub associativity: Option<IAssociativity>,
    pub precedence: Option<u8>,
    pub literal: Option<String>,
}

/// A token as a mathematical value: the literal is a sequence of characters.
pub struct TokenView {
    pub token_type: IToken,
    pub associativity: Option<IAssociativity>,
    pub precedence: Option<u8>,
    pub literal: Option<Seq<char>>,
}

impl TokenView {
    /// The token of `kind` without a literal: that of an operator, a
    /// parenthesis or a function.
    pub open spec fn fixed(kind: IToken) -> TokenView {
        TokenView {
            token_type: kind,
            associativity: kind.grouping(),
            precedence: kind.rank(),
            literal: None,
        }
    }

    /// The number token with the numeral `text`.
    pub open spec fn number(text: Seq<char>) -> TokenView {
        TokenView {
            token_type: IToken::Num,
            associativity: None,
            precedence: None,
            literal: Some(text),
        }
    }

    /// The token of a constant, carrying the numeral it resolves to.
    pub open spec fn constant(constant: IConstants) -> TokenView {
        TokenView {
            token_type: IToken::Const(constant),
            associativity: None,
            precedence: None,
            literal: Some(constant_literal(constant)),
        }
    }

    /// Well-formedness: the attributes are exactly those that the kind
    /// determines, a number carries a decimal numeral, and a constant the
    /// numeral it resolves to.
    pub open spec fn wf(self) -> bool {
        &&& self.associativity == self.token_type.grouping()
        &&& self.precedence == self.token_type.rank()
        &&& match self.token_type {
            IToken::Num => self.literal is Some && is_decimal_literal(self.literal->0),
            IToken::Const(constant) => self.literal == Some(constant_literal(constant)),
            _ => self.literal is None,
        }
    }
}

impl View for Token {
    type V = TokenView;

    open spec fn view(&self) -> TokenView {
        TokenView {
            token_type: self.token_type,
            associativity: self.associativity,
            precedence: self.precedence,
            literal: match self.literal {
                Some(text) => Some(text@),
                None => None,
            },
        }
    }
}

impl DeepView for Token {
    type V = TokenView;

    open spec fn deep_view(&self) -> TokenView {
        self@
    }
}

/// Every token of `tokens` is well formed.
pub open spec fn all_wf(tokens: Seq<TokenView>) -> bool {
    forall|i: int| 0 <= i < tokens.len() ==> (#[trigger] tokens[i]).wf()
}

impl Token {
    /// The token of `kind` without a literal: well formed for an operator,
    /// a parenthesis or a function, not for an operand.
    pub fn fixed(kind: IToken) -> (token: Token)
        ensures
            token@ == TokenView::fixed(kind),
            token@.wf() <==> !kind.is_operand(),
    {
        Token {
            token_type: kind,
            associativity: kind.associativity(),
            precedence: kind.precedence(),
            literal: None,
        }
    }

    /// The number token that carries the numeral `text`.
    pub fn number(text: String) -> (token: Token)
        ensures
            token@ == TokenView::number(text@),
            token@.wf() <==> is_decimal_literal(text@),
    {
        Token {
            token_type: IToken::Num,
            associativity: None,
            precedence: None,
            literal: Some(text),
        }
    }

    /// The token of a constant.
    pub fn constant(constant: IConstants) -> (token: Token)
        ensures
            token@ == TokenView::constant(constant),
            token@.wf(),
    {
        let text = match constant {
            IConstants::Pi => String::from_str("3.14159265359"),
        };
        proof {
            reveal_strlit("3.14159265359");
            assert(text@ =~= constant_literal(constant));
        }
        Token {
            token_type: IToken::Const(constant),
            associativity: None,
            precedence: None,
            literal: Some(text),
        }
    }

    /// Decides well-formedness.
    pub fn is_well_formed(&self) -> (wf: bool)
        ensures
            wf == self@.wf(),
    {
        let kind = self.token_type;
        let grouping_fits = match (self.associativity, kind.associativity()) {
            (None, None) => true,
            (Some(have), Some(want)) => have == want,
            _ => false,
        };
        let rank_fits = match (self.precedence, kind.precedence()) {
            (None, None) => true,
            (Some(have), Some(want)) => have == want,
            _ => false,
        };
        let literal_fits = match kind {
            IToken::Num => match &self.literal {
                Some(text) => is_decimal(text.as_str()),
                None => false,
            },
            IToken::Const(constant) => match &self.literal {
                Some(text) => {
                    let want = Token::constant(constant);
                    match &want.literal {
                        Some(numeral) => *text == *numeral,
                        None => false,
                    }
                },
                None => false,
            },
            _ => self.literal.is_none(),
        };
        grouping_fits && rank_fits && literal_fits
    }
}

} // verus!
