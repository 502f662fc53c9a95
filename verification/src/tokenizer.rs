//! The tokenizer: one pass over the text with two accumulators.

use crate::characters::{classify, CharClass};
use crate::errors::{LexError, LexErrorView};
use crate::lexical::{
    flush_identifier, flush_number, lemma_scan_flush, lemma_tokenize_single, lemma_tokenize_wf,
    optional, scanning, tokenize, Lexed,
};
use crate::literal::is_decimal;
use crate::tokens::{all_wf, IConstants, IFunctions, IToken, Token, TokenView};
use vstd::prelude::*;
use vstd::string::StringExecFns;

verus! {

/// `String::push` appends `ch` to the end of the string and changes nothing
/// else of it.
pub assume_specification[ String::push ](s: &mut String, ch: char)
    ensures
        final(s)@ == old(s)@.push(ch),
;

/// The outcome of tokenizing as a mathematical value.
pub open spec fn lexed(outcome: Result<Vec<Token>, LexError>) -> Lexed {
    match outcome {
        Ok(tokens) => Ok(tokens.deep_view()),
        Err(error) => Err(error@),
    }
}

/// The outcome of emptying an accumulator as a mathematical value.
pub open spec fn flushed(outcome: Result<Option<Token>, LexError>) -> Result<
    Option<TokenView>,
    LexErrorView,
> {
    match outcome {
        Ok(token) => Ok(token.deep_view()),
        Err(error) => Err(error@),
    }
}

/// The tokens of one text, or the reason why it has none.
pub struct Tokenizer {
    token_stream: Result<Vec<Token>, LexError>,
}

impl View for Tokenizer {
    type V = Lexed;

    closed spec fn view(&self) -> Lexed {
        lexed(self.token_stream)
    }
}

fn is_word(text: &String, word: &str) -> (same: bool)
    ensures
        same == (text@ == word@),
{
    *text == String::from_str(word)
}

impl Tokenizer {
    /// Tokenizes `expr`.
    pub fn build(expr: &str) -> (tokenizer: Tokenizer)
        ensures
            tokenizer@ == tokenize(expr@),
            tokenizer@ matches Ok(tokens) ==> all_wf(tokens),
    {
        proof {
            lemma_tokenize_wf(expr@);
        }
        let mut tokens: Vec<Token> = Vec::new();
        let mut number = String::new();
        let mut identifier = String::new();
        proof {
            assert(expr@.subrange(0, 0) =~= number@ + identifier@);
            assert(expr@.skip(0) =~= expr@);
            assert(Seq::<TokenView>::empty() + tokenize(expr@)->Ok_0 =~= tokenize(expr@)->Ok_0);
        }
        for c in it: expr.chars()
            invariant
                it.seq() == expr@,
                scanning(expr@, it.index() as int, tokens.deep_view(), number@, identifier@),
        {
            let ghost at = it.index() as int;
            let ghost done = tokens.deep_view();
            let ghost pending = number@ + identifier@;
            let class = classify(c);
            match class {
                CharClass::Symbol(kind) => {
                    proof {
                        lemma_scan_flush(expr@, at, done, number@, identifier@);
                        lemma_tokenize_single(expr@, at);
                    }
                    match Self::clear_identifier_or_number(
                        &mut identifier,
                        &mut number,
                        &mut tokens,
                    ) {
                        Ok(()) => {},
                        Err(error) => {
                            return Tokenizer { token_stream: Err(error) };
                        },
                    }
                    let ghost emptied = tokens.deep_view();
                    tokens.push(Token::fixed(kind));
                    proof {
                        let symbol = TokenView::fixed(kind);
                        assert(tokens.deep_view() =~= emptied + seq![symbol]);
                        assert(expr@.subrange(at + 1, at + 1) =~= number@ + identifier@);
                        match tokenize(expr@.skip(at + 1)) {
                            Ok(rest) => {
                                assert(emptied + (seq![symbol] + rest) =~= (emptied + seq![symbol])
                                    + rest);
                            },
                            Err(_) => {},
                        }
                    }
                },
                CharClass::Separator => {
                    proof {
                        lemma_scan_flush(expr@, at, done, number@, identifier@);
                        lemma_tokenize_single(expr@, at);
                    }
                    match Self::clear_identifier_or_number(
                        &mut identifier,
                        &mut number,
                        &mut tokens,
                    ) {
                        Ok(()) => {},
                        Err(error) => {
                            return Tokenizer { token_stream: Err(error) };
                        },
                    }
                    proof {
                        assert(expr@.subrange(at + 1, at + 1) =~= number@ + identifier@);
                    }
                },
                CharClass::Numeric => {
                    let ghost text = number@;
                    proof {
                        if identifier@.len() > 0 {
                            lemma_scan_flush(expr@, at, done, number@, identifier@);
                            assert(optional(flush_identifier(identifier@)->Ok_0) + optional(
                                flush_number(number@)->Ok_0,
                            ) =~= optional(flush_identifier(identifier@)->Ok_0));
                        } else {
                            assert(done + optional(None) =~= done);
                        }
                    }
                    match Self::clear_identifier(&mut identifier) {
                        Ok(Some(token)) => {
                            tokens.push(token);
                            proof {
                                assert(tokens.deep_view() =~= done + seq![token@]);
                            }
                        },
                        Ok(None) => {},
                        Err(error) => {
                            return Tokenizer { token_stream: Err(error) };
                        },
                    }
                    number.push(c);
                    proof {
                        assert(number@ + identifier@ =~= text.push(c));
                        assert(text.push(c) =~= expr@.subrange(at - text.len(), at + 1));
                    }
                },
                CharClass::Alphabetic => {
                    let ghost name = identifier@;
                    proof {
                        if number@.len() > 0 {
                            lemma_scan_flush(expr@, at, done, number@, identifier@);
                            assert(optional(flush_identifier(identifier@)->Ok_0) + optional(
                                flush_number(number@)->Ok_0,
                            ) =~= optional(flush_number(number@)->Ok_0));
                        } else {
                            assert(done + optional(None) =~= done);
                        }
                    }
                    match Self::clear_number(&mut number) {
                        Ok(Some(token)) => {
                            tokens.push(token);
                            proof {
                                assert(tokens.deep_view() =~= done + seq![token@]);
                            }
                        },
                        Ok(None) => {},
                        Err(error) => {
                            return Tokenizer { token_stream: Err(error) };
                        },
                    }
                    identifier.push(c);
                    proof {
                        assert(number@ + identifier@ =~= name.push(c));
                        assert(name.push(c) =~= expr@.subrange(at - name.len(), at + 1));
                    }
                },
                CharClass::Unidentified => {
                    proof {
                        if pending.len() > 0 {
                            lemma_scan_flush(expr@, at, done, number@, identifier@);
                        } else {
                            lemma_tokenize_single(expr@, at);
                        }
                    }
                    return Tokenizer { token_stream: Err(LexError::UnidentifiedCharacter(c)) };
                },
            }
        }
        proof {
            lemma_scan_flush(expr@, expr@.len() as int, tokens.deep_view(), number@, identifier@);
        }
        match Self::clear_identifier_or_number(&mut identifier, &mut number, &mut tokens) {
            Ok(()) => {},
            Err(error) => {
                return Tokenizer { token_stream: Err(error) };
            },
        }
        proof {
            assert(expr@.skip(expr@.len() as int) =~= Seq::<char>::empty());
            assert(tokens.deep_view() + Seq::<TokenView>::empty() =~= tokens.deep_view());
        }
        Tokenizer { token_stream: Ok(tokens) }
    }

    /// Empties the identifier accumulator: gives the token that the
    /// identifier names, or nothing if there is no identifier. An identifier
    /// that names nothing is an error and stays where it is.
    pub fn clear_identifier(identifier: &mut String) -> (outcome: Result<Option<Token>, LexError>)
        ensures
            flushed(outcome) == flush_identifier(old(identifier)@),
            outcome is Ok ==> final(identifier)@.len() == 0,
            outcome is Err ==> final(identifier)@ == old(identifier)@,
            outcome matches Ok(Some(token)) ==> token@.wf(),
    {
        if identifier.as_str().is_empty() {
            return Ok(None);
        }
        proof {
            reveal_strlit("min");
            reveal_strlit("max");
            reveal_strlit("pi");
            assert("min"@ =~= seq!['m', 'i', 'n']);
            assert("max"@ =~= seq!['m', 'a', 'x']);
            assert("pi"@ =~= seq!['p', 'i']);
        }
        let token = if is_word(identifier, "min") {
            Token::fixed(IToken::Fun(IFunctions::Min))
        } else if is_word(identifier, "max") {
            Token::fixed(IToken::Fun(IFunctions::Max))
        } else if is_word(identifier, "pi") {
            Token::constant(IConstants::Pi)
        } else {
            return Err(LexError::UnidentifiedIdentifier(identifier.clone()));
        };
        *identifier = String::new();
        Ok(Some(token))
    }

    /// Empties the number accumulator: gives the number token of its
    /// numeral, or nothing if it is empty. A run that is no numeral is an
    /// error and stays where it is.
    pub fn clear_number(number: &mut String) -> (outcome: Result<Option<Token>, LexError>)
        ensures
            flushed(outcome) == flush_number(old(number)@),
            outcome is Ok ==> final(number)@.len() == 0,
            outcome is Err ==> final(number)@ == old(number)@,
            outcome matches Ok(Some(token)) ==> token@.wf(),
    {
        if number.as_str().is_empty() {
            return Ok(None);
        }
        if !is_decimal(number.as_str()) {
            return Err(LexError::MalformedNumber(number.clone()));
        }
        let mut text = String::new();
        core::mem::swap(number, &mut text);
        Ok(Some(Token::number(text)))
    }

    /// Empties both accumulators into `tokens`, the identifier first. Stops
    /// at the first error, leaving what it has not yet emptied as it was.
    pub fn clear_identifier_or_number(
        identifier: &mut String,
        number: &mut String,
        tokens: &mut Vec<Token>,
    ) -> (outcome: Result<(), LexError>)
        ensures
            match flush_identifier(old(identifier)@) {
                Err(error) => {
                    &&& outcome matches Err(e) && e@ == error
                    &&& final(identifier)@ == old(identifier)@
                    &&& final(number)@ == old(number)@
                    &&& final(tokens).deep_view() == old(tokens).deep_view()
                },
                Ok(first) => {
                    &&& final(identifier)@.len() == 0
                    &&& match flush_number(old(number)@) {
                        Err(error) => {
                            &&& outcome matches Err(e) && e@ == error
                            &&& final(number)@ == old(number)@
                            &&& final(tokens).deep_view() == old(tokens).deep_view() + optional(
                                first,
                            )
                        },
                        Ok(second) => {
                            &&& outcome is Ok
                            &&& final(number)@.len() == 0
                            &&& final(tokens).deep_view() == old(tokens).deep_view() + (optional(
                                first,
                            ) + optional(second))
                        },
                    }
                },
            },
    {
        let ghost before = tokens.deep_view();
        match Self::clear_identifier(identifier) {
            Ok(Some(token)) => {
                tokens.push(token);
                proof {
                    assert(tokens.deep_view() =~= before + seq![token@]);
                }
            },
            Ok(None) => {
                proof {
                    assert(before + Seq::<TokenView>::empty() =~= before);
                }
            },
            Err(error) => {
                return Err(error);
            },
        }
        let ghost between = tokens.deep_view();
        let ghost first = flush_identifier(old(identifier)@)->Ok_0;
        match Self::clear_number(number) {
            Ok(Some(token)) => {
                tokens.push(token);
                proof {
                    assert(tokens.deep_view() =~= between + seq![token@]);
                    assert(before + optional(first) + seq![token@] =~= before + (optional(first)
                        + seq![token@]));
                }
            },
            Ok(None) => {
                proof {
                    assert(optional(first) + Seq::<TokenView>::empty() =~= optional(first));
                }
            },
            Err(error) => {
                return Err(error);
            },
        }
        Ok(())
    }

    /// The outcome: the tokens in reading order, or the first lexical error.
    pub fn tokens(&mut self) -> (outcome: &mut Result<Vec<Token>, LexError>)
        ensures
            lexed(*outcome) == old(self)@,
            final(self)@ == lexed(*final(outcome)),
    {
        &mut self.token_stream
    }
}

/// Tokenizes `expr`: the tokens in reading order, or the first lexical error.
pub fn build_lexer(expr: &str) -> (outcome: Result<Vec<Token>, LexError>)
    ensures
        lexed(outcome) == tokenize(expr@),
        outcome matches Ok(tokens) ==> all_wf(tokens.deep_view()),
{
    Tokenizer::build(expr).token_stream
}

} // verus!
