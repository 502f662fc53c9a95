//! What tokenizing a text means.
//!
//! The text is read from the left. A symbol is a token by itself, a separator
//! is dropped, and a maximal run of numeric or of alphabetic characters is one
//! lexeme: a numeral or an identifier. The first defect in reading order
//! decides the error. A lexeme is judged when the character after it is read,
//! so an unaccepted character right behind a lexeme is reported before the
//! lexeme is looked at.

use crate::characters::{char_class, is_run_class, CharClass};
use crate::errors::LexErrorView;
use crate::literal::is_decimal_literal;
use crate::tokens::{
    all_wf, lemma_constant_literal_is_decimal, IConstants, IFunctions, IToken, TokenView,
};
use vstd::prelude::*;

verus! {

/// Tokens, or the first lexical error.
pub type Lexed = Result<Seq<TokenView>, LexErrorView>;

/// The identifier table.
pub open spec fn identifier_token(name: Seq<char>) -> Result<TokenView, LexErrorView> {
    if name == seq!['m', 'i', 'n'] {
        Ok(TokenView::fixed(IToken::Fun(IFunctions::Min)))
    } else if name == seq!['m', 'a', 'x'] {
        Ok(TokenView::fixed(IToken::Fun(IFunctions::Max)))
    } else if name == seq!['p', 'i'] {
        Ok(TokenView::constant(IConstants::Pi))
    } else {
        Err(LexErrorView::UnidentifiedIdentifier(name))
    }
}

/// The number token of a numeral, or the error for a run that is none.
pub open spec fn number_token(text: Seq<char>) -> Result<TokenView, LexErrorView> {
    if is_decimal_literal(text) {
        Ok(TokenView::number(text))
    } else {
        Err(LexErrorView::MalformedNumber(text))
    }
}

/// The token of the lexeme `text`, a run of characters of `class`.
pub open spec fn lexeme_token(class: CharClass, text: Seq<char>) -> Result<
    TokenView,
    LexErrorView,
> {
    if class is Numeric {
        number_token(text)
    } else {
        identifier_token(text)
    }
}

/// `token` in front of what the rest of the text gives.
pub open spec fn prepend(token: TokenView, rest: Lexed) -> Lexed {
    match rest {
        Ok(tokens) => Ok(seq![token] + tokens),
        Err(error) => Err(error),
    }
}

/// `done` in front of what the rest of the text gives.
pub open spec fn extend(done: Seq<TokenView>, rest: Lexed) -> Lexed {
    match rest {
        Ok(tokens) => Ok(done + tokens),
        Err(error) => Err(error),
    }
}

/// Length of the longest prefix of `s` whose characters all have `class`.
pub open spec fn run_length(s: Seq<char>, class: CharClass) -> nat
    decreases s.len(),
{
    if s.len() > 0 && char_class(s[0]) == class {
        1 + run_length(s.drop_first(), class)
    } else {
        0
    }
}

/// The run at the front of `s` lies within `s`, is made of `class`, and is
/// maximal.
pub proof fn lemma_run_length(s: Seq<char>, class: CharClass)
    ensures
        run_length(s, class) <= s.len(),
        forall|i: int| 0 <= i < run_length(s, class) ==> char_class(#[trigger] s[i]) == class,
        run_length(s, class) < s.len() ==> char_class(s[run_length(s, class) as int]) != class,
    decreases s.len(),
{
    if s.len() > 0 && char_class(s[0]) == class {
        let tail = s.drop_first();
        lemma_run_length(tail, class);
        assert forall|i: int| 0 <= i < run_length(s, class) implies char_class(#[trigger] s[i])
            == class by {
            if i > 0 {
                assert(s[i] == tail[i - 1]);
            }
        }
        if run_length(s, class) < s.len() {
            assert(s[run_length(s, class) as int] == tail[run_length(tail, class) as int]);
        }
    }
}

/// A prefix of `class` that ends where `s` ends or another class begins is
/// the run at the front of `s`.
pub proof fn lemma_run_length_is(s: Seq<char>, class: CharClass, n: int)
    requires
        0 <= n <= s.len(),
        forall|i: int| 0 <= i < n ==> char_class(#[trigger] s[i]) == class,
        n < s.len() ==> char_class(s[n]) != class,
    ensures
        run_length(s, class) == n,
    decreases n,
{
    if n > 0 {
        let tail = s.drop_first();
        assert forall|i: int| 0 <= i < n - 1 implies char_class(#[trigger] tail[i]) == class by {
            assert(tail[i] == s[i + 1]);
        }
        if n - 1 < tail.len() {
            assert(tail[n - 1] == s[n]);
        }
        lemma_run_length_is(tail, class, n - 1);
    }
}

/// The tokens of the text `s`, or its first lexical error.
pub open spec fn tokenize(s: Seq<char>) -> Lexed
    decreases s.len(),
{
    if s.len() == 0 {
        Ok(Seq::empty())
    } else {
        match char_class(s[0]) {
            CharClass::Symbol(kind) => prepend(TokenView::fixed(kind), tokenize(s.drop_first())),
            CharClass::Separator => tokenize(s.drop_first()),
            CharClass::Unidentified => Err(LexErrorView::UnidentifiedCharacter(s[0])),
            class => {
                let n = run_length(s, class) as int;
                if n < s.len() && char_class(s[n]) is Unidentified {
                    Err(LexErrorView::UnidentifiedCharacter(s[n]))
                } else {
                    match lexeme_token(class, s.take(n)) {
                        Ok(token) => {
                            proof {
                                lemma_run_length(s, class);
                            }
                            prepend(token, tokenize(s.skip(n)))
                        },
                        Err(error) => Err(error),
                    }
                }
            },
        }
    }
}

/// What emptying the identifier accumulator yields: nothing if it is empty,
/// else the token that the identifier names.
pub open spec fn flush_identifier(name: Seq<char>) -> Result<Option<TokenView>, LexErrorView> {
    if name.len() == 0 {
        Ok(None)
    } else {
        match identifier_token(name) {
            Ok(token) => Ok(Some(token)),
            Err(error) => Err(error),
        }
    }
}

/// What emptying the number accumulator yields: nothing if it is empty, else
/// the number token of its numeral.
pub open spec fn flush_number(text: Seq<char>) -> Result<Option<TokenView>, LexErrorView> {
    if text.len() == 0 {
        Ok(None)
    } else {
        match number_token(text) {
            Ok(token) => Ok(Some(token)),
            Err(error) => Err(error),
        }
    }
}

/// Zero or one token as a sequence.
pub open spec fn optional(token: Option<TokenView>) -> Seq<TokenView> {
    match token {
        Some(token) => seq![token],
        None => Seq::empty(),
    }
}

/// What emptying both accumulators yields, the identifier first.
pub open spec fn flush_both(name: Seq<char>, text: Seq<char>) -> Lexed {
    match flush_identifier(name) {
        Err(error) => Err(error),
        Ok(first) => match flush_number(text) {
            Err(error) => Err(error),
            Ok(second) => Ok(optional(first) + optional(second)),
        },
    }
}

/// The state of a scan of `s` that has read `at` characters: `done` holds the
/// tokens of the lexemes that have ended, and one accumulator at most holds
/// the lexeme that has not.
pub open spec fn scanning(
    s: Seq<char>,
    at: int,
    done: Seq<TokenView>,
    number: Seq<char>,
    identifier: Seq<char>,
) -> bool {
    let pending = number + identifier;
    &&& number.len() == 0 || identifier.len() == 0
    &&& pending.len() <= at <= s.len()
    &&& pending == s.subrange(at - pending.len(), at)
    &&& forall|k: int| 0 <= k < number.len() ==> char_class(#[trigger] number[k]) is Numeric
    &&& forall|k: int|
        0 <= k < identifier.len() ==> char_class(#[trigger] identifier[k]) is Alphabetic
    &&& tokenize(s) == extend(done, tokenize(s.skip(at - pending.len())))
}

/// A lexeme that spans `from..to` of `s` and ends there is read as one token,
/// unless the character behind it is not accepted.
pub proof fn lemma_tokenize_run(s: Seq<char>, from: int, to: int, class: CharClass)
    requires
        is_run_class(class),
        0 <= from < to <= s.len(),
        forall|k: int| from <= k < to ==> char_class(#[trigger] s[k]) == class,
        to < s.len() ==> char_class(s[to]) != class,
    ensures
        tokenize(s.skip(from)) == (if to < s.len() && char_class(s[to]) is Unidentified {
            Err(LexErrorView::UnidentifiedCharacter(s[to]))
        } else {
            match lexeme_token(class, s.subrange(from, to)) {
                Ok(token) => prepend(token, tokenize(s.skip(to))),
                Err(error) => Err(error),
            }
        }),
{
    let u = s.skip(from);
    let n = to - from;
    assert forall|i: int| 0 <= i < n implies char_class(#[trigger] u[i]) == class by {
        assert(u[i] == s[from + i]);
    }
    if n < u.len() {
        assert(u[n] == s[to]);
    }
    lemma_run_length_is(u, class, n);
    assert(u.take(n) =~= s.subrange(from, to));
    assert(u.skip(n) =~= s.skip(to));
    assert(u[0] == s[from]);
}

/// Reading one character that is no part of a lexeme.
pub proof fn lemma_tokenize_single(s: Seq<char>, at: int)
    requires
        0 <= at < s.len(),
        !is_run_class(char_class(s[at])),
    ensures
        tokenize(s.skip(at)) == (match char_class(s[at]) {
            CharClass::Symbol(kind) => prepend(TokenView::fixed(kind), tokenize(s.skip(at + 1))),
            CharClass::Separator => tokenize(s.skip(at + 1)),
            _ => Err(LexErrorView::UnidentifiedCharacter(s[at])),
        }),
{
    let u = s.skip(at);
    assert(u[0] == s[at]);
    assert(u.drop_first() =~= s.skip(at + 1));
}

/// Where the lexeme in the accumulators ends at `at`, emptying them keeps the
/// scan in step with [`tokenize`].
pub proof fn lemma_scan_flush(
    s: Seq<char>,
    at: int,
    done: Seq<TokenView>,
    number: Seq<char>,
    identifier: Seq<char>,
)
    requires
        scanning(s, at, done, number, identifier),
        at < s.len() && number.len() > 0 ==> !(char_class(s[at]) is Numeric),
        at < s.len() && identifier.len() > 0 ==> !(char_class(s[at]) is Alphabetic),
    ensures
        (number + identifier).len() > 0 && at < s.len() && char_class(s[at]) is Unidentified
            ==> tokenize(s) == Err::<Seq<TokenView>, LexErrorView>(
            LexErrorView::UnidentifiedCharacter(s[at]),
        ),
        !((number + identifier).len() > 0 && at < s.len() && char_class(s[at]) is Unidentified)
            ==> match flush_both(identifier, number) {
            Ok(tokens) => scanning(s, at, done + tokens, Seq::empty(), Seq::empty()),
            Err(error) => tokenize(s) == Err::<Seq<TokenView>, LexErrorView>(error),
        },
{
    let pending = number + identifier;
    let from = at - pending.len();
    let nothing = Seq::<char>::empty();
    assert(nothing + nothing =~= nothing);
    assert(s.subrange(at, at) =~= nothing);
    if pending.len() == 0 {
        assert(done + Seq::<TokenView>::empty() =~= done);
    } else {
        let class = if number.len() > 0 {
            CharClass::Numeric
        } else {
            CharClass::Alphabetic
        };
        assert(pending =~= if number.len() > 0 {
            number
        } else {
            identifier
        });
        assert forall|k: int| from <= k < at implies char_class(#[trigger] s[k]) == class by {
            assert(s[k] == pending[k - from]);
        }
        lemma_tokenize_run(s, from, at, class);
        if !(at < s.len() && char_class(s[at]) is Unidentified) {
            match lexeme_token(class, pending) {
                Ok(token) => {
                    let rest = tokenize(s.skip(at));
                    assert(flush_both(identifier, number) == Ok::<Seq<TokenView>, LexErrorView>(
                        seq![token],
                    )) by {
                        assert(Seq::<TokenView>::empty() + seq![token] =~= seq![token]);
                        assert(seq![token] + Seq::<TokenView>::empty() =~= seq![token]);
                    }
                    match rest {
                        Ok(tokens) => {
                            assert(done + (seq![token] + tokens) =~= (done + seq![token]) + tokens);
                        },
                        Err(_) => {},
                    }
                },
                Err(_) => {},
            }
        }
    }
}

/// Every token that tokenizing yields is well formed.
pub proof fn lemma_tokenize_wf(s: Seq<char>)
    ensures
        tokenize(s) matches Ok(tokens) ==> all_wf(tokens),
    decreases s.len(),
{
    if s.len() > 0 {
        match char_class(s[0]) {
            CharClass::Symbol(kind) => {
                lemma_tokenize_wf(s.drop_first());
            },
            CharClass::Separator => {
                lemma_tokenize_wf(s.drop_first());
            },
            CharClass::Unidentified => {},
            class => {
                let n = run_length(s, class) as int;
                lemma_run_length(s, class);
                lemma_constant_literal_is_decimal(IConstants::Pi);
                lemma_tokenize_wf(s.skip(n));
            },
        }
    }
}

} // verus!
