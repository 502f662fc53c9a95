//! Laws of tokenizing.

use crate::characters::{char_class, is_run_class, CharClass};
use crate::errors::{LexError, LexErrorView};
use crate::lexical::{
    extend, lemma_run_length, lemma_run_length_is, lexeme_token, prepend, run_length, tokenize,
    Lexed,
};
use crate::tokenizer::lexed;
use crate::tokens::{Token, TokenView};
use vstd::prelude::*;

verus! {

/// The outcome of `first`, and after it that of `second`: the tokens of
/// both, or the first error.
pub open spec fn sequel(first: Lexed, second: Lexed) -> Lexed {
    match first {
        Ok(tokens) => extend(tokens, second),
        Err(error) => Err(error),
    }
}

/// Where a text may be cut in two without cutting a lexeme: at either end,
/// behind a character that belongs to no lexeme, or between two lexemes of
/// different kinds. A cut between a lexeme and an unaccepted character is
/// none, since the character is reported before the lexeme is judged.
pub open spec fn splits_at(before: Seq<char>, after: Seq<char>) -> bool {
    ||| before.len() == 0
    ||| after.len() == 0
    ||| !is_run_class(char_class(before.last()))
    ||| (char_class(after[0]) != char_class(before.last()) && !(char_class(after[0])
        is Unidentified))
}

proof fn lemma_prepend_sequel(token: TokenView, first: Lexed, second: Lexed)
    ensures
        sequel(prepend(token, first), second) == prepend(token, sequel(first, second)),
{
    if let Ok(head) = first {
        if let Ok(tail) = second {
            assert((seq![token] + head) + tail =~= seq![token] + (head + tail));
        }
    }
}

/// Tokenizing is compositional: a text cut at a lexeme boundary gives the
/// tokens of the first part followed by those of the second.
pub proof fn lemma_tokenize_concat(before: Seq<char>, after: Seq<char>)
    requires
        splits_at(before, after),
    ensures
        tokenize(before + after) == sequel(tokenize(before), tokenize(after)),
    decreases before.len(),
{
    let whole = before + after;
    if before.len() == 0 {
        assert(whole =~= after);
        if let Ok(tail) = tokenize(after) {
            assert(Seq::<TokenView>::empty() + tail =~= tail);
        }
    } else {
        assert(whole[0] == before[0]);
        let class = char_class(before[0]);
        if is_run_class(class) {
            let n = run_length(before, class) as int;
            lemma_run_length(before, class);
            assert forall|i: int| 0 <= i < n implies char_class(#[trigger] whole[i]) == class by {
                assert(whole[i] == before[i]);
            }
            if n < before.len() {
                assert(whole[n] == before[n]);
                lemma_run_length_is(whole, class, n);
                assert(whole.take(n) =~= before.take(n));
                assert(whole.skip(n) =~= before.skip(n) + after);
                if !(char_class(before[n]) is Unidentified) {
                    if let Ok(token) = lexeme_token(class, before.take(n)) {
                        assert(before.skip(n).last() == before.last());
                        lemma_tokenize_concat(before.skip(n), after);
                        lemma_prepend_sequel(token, tokenize(before.skip(n)), tokenize(after));
                    }
                }
            } else {
                assert(char_class(before.last()) == class);
                if after.len() > 0 {
                    assert(whole[n] == after[0]);
                }
                lemma_run_length_is(whole, class, n);
                assert(whole.take(n) =~= before.take(n));
                assert(whole.skip(n) =~= after);
                assert(before.skip(n) =~= Seq::<char>::empty());
                if let Ok(token) = lexeme_token(class, before.take(n)) {
                    assert(tokenize(before.skip(n)) == Ok::<Seq<TokenView>, LexErrorView>(
                        Seq::empty(),
                    ));
                    assert(seq![token] + Seq::<TokenView>::empty() =~= seq![token]);
                }
            }
        } else {
            let rest = before.drop_first();
            assert(whole.drop_first() =~= rest + after);
            if !(class is Unidentified) {
                if rest.len() > 0 {
                    assert(rest.last() == before.last());
                }
                lemma_tokenize_concat(rest, after);
                if let CharClass::Symbol(kind) = class {
                    lemma_prepend_sequel(TokenView::fixed(kind), tokenize(rest), tokenize(after));
                }
            }
        }
    }
}

/// A text that is one separator has no tokens.
proof fn lemma_tokenize_separator(separator: char)
    requires
        char_class(separator) is Separator,
    ensures
        tokenize(seq![separator]) == Ok::<Seq<TokenView>, LexErrorView>(Seq::empty()),
{
    let text = seq![separator];
    assert(text[0] == separator);
    assert(text.drop_first() =~= Seq::<char>::empty());
    assert(tokenize(text.drop_first()) == Ok::<Seq<TokenView>, LexErrorView>(Seq::empty()));
}

/// A separator ends the lexeme before it and leaves no other trace:
/// the text around it is tokenized part by part.
pub proof fn lemma_tokenize_around_separator(before: Seq<char>, separator: char, after: Seq<char>)
    requires
        char_class(separator) is Separator,
    ensures
        tokenize(before + seq![separator] + after) == sequel(tokenize(before), tokenize(after)),
{
    let middle = seq![separator];
    assert(middle[0] == separator);
    assert((before + middle).last() == separator);
    lemma_tokenize_concat(before + middle, after);
    lemma_tokenize_concat(before, middle);
    lemma_tokenize_separator(separator);
    if let Ok(head) = tokenize(before) {
        assert(head + Seq::<TokenView>::empty() =~= head);
    }
}

/// One separator is as good as another: a comma and a space mean the same
/// wherever they stand.
pub proof fn lemma_separators_interchangeable(
    before: Seq<char>,
    one: char,
    other: char,
    after: Seq<char>,
)
    requires
        char_class(one) is Separator,
        char_class(other) is Separator,
    ensures
        tokenize(before + seq![one] + after) == tokenize(before + seq![other] + after),
{
    lemma_tokenize_around_separator(before, one, after);
    lemma_tokenize_around_separator(before, other, after);
}

/// A separator that does not keep two lexemes apart changes nothing: the
/// text tokenizes with it as without it.
pub proof fn lemma_separator_redundant(before: Seq<char>, separator: char, after: Seq<char>)
    requires
        char_class(separator) is Separator,
        splits_at(before, after),
    ensures
        tokenize(before + seq![separator] + after) == tokenize(before + after),
{
    lemma_tokenize_around_separator(before, separator, after);
    lemma_tokenize_concat(before, after);
}

/// A text that holds a character outside the accepted set has no tokens.
pub proof fn lemma_unidentified_character_fails(s: Seq<char>, at: int)
    requires
        0 <= at < s.len(),
        char_class(s[at]) is Unidentified,
    ensures
        tokenize(s) is Err,
    decreases s.len(),
{
    let class = char_class(s[0]);
    if at > 0 && !(class is Unidentified) {
        if is_run_class(class) {
            let n = run_length(s, class) as int;
            lemma_run_length(s, class);
            if at >= n && n < s.len() {
                assert(s.skip(n)[at - n] == s[at]);
                lemma_unidentified_character_fails(s.skip(n), at - n);
            }
        } else {
            assert(s.drop_first()[at - 1] == s[at]);
            lemma_unidentified_character_fails(s.drop_first(), at - 1);
        }
    }
}

/// An unaccepted character behind a text that tokenizes is the first
/// defect: the error names that character, whatever follows it.
pub proof fn lemma_unidentified_character_after_tokens(
    before: Seq<char>,
    c: char,
    after: Seq<char>,
)
    requires
        tokenize(before) is Ok,
        char_class(c) is Unidentified,
    ensures
        tokenize(before + seq![c] + after) == Err::<Seq<TokenView>, LexErrorView>(
            LexErrorView::UnidentifiedCharacter(c),
        ),
    decreases before.len(),
{
    let tail = seq![c] + after;
    let whole = before + seq![c] + after;
    assert(whole =~= before + tail);
    if before.len() == 0 {
        assert(whole[0] == c);
    } else {
        assert(whole[0] == before[0]);
        let class = char_class(before[0]);
        if is_run_class(class) {
            let n = run_length(before, class) as int;
            lemma_run_length(before, class);
            assert forall|i: int| 0 <= i < n implies char_class(#[trigger] whole[i]) == class by {
                assert(whole[i] == before[i]);
            }
            if n < before.len() {
                assert(whole[n] == before[n]);
                lemma_run_length_is(whole, class, n);
                assert(whole.take(n) =~= before.take(n));
                assert(whole.skip(n) =~= before.skip(n) + seq![c] + after);
                lemma_unidentified_character_after_tokens(before.skip(n), c, after);
            } else {
                assert(whole[n] == c);
                lemma_run_length_is(whole, class, n);
            }
        } else {
            let rest = before.drop_first();
            assert(whole.drop_first() =~= rest + seq![c] + after);
            lemma_unidentified_character_after_tokens(rest, c, after);
        }
    }
}

/// Tokenizing is a function of the text: two outcomes for one text are the
/// same.
pub proof fn lemma_tokenizing_is_deterministic(
    s: Seq<char>,
    first: Result<Vec<Token>, LexError>,
    second: Result<Vec<Token>, LexError>,
)
    requires
        lexed(first) == tokenize(s),
        lexed(second) == tokenize(s),
    ensures
        lexed(first) == lexed(second),
{
}

} // verus!
