//! The character classes that drive the tokenizer.

use crate::tokens::IToken;
use vstd::prelude::*;

verus! {

/// Whether `char::is_numeric` holds of `c`: whether `c` is in one of Unicode's
/// general categories for numbers.
pub uninterp spec fn char_is_numeric(c: char) -> bool;

/// Whether `char::is_alphabetic` holds of `c`: whether `c` has Unicode's
/// `Alphabetic` property.
pub uninterp spec fn char_is_alphabetic(c: char) -> bool;

/// `char::is_numeric` looks `c` up in the Unicode tables that the standard
/// library was built with. Its result depends on `c` alone and is given the
/// name [`char_is_numeric`]; nothing is claimed about its value.
pub assume_specification[ char::is_numeric ](c: char) -> (numeric: bool)
    ensures
        numeric == char_is_numeric(c),
;

/// `char::is_alphabetic` looks `c` up in the Unicode tables that the standard
/// library was built with. Its result depends on `c` alone and is given the
/// name [`char_is_alphabetic`]; nothing is claimed about its value.
pub assume_specification[ char::is_alphabetic ](c: char) -> (alphabetic: bool)
    ensures
        alphabetic == char_is_alphabetic(c),
;

/// What a character means to the tokenizer.
#[derive(Debug, Copy, Clone, PartialEq, Eq, Structural)]
pub enum CharClass {
    /// An operator or a parenthesis: a token by itself.
    Symbol(IToken),
    /// A comma or a space: ends the lexeme before it and yields no token.
    Separator,
    /// Part of a number: a numeric character or the decimal point.
    Numeric,
    /// Part of an identifier.
    Alphabetic,
    /// Not accepted anywhere.
    Unidentified,
}

/// The token kind that a single character stands for, if any.
pub open spec fn symbol_kind(c: char) -> Option<IToken> {
    if c == '^' {
        Some(IToken::Pow)
    } else if c == '*' {
        Some(IToken::Mul)
    } else if c == '/' {
        Some(IToken::Div)
    } else if c == '+' {
        Some(IToken::Add)
    } else if c == '-' {
        Some(IToken::Sub)
    } else if c == '(' {
        Some(IToken::LPar)
    } else if c == ')' {
        Some(IToken::RPar)
    } else {
        None
    }
}

/// The class of `c`, given what the Unicode tables say of it. Symbols and
/// separators come first; a character that is both numeric and alphabetic
/// counts as numeric.
pub open spec fn class_given(c: char, numeric: bool, alphabetic: bool) -> CharClass {
    if symbol_kind(c) is Some {
        CharClass::Symbol(symbol_kind(c)->0)
    } else if c == ',' || c == ' ' {
        CharClass::Separator
    } else if numeric || c == '.' {
        CharClass::Numeric
    } else if alphabetic {
        CharClass::Alphabetic
    } else {
        CharClass::Unidentified
    }
}

/// The class of `c`.
pub open spec fn char_class(c: char) -> CharClass {
    class_given(c, char_is_numeric(c), char_is_alphabetic(c))
}

/// A class whose characters accumulate into a lexeme.
pub open spec fn is_run_class(class: CharClass) -> bool {
    class is Numeric || class is Alphabetic
}

/// Classifies `c` from the two table lookups.
pub fn classify_given(c: char, numeric: bool, alphabetic: bool) -> (class: CharClass)
    ensures
        class == class_given(c, numeric, alphabetic),
{
    match c {
        '^' => CharClass::Symbol(IToken::Pow),
        '*' => CharClass::Symbol(IToken::Mul),
        '/' => CharClass::Symbol(IToken::Div),
        '+' => CharClass::Symbol(IToken::Add),
        '-' => CharClass::Symbol(IToken::Sub),
        '(' => CharClass::Symbol(IToken::LPar),
        ')' => CharClass::Symbol(IToken::RPar),
        ',' | ' ' => CharClass::Separator,
        _ => {
            if numeric || c == '.' {
                CharClass::Numeric
            } else if alphabetic {
                CharClass::Alphabetic
            } else {
                CharClass::Unidentified
            }
        },
    }
}

/// Classifies `c`.
pub fn classify(c: char) -> (class: CharClass)
    ensures
        class == char_class(c),
{
    classify_given(c, c.is_numeric(), c.is_alphabetic())
}

} // verus!
