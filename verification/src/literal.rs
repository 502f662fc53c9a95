//! Decimal numerals: the text that a number token carries.
//!
//! A numeral is kept as written. It is well formed when it is made of ASCII
//! digits with at most one decimal point and at least one digit, which is the
//! unsigned, exponent-free part of the grammar that Rust's floating-point
//! parser accepts: `"7"`, `"3.101"`, `"5."` and `".5"` are numerals, `"."`,
//! `"1.2.3"` and `""` are not.

use vstd::prelude::*;

verus! {

/// `c` is one of the ten ASCII digits.
pub open spec fn is_digit(c: char) -> bool {
    '0' <= c <= '9'
}

/// `text` is a decimal numeral: only ASCII digits and `.`, at most one `.`,
/// and at least one digit.
pub open spec fn is_decimal_literal(text: Seq<char>) -> bool {
    &&& forall|i: int| 0 <= i < text.len() ==> is_digit(#[trigger] text[i]) || text[i] == '.'
    &&& forall|i: int, j: int|
        0 <= i < text.len() && 0 <= j < text.len() && #[trigger] text[i] == '.'
            && #[trigger] text[j] == '.' ==> i == j
    &&& exists|i: int| 0 <= i < text.len() && is_digit(#[trigger] text[i])
}

/// Decides whether `text` is a decimal numeral.
pub fn is_decimal(text: &str) -> (valid: bool)
    ensures
        valid == is_decimal_literal(text@),
{
    let mut seen_digit: bool = false;
    let mut seen_point: bool = false;
    let ghost mut digit_at: int = 0;
    let ghost mut point_at: int = 0;
    for c in it: text.chars()
        invariant
            it.seq() == text@,
            forall|i: int| 0 <= i < it.index() ==> is_digit(#[trigger] text@[i]) || text@[i] == '.',
            seen_digit ==> 0 <= digit_at < it.index() && is_digit(text@[digit_at]),
            !seen_digit ==> forall|i: int| 0 <= i < it.index() ==> !is_digit(#[trigger] text@[i]),
            seen_point ==> 0 <= point_at < it.index() && text@[point_at] == '.',
            seen_point ==> forall|i: int|
                0 <= i < it.index() && #[trigger] text@[i] == '.' ==> i == point_at,
            !seen_point ==> forall|i: int| 0 <= i < it.index() ==> #[trigger] text@[i] != '.',
    {
        let ghost at = it.index() as int;
        if c == '.' {
            if seen_point {
                assert(text@[at] == '.' && text@[point_at] == '.' && at != point_at);
                return false;
            }
            seen_point = true;
            proof {
                point_at = at;
            }
        } else if '0' <= c && c <= '9' {
            seen_digit = true;
            proof {
                digit_at = at;
            }
        } else {
            assert(!(is_digit(text@[at]) || text@[at] == '.'));
            return false;
        }
    }
    seen_digit
}

} // verus!
