//! Shares of the processor, kept as the text of a decimal number.
use vstd::prelude::*;

use crate::text::{
    before_first, chars_of, find_char, first_index, is_digit, lemma_first_index, lower, same_text,
    text_between, to_lower,
};

verus! {

/// Digits only.
pub open spec fn all_digits(s: Seq<char>) -> bool {
    forall|i: int| 0 <= i < s.len() ==> is_digit(#[trigger] s[i])
}

/// The text without the sign that it may begin with.
pub open spec fn without_sign(s: Seq<char>) -> Seq<char> {
    if s.len() > 0 && (s[0] == '+' || s[0] == '-') {
        s.skip(1)
    } else {
        s
    }
}

/// Digits with at most one point among them, and at least one digit.
pub open spec fn is_mantissa(s: Seq<char>) -> bool {
    let point = first_index(s, '.');
    if point == s.len() {
        s.len() > 0 && all_digits(s)
    } else {
        s.len() > 1 && all_digits(s.take(point)) && all_digits(s.skip(point + 1))
    }
}

/// A mantissa, with or without an `e` and a signed whole number behind it.
pub open spec fn is_finite_number(s: Seq<char>) -> bool {
    let at = first_index(s, 'e');
    &&& is_mantissa(s.take(at))
    &&& at < s.len() ==> without_sign(s.skip(at + 1)).len() > 0 && all_digits(
        without_sign(s.skip(at + 1)),
    )
}

/// The text of a floating-point number: a finite one, an infinity or no number, signed or not, in
/// letters of either case.
pub open spec fn is_number(s: Seq<char>) -> bool {
    let bare = without_sign(lower(s));
    bare == "inf"@ || bare == "infinity"@ || bare == "nan"@ || is_finite_number(bare)
}

/// The share that a text tells, zero where it tells none.
pub open spec fn share_of(s: Seq<char>) -> Seq<char> {
    if is_number(s) {
        s
    } else {
        "0.0"@
    }
}

fn has_only_digits(v: &Vec<char>, from: usize, to: usize) -> (r: bool)
    requires
        from <= to <= v@.len(),
    ensures
        r == all_digits(v@.subrange(from as int, to as int)),
{
    let ghost part = v@.subrange(from as int, to as int);
    let mut i: usize = from;
    while i < to
        invariant
            from <= i <= to <= v@.len(),
            part == v@.subrange(from as int, to as int),
            forall|k: int| 0 <= k < i - from ==> is_digit(#[trigger] part[k]),
        decreases to - i,
    {
        let c = v[i];
        assert(part[i - from] == c);
        if !('0' <= c && c <= '9') {
            return false;
        }
        i += 1;
    }
    true
}

fn drop_sign(s: &str) -> (r: String)
    ensures
        r@ == without_sign(s@),
{
    let v = chars_of(s);
    let from: usize = if v.len() > 0 && (v[0] == '+' || v[0] == '-') {
        1
    } else {
        0
    };
    assert(without_sign(s@) =~= v@.subrange(from as int, v@.len() as int));
    text_between(&v, from, v.len())
}

fn check_mantissa(s: &str) -> (r: bool)
    ensures
        r == is_mantissa(s@),
{
    let v = chars_of(s);
    let point = find_char(&v, '.');
    let n = v.len();
    if point == n {
        assert(v@.subrange(0, n as int) =~= s@);
        n > 0 && has_only_digits(&v, 0, n)
    } else {
        assert(v@.subrange(0, point as int) =~= s@.take(point as int));
        assert(v@.subrange(point + 1, n as int) =~= s@.skip(point + 1));
        n > 1 && has_only_digits(&v, 0, point) && has_only_digits(&v, point + 1, n)
    }
}

fn check_finite(s: &str) -> (r: bool)
    ensures
        r == is_finite_number(s@),
{
    let v = chars_of(s);
    let at = find_char(&v, 'e');
    let mantissa = before_first(s, 'e');
    if !check_mantissa(mantissa.as_str()) {
        return false;
    }
    if at == v.len() {
        return true;
    }
    assert(v@.subrange(at + 1, v@.len() as int) =~= s@.skip(at + 1));
    let exponent = text_between(&v, at + 1, v.len());
    let bare = drop_sign(exponent.as_str());
    let digits = chars_of(bare.as_str());
    assert(digits@.subrange(0, digits@.len() as int) =~= bare@);
    digits.len() > 0 && has_only_digits(&digits, 0, digits.len())
}

/// Whether a text is that of a floating-point number.
pub fn reads_as_number(s: &str) -> (r: bool)
    ensures
        r == is_number(s@),
{
    let folded = to_lower(s);
    let bare = drop_sign(folded.as_str());
    same_text(bare.as_str(), "inf") || same_text(bare.as_str(), "infinity") || same_text(
        bare.as_str(),
        "nan",
    ) || check_finite(bare.as_str())
}

/// The share that a text tells, zero where it tells none.
pub fn share_text(s: &str) -> (r: String)
    ensures
        r@ == share_of(s@),
{
    if reads_as_number(s) {
        s.to_string()
    } else {
        "0.0".to_string()
    }
}

/// What is told of a share is always the text of a number.
pub proof fn law_shares_are_numbers(s: Seq<char>)
    ensures
        is_number(share_of(s)),
{
    reveal_strlit("0.0");
    let zero = "0.0"@;
    assert(lower(zero) =~= zero);
    assert(without_sign(zero) == zero);
    lemma_first_index(zero, 'e');
    lemma_first_index(zero, '.');
    assert(zero.take(3) =~= zero);
    if first_index(zero, '.') != 1 {
        assert(zero[1] == '.');
        assert(false);
    }
    assert(all_digits(zero.take(1)));
    assert(all_digits(zero.skip(2)));
}

} // verus!
