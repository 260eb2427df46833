//! Which texts are numbers.
use vstd::prelude::*;

use crate::percent::{all_digits, is_finite_number, is_mantissa, is_number, share_of, without_sign};
use crate::text::{first_index, is_digit, lemma_first_index, lower, lower_char};

verus! {

proof fn lemma_at(s: Seq<char>, c: char, k: int)
    requires
        0 <= k <= s.len(),
        k < s.len() ==> s[k] == c,
        forall|i: int| 0 <= i < k ==> #[trigger] s[i] != c,
    ensures
        first_index(s, c) == k,
{
    lemma_first_index(s, c);
    let found = first_index(s, c);
    if found < k {
        assert(s[found] != c);
    }
}

proof fn lemma_lower_kept(s: Seq<char>)
    requires
        forall|i: int| 0 <= i < s.len() ==> !('A' <= #[trigger] s[i] <= 'Z'),
    ensures
        lower(s) == s,
{
    assert(lower(s) =~= s);
}

proof fn lemma_point(a: Seq<char>, b: Seq<char>)
    requires
        all_digits(a),
        all_digits(b),
        a.len() + b.len() > 0,
    ensures
        is_mantissa(a + seq!['.'] + b),
        a.len() > 0 ==> is_mantissa(a),
{
    let s = a + seq!['.'] + b;
    assert forall|i: int| 0 <= i < a.len() implies #[trigger] s[i] != '.' by {
        assert(is_digit(a[i]));
    }
    lemma_at(s, '.', a.len() as int);
    assert(s.take(a.len() as int) =~= a);
    assert(s.skip(a.len() as int + 1) =~= b);
    assert forall|i: int| 0 <= i < a.len() implies #[trigger] a[i] != '.' by {
        assert(is_digit(a[i]));
    }
    lemma_at(a, '.', a.len() as int);
}

/// Digits are a number, with a point among them or at an end or without, with a sign in front or
/// without, and with an exponent or without; the share told of such a text is the text.
pub proof fn law_digits_are_numbers(
    sign: Seq<char>,
    a: Seq<char>,
    b: Seq<char>,
    exponent_sign: Seq<char>,
    exponent: Seq<char>,
)
    requires
        sign == Seq::<char>::empty() || sign == seq!['+'] || sign == seq!['-'],
        exponent_sign == Seq::<char>::empty() || exponent_sign == seq!['+'] || exponent_sign
            == seq!['-'],
        all_digits(a),
        all_digits(b),
        a.len() + b.len() > 0,
        all_digits(exponent),
        exponent.len() > 0,
    ensures
        share_of(sign + (a + seq!['.'] + b)) == sign + (a + seq!['.'] + b),
        a.len() > 0 ==> share_of(sign + a) == sign + a,
        share_of(sign + (a + seq!['.'] + b + seq!['e'] + exponent_sign + exponent)) == sign + (a
            + seq!['.'] + b + seq!['e'] + exponent_sign + exponent),
{
    let m = a + seq!['.'] + b;
    lemma_point(a, b);
    lemma_plain_number(sign, m);
    if a.len() > 0 {
        lemma_plain_number(sign, a);
    }
    let s = m + seq!['e'] + exponent_sign + exponent;
    assert forall|i: int| 0 <= i < m.len() implies digit_or_point(#[trigger] m[i]) by {
        if i < a.len() {
            assert(is_digit(a[i]));
        } else if i > a.len() {
            assert(m[i] == b[i - a.len() - 1]);
            assert(is_digit(b[i - a.len() - 1]));
        }
    }
    assert forall|i: int| 0 <= i < m.len() implies #[trigger] s[i] != 'e' by {
        assert(s[i] == m[i]);
        assert(digit_or_point(m[i]));
    }
    lemma_at(s, 'e', m.len() as int);
    assert(s.take(m.len() as int) =~= m);
    let tail = s.skip(m.len() as int + 1);
    assert(tail =~= exponent_sign + exponent);
    assert(is_digit(exponent[0]));
    if exponent_sign.len() == 0 {
        assert(tail =~= exponent);
    } else {
        assert(tail.skip(1) =~= exponent);
    }
    assert(without_sign(tail) == exponent);
    let whole = sign + s;
    assert forall|i: int| 0 <= i < whole.len() implies !('A' <= #[trigger] whole[i] <= 'Z') by {
        if i >= sign.len() {
            let k = i - sign.len();
            assert(whole[i] == s[k]);
            if k < m.len() {
                assert(digit_or_point(m[k]));
            } else if k > m.len() {
                assert(s[k] == tail[k - m.len() - 1]);
                if k - m.len() - 1 >= exponent_sign.len() {
                    assert(is_digit(exponent[k - m.len() - 1 - exponent_sign.len()]));
                }
            }
        }
    }
    lemma_lower_kept(whole);
    assert(digit_or_point(m[0]));
    assert(s[0] == m[0]);
    if sign.len() == 0 {
        assert(whole =~= s);
    } else {
        assert(whole.skip(1) =~= s);
    }
}

pub open spec fn digit_or_point(c: char) -> bool {
    is_digit(c) || c == '.'
}

proof fn lemma_plain_number(sign: Seq<char>, m: Seq<char>)
    requires
        sign == Seq::<char>::empty() || sign == seq!['+'] || sign == seq!['-'],
        is_mantissa(m),
    ensures
        is_number(sign + m),
{
    assert forall|i: int| 0 <= i < m.len() implies digit_or_point(#[trigger] m[i]) by {
        let point = first_index(m, '.');
        lemma_first_index(m, '.');
        if point == m.len() {
            assert(is_digit(m[i]));
        } else if i < point {
            assert(m.take(point)[i] == m[i]);
        } else if i > point {
            assert(m.skip(point + 1)[i - point - 1] == m[i]);
        }
    }
    assert forall|i: int| 0 <= i < m.len() implies #[trigger] m[i] != 'e' by {
        assert(digit_or_point(m[i]));
    }
    lemma_at(m, 'e', m.len() as int);
    assert(m.take(m.len() as int) =~= m);
    let whole = sign + m;
    assert forall|i: int| 0 <= i < whole.len() implies !('A' <= #[trigger] whole[i] <= 'Z') by {
        if i >= sign.len() {
            assert(whole[i] == m[i - sign.len()]);
            assert(digit_or_point(m[i - sign.len()]));
        }
    }
    lemma_lower_kept(whole);
    assert(digit_or_point(m[0]));
    if sign.len() == 0 {
        assert(whole =~= m);
    } else {
        assert(whole.skip(1) =~= m);
    }
    assert(without_sign(lower(whole)) == m);
}

/// An exponent without digits, or a sign or a point alone, makes no number.
pub proof fn law_unfinished_numbers(a: Seq<char>)
    requires
        all_digits(a),
        a.len() > 0,
    ensures
        !is_number(a + seq!['e']),
        !is_number(a + seq!['e', '-']),
        !is_number(seq!['.']),
        !is_number(seq!['-']),
{
    reveal_strlit("inf");
    reveal_strlit("infinity");
    reveal_strlit("nan");
    lemma_unfinished(a, Seq::empty());
    lemma_unfinished(a, seq!['-']);
    assert(a + seq!['e'] + Seq::<char>::empty() =~= a + seq!['e']);
    assert(a + seq!['e'] + seq!['-'] =~= a + seq!['e', '-']);
    let point = seq!['.'];
    lemma_lower_kept(point);
    lemma_at(point, 'e', 1);
    assert(point.take(1) =~= point);
    lemma_at(point, '.', 0);
    let minus = seq!['-'];
    lemma_lower_kept(minus);
    let bare = minus.skip(1);
    assert(bare =~= Seq::<char>::empty());
    lemma_at(bare, 'e', 0);
    lemma_at(bare.take(0), '.', 0);
    assert(without_sign(lower(minus)) == bare);
}

proof fn lemma_unfinished(a: Seq<char>, end: Seq<char>)
    requires
        all_digits(a),
        a.len() > 0,
        end == Seq::<char>::empty() || end == seq!['-'],
    ensures
        !is_number(a + seq!['e'] + end),
{
    let s = a + seq!['e'] + end;
    reveal_strlit("inf");
    reveal_strlit("infinity");
    reveal_strlit("nan");
    assert forall|i: int| 0 <= i < s.len() implies !('A' <= #[trigger] s[i] <= 'Z') by {
        if i < a.len() {
            assert(is_digit(a[i]));
        }
    }
    lemma_lower_kept(s);
    assert(is_digit(a[0]) && s[0] == a[0]);
    assert forall|i: int| 0 <= i < a.len() implies #[trigger] s[i] != 'e' by {
        assert(is_digit(a[i]));
    }
    lemma_at(s, 'e', a.len() as int);
    let tail = s.skip(a.len() as int + 1);
    assert(tail =~= end);
    if end.len() > 0 {
        assert(end.skip(1).len() == 0);
    }
    assert(without_sign(tail).len() == 0);
}

/// A character of a number: a digit, a sign, a point, or a letter of the words for what is not
/// finite or of the exponent.
pub open spec fn in_numbers(c: char) -> bool {
    ||| '0' <= c <= '9'
    ||| c == '+' || c == '-' || c == '.'
    ||| c == 'e' || c == 'i' || c == 'n' || c == 'f' || c == 't' || c == 'y' || c == 'a'
    ||| c == 'E' || c == 'I' || c == 'N' || c == 'F' || c == 'T' || c == 'Y' || c == 'A'
}

/// A text with any other character is no number, and neither is an empty one; the share told of
/// these is nought.
pub proof fn law_other_texts_are_no_numbers(s: Seq<char>, k: int)
    requires
        s.len() == 0 || (0 <= k < s.len() && !in_numbers(s[k])),
    ensures
        !is_number(s),
        share_of(s) == "0.0"@,
{
    let small = lower(s);
    let bare = without_sign(small);
    reveal_strlit("inf");
    reveal_strlit("infinity");
    reveal_strlit("nan");
    lemma_first_index(bare, 'e');
    let at = first_index(bare, 'e');
    if is_number(s) {
        if s.len() == 0 {
            assert(bare.len() == 0);
        } else {
            let c = small[k];
            assert(c == lower_char(s[k]));
            assert(!('a' <= c <= 'z') || (c != 'e' && c != 'i' && c != 'n' && c != 'f' && c != 't'
                && c != 'y' && c != 'a'));
            let j = if bare == small {
                k
            } else {
                k - 1
            };
            if bare != small {
                assert(bare == small.skip(1));
                assert(k > 0);
            }
            assert(bare[j] == c);
            if is_finite_number(bare) {
                let m = bare.take(at);
                if j < at {
                    assert(m[j] == c);
                    let point = first_index(m, '.');
                    lemma_first_index(m, '.');
                    if point == m.len() {
                        assert(is_digit(m[j]));
                    } else if j < point {
                        assert(m.take(point)[j] == c);
                    } else if j > point {
                        assert(m.skip(point + 1)[j - point - 1] == c);
                    }
                } else if j > at {
                    let tail = bare.skip(at + 1);
                    assert(tail[j - at - 1] == c);
                    let digits = without_sign(tail);
                    if digits == tail {
                        assert(is_digit(digits[j - at - 1]));
                    } else if j - at - 1 > 0 {
                        assert(is_digit(digits[j - at - 2]));
                    }
                }
            }
        }
    }
}

} // verus!
