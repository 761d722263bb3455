//! The grammar of numeric literals, and the texts of numbers.

use crate::number::{
    all_zero, are_digits, lemma_canonical_of_wf, lemma_digits_value_zeros, lemma_nat_digits,
    nat_digits, strip_leading, strip_trailing, DecimalView, Number,
};
use vstd::prelude::*;

verus! {

/// A decimal digit character.
pub open spec fn is_digit(c: char) -> bool {
    '0' <= c && c <= '9'
}

/// The digit that a digit character writes.
pub open spec fn digit_of(c: char) -> u8 {
    (c as int - '0' as int) as u8
}

/// The character that writes a digit.
pub open spec fn digit_char(d: u8) -> char {
    (d + 48) as char
}

/// Every character is a decimal digit.
pub open spec fn are_digit_chars(s: Seq<char>) -> bool {
    forall|i: int| 0 <= i < s.len() ==> is_digit(#[trigger] s[i])
}

/// The digits that a run of digit characters writes.
pub open spec fn digits_of(s: Seq<char>) -> Seq<u8> {
    Seq::new(s.len(), |i: int| digit_of(s[i]))
}

/// The characters that write a run of digits.
pub open spec fn chars_of(ds: Seq<u8>) -> Seq<char> {
    Seq::new(ds.len(), |i: int| digit_char(ds[i]))
}

/// The index of the first decimal point in `s`, or the length of `s` if it has none.
pub open spec fn dot_position(s: Seq<char>) -> int
    decreases s.len(),
{
    if s.len() == 0 || s[0] == '.' {
        0
    } else {
        1 + dot_position(s.skip(1))
    }
}

/// The numeral without its sign.
pub open spec fn unsigned_part(s: Seq<char>) -> Seq<char> {
    if s.len() > 0 && s[0] == '-' {
        s.skip(1)
    } else {
        s
    }
}

/// The characters before the decimal point.
pub open spec fn int_part(s: Seq<char>) -> Seq<char> {
    unsigned_part(s).take(dot_position(unsigned_part(s)))
}

/// The characters after the decimal point; none where there is no point.
pub open spec fn frac_part(s: Seq<char>) -> Seq<char> {
    let body = unsigned_part(s);
    if dot_position(body) < body.len() {
        body.skip(dot_position(body) + 1)
    } else {
        Seq::empty()
    }
}

/// The grammar of numeric literals: an optional `-`, one or more digits, and
/// optionally a point followed by one or more digits.
pub open spec fn is_numeral(s: Seq<char>) -> bool {
    let body = unsigned_part(s);
    &&& int_part(s).len() >= 1
    &&& are_digit_chars(int_part(s))
    &&& are_digit_chars(frac_part(s))
    &&& dot_position(body) < body.len() ==> frac_part(s).len() >= 1
}

/// The canonical numeral that a numeric literal writes.
pub open spec fn numeral_decimal(s: Seq<char>) -> DecimalView {
    DecimalView::canonical(
        s.len() > 0 && s[0] == '-',
        digits_of(int_part(s)),
        digits_of(frac_part(s)),
    )
}

/// The number that a numeric literal writes.
pub open spec fn numeral_value(s: Seq<char>) -> Number {
    numeral_decimal(s).value()
}

/// The text of a numeral: sign, digits, and the point with the digits after it, if any.
pub open spec fn decimal_text(d: DecimalView) -> Seq<char> {
    let sign = if d.negative {
        seq!['-']
    } else {
        Seq::empty()
    };
    let frac = if d.frac_digits.len() > 0 {
        seq!['.'] + chars_of(d.frac_digits)
    } else {
        Seq::empty()
    };
    sign + chars_of(d.int_digits) + frac
}

/// The decimal text of an integer.
pub open spec fn int_text(v: int) -> Seq<char> {
    if v < 0 {
        seq!['-'] + chars_of(nat_digits((-v) as nat))
    } else {
        chars_of(nat_digits(v as nat))
    }
}

/// The first point of `s` is at `k` when no point comes before `k` and either
/// `s` ends at `k` or has a point there.
pub proof fn lemma_dot_position_is(s: Seq<char>, k: int)
    requires
        0 <= k <= s.len(),
        forall|j: int| 0 <= j < k ==> s[j] != '.',
        k < s.len() ==> s[k] == '.',
    ensures
        dot_position(s) == k,
    decreases k,
{
    if k > 0 {
        let rest = s.skip(1);
        assert forall|j: int| 0 <= j < k - 1 implies rest[j] != '.' by {
            assert(rest[j] == s[j + 1]);
        }
        lemma_dot_position_is(rest, k - 1);
    }
}

/// The first point stands within the text, behind characters that are no
/// points.
pub proof fn lemma_dot_position_bounds(s: Seq<char>)
    ensures
        0 <= dot_position(s) <= s.len(),
        forall|j: int| 0 <= j < dot_position(s) ==> s[j] != '.',
        dot_position(s) < s.len() ==> s[dot_position(s)] == '.',
    decreases s.len(),
{
    if !(s.len() == 0 || s[0] == '.') {
        let rest = s.skip(1);
        lemma_dot_position_bounds(rest);
        assert forall|j: int| 0 <= j < dot_position(s) implies s[j] != '.' by {
            if j > 0 {
                assert(rest[j - 1] == s[j]);
            }
        }
    }
}

/// `ds` without its leading zeros starts at `k` when zeros come before `k`
/// and the digit at `k` is not zero or is the last one.
pub proof fn lemma_strip_leading_is(ds: Seq<u8>, k: int)
    requires
        0 <= k < ds.len(),
        forall|j: int| 0 <= j < k ==> ds[j] == 0,
        ds[k] != 0 || k == ds.len() - 1,
    ensures
        strip_leading(ds) == ds.skip(k),
    decreases k,
{
    if k > 0 {
        let rest = ds.skip(1);
        assert(ds[0] == 0);
        assert forall|j: int| 0 <= j < k - 1 implies rest[j] == 0 by {
            assert(rest[j] == ds[j + 1]);
        }
        assert(rest[k - 1] == ds[k]);
        lemma_strip_leading_is(rest, k - 1);
        assert(rest.skip(k - 1) =~= ds.skip(k));
    } else {
        assert(ds.skip(0) =~= ds);
    }
}

/// `ds` without its trailing zeros ends at `k` when zeros follow from `k`
/// on and the digit before `k`, if any, is not zero.
pub proof fn lemma_strip_trailing_is(ds: Seq<u8>, k: int)
    requires
        0 <= k <= ds.len(),
        forall|j: int| k <= j < ds.len() ==> ds[j] == 0,
        k > 0 ==> ds[k - 1] != 0,
    ensures
        strip_trailing(ds) == ds.take(k),
    decreases ds.len() - k,
{
    if k < ds.len() {
        let rest = ds.drop_last();
        assert(ds.last() == 0);
        assert forall|j: int| k <= j < rest.len() implies rest[j] == 0 by {
            assert(rest[j] == ds[j]);
        }
        lemma_strip_trailing_is(rest, k);
        assert(rest.take(k) =~= ds.take(k));
    } else {
        assert(ds.take(k) =~= ds);
    }
}

/// Digit characters and digits convert into each other.
pub proof fn lemma_digit_chars(ds: Seq<u8>)
    requires
        are_digits(ds),
    ensures
        are_digit_chars(chars_of(ds)),
        digits_of(chars_of(ds)) == ds,
        forall|i: int| 0 <= i < ds.len() ==> chars_of(ds)[i] != '.' && chars_of(ds)[i] != '-',
{
    assert forall|i: int| 0 <= i < ds.len() implies is_digit(#[trigger] chars_of(ds)[i])
        && digit_of(chars_of(ds)[i]) == ds[i] by {
        assert(ds[i] <= 9);
    }
    assert(digits_of(chars_of(ds)) =~= ds);
}

/// The digits of a run of digit characters are digits.
pub proof fn lemma_digits_of(s: Seq<char>)
    requires
        are_digit_chars(s),
    ensures
        are_digits(digits_of(s)),
        chars_of(digits_of(s)) == s,
{
    assert forall|i: int| 0 <= i < s.len() implies #[trigger] digits_of(s)[i] <= 9 && digit_char(
        digits_of(s)[i],
    ) == s[i] by {
        assert(is_digit(s[i]));
    }
    assert(chars_of(digits_of(s)) =~= s);
}

/// The text of a well-formed numeral is a numeric literal that writes the
/// same numeral.
pub proof fn lemma_decimal_text_round_trip(d: DecimalView)
    requires
        d.wf(),
    ensures
        is_numeral(decimal_text(d)),
        numeral_decimal(decimal_text(d)) == d,
{
    let s = decimal_text(d);
    let ic = chars_of(d.int_digits);
    let fc = chars_of(d.frac_digits);
    lemma_digit_chars(d.int_digits);
    lemma_digit_chars(d.frac_digits);
    let tail = if d.frac_digits.len() > 0 {
        seq!['.'] + fc
    } else {
        Seq::empty()
    };
    let body = ic + tail;
    assert(ic[0] != '-');
    if d.negative {
        assert(s =~= seq!['-'] + body);
        assert(s[0] == '-');
        assert(s.skip(1) =~= body);
    } else {
        assert(s =~= body);
        assert(s[0] == ic[0]);
    }
    assert(unsigned_part(s) == body);
    assert forall|j: int| 0 <= j < ic.len() implies body[j] != '.' by {
        assert(body[j] == ic[j]);
    }
    if d.frac_digits.len() > 0 {
        assert(body[ic.len() as int] == '.');
    }
    lemma_dot_position_is(body, ic.len() as int);
    assert(int_part(s) =~= ic);
    assert(frac_part(s) =~= fc);
    lemma_canonical_of_wf(d);
}

/// The decimal text of an integer is a numeric literal that writes the integer.
pub proof fn lemma_int_text_round_trip(v: int)
    ensures
        is_numeral(int_text(v)),
        numeral_value(int_text(v)) == (Number { mantissa: v, scale: 0 }),
{
    let magnitude = if v < 0 {
        (-v) as nat
    } else {
        v as nat
    };
    let ds = nat_digits(magnitude);
    lemma_nat_digits(magnitude);
    let d = DecimalView { negative: v < 0, int_digits: ds, frac_digits: Seq::empty() };
    if v < 0 {
        if all_zero(ds) {
            lemma_digits_value_zeros(ds);
        }
    }
    assert(d.wf());
    assert(decimal_text(d) =~= int_text(v));
    lemma_decimal_text_round_trip(d);
    assert(ds + Seq::<u8>::empty() =~= ds);
}

/// A text whose first character after the sign is no digit is no numeric literal.
pub proof fn lemma_numeral_needs_digit(s: Seq<char>)
    requires
        unsigned_part(s).len() == 0 || !is_digit(unsigned_part(s)[0]),
    ensures
        !is_numeral(s),
{
    let body = unsigned_part(s);
    if body.len() > 0 && body[0] != '.' {
        lemma_dot_position_bounds(body.skip(1));
        assert(int_part(s)[0] == body[0]);
    }
}

/// What a run of `k` digits at the start of the unsigned part decides: where
/// the run ends the text ends, or a point follows, or the text is no numeric
/// literal.
pub proof fn lemma_numeral_int_run(s: Seq<char>, k: int)
    requires
        1 <= k <= unsigned_part(s).len(),
        forall|j: int| 0 <= j < k ==> is_digit(#[trigger] unsigned_part(s)[j]),
        k < unsigned_part(s).len() ==> !is_digit(unsigned_part(s)[k]),
    ensures
        k < unsigned_part(s).len() && unsigned_part(s)[k] != '.' ==> !is_numeral(s),
        k == unsigned_part(s).len() || unsigned_part(s)[k] == '.' ==> {
            &&& dot_position(unsigned_part(s)) == k
            &&& int_part(s) == unsigned_part(s).take(k)
            &&& are_digit_chars(int_part(s))
            &&& int_part(s) == s.subrange(s.len() - unsigned_part(s).len(), s.len() - unsigned_part(s).len() + k)
            &&& k < unsigned_part(s).len() ==> frac_part(s) == unsigned_part(s).skip(k + 1)
                && frac_part(s) == s.subrange(s.len() - unsigned_part(s).len() + k + 1, s.len() as int)
            &&& k == unsigned_part(s).len() ==> frac_part(s) == Seq::<char>::empty()
                && frac_part(s) == s.subrange(s.len() as int, s.len() as int)
        },
{
    let body = unsigned_part(s);
    let off = s.len() - body.len();
    lemma_dot_position_bounds(body);
    let d = dot_position(body);
    if d < k {
        assert(is_digit(body[d]));
    }
    if k < body.len() && body[k] != '.' {
        if d > k {
            assert(int_part(s)[k] == body[k]);
        }
    }
    if k == body.len() || body[k] == '.' {
        lemma_dot_position_is(body, k);
        assert(body.take(k) =~= s.subrange(off, off + k));
        if k < body.len() {
            assert(body.skip(k + 1) =~= s.subrange(off + k + 1, s.len() as int));
        } else {
            assert(Seq::<char>::empty() =~= s.subrange(s.len() as int, s.len() as int));
        }
    }
}

} // verus!
