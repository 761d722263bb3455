//! Decimal numbers and numerals as mathematics: what digits write, and the
//! canonical way to write a number.

use vstd::prelude::*;

verus! {

/// Ten to the power `n`.
pub open spec fn pow10(n: nat) -> nat
    decreases n,
{
    if n == 0 {
        1
    } else {
        10 * pow10((n - 1) as nat)
    }
}

/// An exact decimal number: `mantissa / 10^scale`.
pub struct Number {
    pub mantissa: int,
    pub scale: nat,
}

impl Number {
    /// No shorter way to write the same number: the mantissa does not end in a
    /// zero that a smaller scale would make unnecessary.
    pub open spec fn is_normal(self) -> bool {
        self.scale == 0 || self.mantissa % 10 != 0
    }

    /// The same number in its shortest form.
    pub open spec fn normalized(self) -> Number
        decreases self.scale,
    {
        if self.scale > 0 && self.mantissa % 10 == 0 {
            Number { mantissa: self.mantissa / 10, scale: (self.scale - 1) as nat }.normalized()
        } else {
            self
        }
    }

    /// Numeric equality of two decimals, whatever their scales.
    pub open spec fn same_value(self, other: Number) -> bool {
        self.mantissa * pow10(other.scale) == other.mantissa * pow10(self.scale)
    }
}

/// The number that a sequence of decimal digits writes, most significant first.
pub open spec fn digits_value(ds: Seq<u8>) -> nat
    decreases ds.len(),
{
    if ds.len() == 0 {
        0
    } else {
        digits_value(ds.drop_last()) * 10 + ds.last() as nat
    }
}

/// Every element is a decimal digit.
pub open spec fn are_digits(ds: Seq<u8>) -> bool {
    forall|i: int| 0 <= i < ds.len() ==> #[trigger] ds[i] <= 9
}

/// Every element is zero.
pub open spec fn all_zero(ds: Seq<u8>) -> bool {
    forall|i: int| 0 <= i < ds.len() ==> #[trigger] ds[i] == 0
}

/// The decimal digits of `n`, most significant first, without leading zeros
/// (a single `0` for zero).
pub open spec fn nat_digits(n: nat) -> Seq<u8>
    decreases n,
{
    if n < 10 {
        seq![n as u8]
    } else {
        nat_digits(n / 10).push((n % 10) as u8)
    }
}

/// `ds` without its leading zeros, keeping at least one digit.
pub open spec fn strip_leading(ds: Seq<u8>) -> Seq<u8>
    decreases ds.len(),
{
    if ds.len() > 1 && ds[0] == 0 {
        strip_leading(ds.skip(1))
    } else {
        ds
    }
}

/// `ds` without its trailing zeros.
pub open spec fn strip_trailing(ds: Seq<u8>) -> Seq<u8>
    decreases ds.len(),
{
    if ds.len() > 0 && ds.last() == 0 {
        strip_trailing(ds.drop_last())
    } else {
        ds
    }
}

/// A decimal numeral as its digits: sign, digits before the point, digits after it.
pub struct DecimalView {
    pub negative: bool,
    pub int_digits: Seq<u8>,
    pub frac_digits: Seq<u8>,
}

impl DecimalView {
    /// The numeral is written in the one canonical way: at least one digit
    /// before the point, no leading zero but a lone `0`, no trailing zero
    /// after the point, and no negative zero.
    pub open spec fn wf(self) -> bool {
        &&& are_digits(self.int_digits)
        &&& are_digits(self.frac_digits)
        &&& self.int_digits.len() >= 1
        &&& self.int_digits.len() > 1 ==> self.int_digits[0] != 0
        &&& self.frac_digits.len() > 0 ==> self.frac_digits.last() != 0
        &&& self.negative ==> !(all_zero(self.int_digits) && all_zero(self.frac_digits))
    }

    /// The digits before and after the point, read as one natural number.
    pub open spec fn magnitude(self) -> nat {
        digits_value(self.int_digits + self.frac_digits)
    }

    /// The number that the numeral writes.
    pub open spec fn value(self) -> Number {
        Number {
            mantissa: if self.negative {
                -(self.magnitude() as int)
            } else {
                self.magnitude() as int
            },
            scale: self.frac_digits.len(),
        }
    }

    /// The canonical numeral with the given sign and digits.
    pub open spec fn canonical(negative: bool, int_digits: Seq<u8>, frac_digits: Seq<u8>) -> DecimalView {
        DecimalView {
            negative: negative && !(all_zero(int_digits) && all_zero(frac_digits)),
            int_digits: strip_leading(int_digits),
            frac_digits: strip_trailing(frac_digits),
        }
    }

    /// The canonical numeral of a number.
    pub open spec fn of_number(n: Number) -> DecimalView {
        let magnitude = if n.mantissa < 0 {
            -n.mantissa
        } else {
            n.mantissa
        } as nat;
        let ds = nat_digits(magnitude);
        let padded = if ds.len() <= n.scale {
            Seq::new((n.scale + 1 - ds.len()) as nat, |i: int| 0u8) + ds
        } else {
            ds
        };
        DecimalView {
            negative: n.mantissa < 0,
            int_digits: padded.take(padded.len() - n.scale),
            frac_digits: padded.skip(padded.len() - n.scale),
        }
    }
}

/// A power of ten is positive.
pub proof fn lemma_pow10_positive(n: nat)
    ensures
        pow10(n) > 0,
    decreases n,
{
    if n > 0 {
        lemma_pow10_positive((n - 1) as nat);
    }
}

/// Ten to a sum is the product of the powers.
pub proof fn lemma_pow10_adds(a: nat, b: nat)
    ensures
        pow10(a + b) == pow10(a) * pow10(b),
    decreases a,
{
    if a > 0 {
        lemma_pow10_adds((a - 1) as nat, b);
        assert((a + b - 1) as nat == (a - 1) as nat + b);
        assert(pow10(a + b) == 10 * pow10((a + b - 1) as nat));
        assert(10 * (pow10((a - 1) as nat) * pow10(b)) == (10 * pow10((a - 1) as nat)) * pow10(b))
            by (nonlinear_arith);
    } else {
        assert(a + b == b);
        assert(1 * pow10(b) == pow10(b)) by (nonlinear_arith);
    }
}

/// Appending one digit multiplies by ten and adds the digit.
pub proof fn lemma_digits_value_push(ds: Seq<u8>, d: u8)
    ensures
        digits_value(ds.push(d)) == digits_value(ds) * 10 + d,
{
    assert(ds.push(d).drop_last() =~= ds);
}

/// The digits of `a + b` write `value(a) * 10^|b| + value(b)`.
pub proof fn lemma_digits_value_concat(a: Seq<u8>, b: Seq<u8>)
    ensures
        digits_value(a + b) == digits_value(a) * pow10(b.len()) + digits_value(b),
    decreases b.len(),
{
    if b.len() == 0 {
        assert(a + b =~= a);
        assert(digits_value(a) * 1 == digits_value(a)) by (nonlinear_arith);
    } else {
        lemma_digits_value_concat(a, b.drop_last());
        assert((a + b).drop_last() =~= a + b.drop_last());
        assert((a + b).last() == b.last());
        let x = digits_value(a) as int;
        let p = pow10((b.len() - 1) as nat) as int;
        let y = digits_value(b.drop_last()) as int;
        assert(pow10(b.len()) == 10 * p);
        assert(digits_value(a + b) == (x * p + y) * 10 + b.last());
        assert(digits_value(b) == y * 10 + b.last());
        assert((x * p + y) * 10 == x * (10 * p) + y * 10) by (nonlinear_arith);
    }
}

/// Zeros write zero.
pub proof fn lemma_digits_value_zeros(ds: Seq<u8>)
    requires
        all_zero(ds),
    ensures
        digits_value(ds) == 0,
    decreases ds.len(),
{
    if ds.len() > 0 {
        assert(ds.last() == 0);
        lemma_digits_value_zeros(ds.drop_last());
    }
}

/// Leading zeros do not change what the digits write.
pub proof fn lemma_strip_leading(ds: Seq<u8>)
    requires
        are_digits(ds),
        ds.len() >= 1,
    ensures
        digits_value(strip_leading(ds)) == digits_value(ds),
        are_digits(strip_leading(ds)),
        strip_leading(ds).len() >= 1,
        strip_leading(ds).len() <= ds.len(),
        strip_leading(ds).len() > 1 ==> strip_leading(ds)[0] != 0,
        all_zero(strip_leading(ds)) == all_zero(ds),
        strip_leading(ds) == ds.skip(ds.len() - strip_leading(ds).len()),
    decreases ds.len(),
{
    if ds.len() > 1 && ds[0] == 0 {
        let rest = ds.skip(1);
        assert forall|i: int| 0 <= i < rest.len() implies #[trigger] rest[i] <= 9 by {
            assert(rest[i] == ds[i + 1]);
        }
        lemma_strip_leading(rest);
        assert(ds =~= seq![0u8] + rest);
        lemma_digits_value_concat(seq![0u8], rest);
        assert(seq![0u8].drop_last() =~= Seq::<u8>::empty());
        assert(digits_value(Seq::<u8>::empty()) == 0);
        assert(digits_value(seq![0u8]) == digits_value(seq![0u8].drop_last()) * 10 + 0);
        assert(0 * pow10(rest.len()) == 0) by (nonlinear_arith);
        if all_zero(rest) {
            assert forall|i: int| 0 <= i < ds.len() implies #[trigger] ds[i] == 0 by {
                if i > 0 {
                    assert(rest[i - 1] == 0);
                }
            }
        }
        if all_zero(ds) {
            assert forall|i: int| 0 <= i < rest.len() implies #[trigger] rest[i] == 0 by {
                assert(ds[i + 1] == 0);
            }
        }
        assert(rest.skip(rest.len() - strip_leading(rest).len()) =~= ds.skip(
            ds.len() - strip_leading(rest).len(),
        ));
    } else {
        assert(ds.skip(0) =~= ds);
    }
}

/// What trailing zeros after the point change: nothing but the scale.
pub proof fn lemma_strip_trailing(ds: Seq<u8>)
    requires
        are_digits(ds),
    ensures
        are_digits(strip_trailing(ds)),
        strip_trailing(ds).len() <= ds.len(),
        strip_trailing(ds).len() > 0 ==> strip_trailing(ds).last() != 0,
        all_zero(strip_trailing(ds)) == all_zero(ds),
        strip_trailing(ds) == ds.take(strip_trailing(ds).len() as int),
        forall|i: int| strip_trailing(ds).len() <= i < ds.len() ==> ds[i] == 0,
    decreases ds.len(),
{
    if ds.len() > 0 && ds.last() == 0 {
        let rest = ds.drop_last();
        assert forall|i: int| 0 <= i < rest.len() implies #[trigger] rest[i] <= 9 by {
            assert(rest[i] == ds[i]);
        }
        lemma_strip_trailing(rest);
        if all_zero(rest) {
            assert forall|i: int| 0 <= i < ds.len() implies #[trigger] ds[i] == 0 by {
                if i < rest.len() {
                    assert(rest[i] == 0);
                }
            }
        }
        if all_zero(ds) {
            assert forall|i: int| 0 <= i < rest.len() implies #[trigger] rest[i] == 0 by {
                assert(ds[i] == 0);
            }
        }
        assert(rest.take(strip_trailing(rest).len() as int) =~= ds.take(
            strip_trailing(rest).len() as int,
        ));
        assert forall|i: int| strip_trailing(ds).len() <= i < ds.len() implies ds[i] == 0 by {
            if i < rest.len() {
                assert(rest[i] == 0);
            }
        }
    } else {
        assert(ds.take(ds.len() as int) =~= ds);
    }
}

/// A canonical numeral is well formed.
pub proof fn lemma_canonical_wf(negative: bool, int_digits: Seq<u8>, frac_digits: Seq<u8>)
    requires
        are_digits(int_digits),
        are_digits(frac_digits),
        int_digits.len() >= 1,
    ensures
        DecimalView::canonical(negative, int_digits, frac_digits).wf(),
{
    lemma_strip_leading(int_digits);
    lemma_strip_trailing(frac_digits);
}

/// A well-formed numeral is its own canonical form.
pub proof fn lemma_canonical_of_wf(d: DecimalView)
    requires
        d.wf(),
    ensures
        DecimalView::canonical(d.negative, d.int_digits, d.frac_digits) == d,
{
}

/// A well-formed numeral writes a number in its shortest form.
pub proof fn lemma_wf_value_is_normal(d: DecimalView)
    requires
        d.wf(),
    ensures
        d.value().is_normal(),
        d.value().normalized() == d.value(),
{
    if d.frac_digits.len() > 0 {
        let all = d.int_digits + d.frac_digits;
        assert(all.last() == d.frac_digits.last());
        let m = d.magnitude() as int;
        assert(m % 10 == all.last() as int);
        assert(m % 10 != 0 ==> (-m) % 10 != 0);
    }
}

/// The digits of a natural number write it back, and have no leading zero.
pub proof fn lemma_nat_digits(n: nat)
    ensures
        digits_value(nat_digits(n)) == n,
        are_digits(nat_digits(n)),
        nat_digits(n).len() >= 1,
        nat_digits(n).len() > 1 ==> nat_digits(n)[0] != 0,
        n > 0 ==> nat_digits(n)[0] != 0,
        strip_leading(nat_digits(n)) == nat_digits(n),
    decreases n,
{
    if n < 10 {
        let ds = seq![n as u8];
        assert(ds.drop_last() =~= Seq::<u8>::empty());
        assert(digits_value(ds.drop_last()) == 0);
    } else {
        lemma_nat_digits(n / 10);
        lemma_digits_value_push(nat_digits(n / 10), (n % 10) as u8);
        let ds = nat_digits(n);
        assert(ds[0] == nat_digits(n / 10)[0]);
    }
}

/// Stripping the zeros that canonical form drops keeps the numeric value.
pub proof fn lemma_canonical_same_value(negative: bool, int_digits: Seq<u8>, frac_digits: Seq<u8>)
    requires
        are_digits(int_digits),
        are_digits(frac_digits),
        int_digits.len() >= 1,
    ensures
        DecimalView::canonical(negative, int_digits, frac_digits).value().same_value(
            DecimalView { negative, int_digits, frac_digits }.value(),
        ),
{
    let c = DecimalView::canonical(negative, int_digits, frac_digits);
    let raw = DecimalView { negative, int_digits, frac_digits };
    lemma_strip_leading(int_digits);
    lemma_strip_trailing(frac_digits);
    let si = strip_leading(int_digits);
    let sf = strip_trailing(frac_digits);
    let tail = frac_digits.skip(sf.len() as int);
    assert(frac_digits =~= sf + tail);
    assert(all_zero(tail));
    lemma_digits_value_zeros(tail);
    lemma_digits_value_concat(sf, tail);
    lemma_digits_value_concat(int_digits, frac_digits);
    lemma_digits_value_concat(si, sf);
    lemma_pow10_adds(sf.len(), tail.len());
    let i = digits_value(int_digits) as int;
    let f = digits_value(sf) as int;
    let ps = pow10(sf.len()) as int;
    let pt = pow10(tail.len()) as int;
    assert(sf.len() + tail.len() == frac_digits.len());
    assert(raw.magnitude() == i * (ps * pt) + f * pt);
    assert(c.magnitude() == i * ps + f);
    assert((i * ps + f) * (ps * pt) == (i * (ps * pt) + f * pt) * ps) by (nonlinear_arith);
    assert((-(i * ps + f)) * (ps * pt) == (-(i * (ps * pt) + f * pt)) * ps) by (nonlinear_arith);
    if all_zero(int_digits) && all_zero(frac_digits) {
        lemma_digits_value_zeros(int_digits);
        lemma_digits_value_zeros(frac_digits);
        lemma_digits_value_zeros(si);
        lemma_digits_value_zeros(sf);
        assert(0 * pow10(frac_digits.len()) == 0) by (nonlinear_arith);
        assert(0 * pow10(sf.len()) == 0) by (nonlinear_arith);
    }
}

/// The last digit of a natural number is its remainder by ten.
pub proof fn lemma_nat_digits_last(n: nat)
    ensures
        nat_digits(n).last() == n % 10,
{
    if n >= 10 {
        assert(nat_digits(n) == nat_digits(n / 10).push((n % 10) as u8));
    }
}

/// The canonical numeral of a number in shortest form is well formed and
/// writes that number.
pub proof fn lemma_of_number(n: Number)
    requires
        n.is_normal(),
    ensures
        DecimalView::of_number(n).wf(),
        DecimalView::of_number(n).value() == n,
{
    let magnitude = if n.mantissa < 0 {
        -n.mantissa
    } else {
        n.mantissa
    } as nat;
    let ds = nat_digits(magnitude);
    lemma_nat_digits(magnitude);
    lemma_nat_digits_last(magnitude);
    let zeros = Seq::new((n.scale + 1 - ds.len()) as nat, |i: int| 0u8);
    let padded = if ds.len() <= n.scale {
        zeros + ds
    } else {
        ds
    };
    let d = DecimalView::of_number(n);
    let split = padded.len() - n.scale;
    assert(d.int_digits + d.frac_digits =~= padded);
    if ds.len() <= n.scale {
        assert(all_zero(zeros));
        lemma_digits_value_zeros(zeros);
        lemma_digits_value_concat(zeros, ds);
        assert(0 * pow10(ds.len()) == 0) by (nonlinear_arith);
        assert(padded.last() == ds.last());
        assert(d.int_digits.len() == 1);
    } else {
        if d.int_digits.len() > 1 {
            assert(ds.len() > 1);
            assert(d.int_digits[0] == ds[0]);
        }
    }
    assert(digits_value(padded) == magnitude);
    assert forall|i: int| 0 <= i < padded.len() implies #[trigger] padded[i] <= 9 by {
        if ds.len() <= n.scale {
            if i >= zeros.len() {
                assert(padded[i] == ds[i - zeros.len()]);
            }
        }
    }
    assert forall|i: int| 0 <= i < d.int_digits.len() implies #[trigger] d.int_digits[i] <= 9 by {
        assert(d.int_digits[i] == padded[i]);
    }
    assert forall|i: int| 0 <= i < d.frac_digits.len() implies #[trigger] d.frac_digits[i]
        <= 9 by {
        assert(d.frac_digits[i] == padded[split + i]);
    }
    if n.scale > 0 {
        assert(d.frac_digits.last() == padded.last());
        assert(n.mantissa % 10 != 0);
        assert(magnitude % 10 != 0) by {
            if magnitude % 10 == 0 {
                assert(n.mantissa % 10 == 0) by (nonlinear_arith)
                    requires
                        magnitude % 10 == 0,
                        n.mantissa == magnitude as int || n.mantissa == -(magnitude as int),
                ;
            }
        }
    }
    if n.mantissa < 0 {
        if all_zero(d.int_digits) && all_zero(d.frac_digits) {
            assert(all_zero(padded)) by {
                assert forall|i: int| 0 <= i < padded.len() implies #[trigger] padded[i] == 0 by {
                    if i < split {
                        assert(d.int_digits[i] == 0);
                    } else {
                        assert(d.frac_digits[i - split] == 0);
                    }
                }
            }
            lemma_digits_value_zeros(padded);
        }
    }
}

/// Dividing a multiple of ten by ten, on either side of zero.
pub proof fn lemma_tenth(negative: bool, magnitude: nat)
    requires
        magnitude % 10 == 0,
    ensures
        ({
            let m = if negative {
                -(magnitude as int)
            } else {
                magnitude as int
            };
            let t = if negative {
                -((magnitude / 10) as int)
            } else {
                (magnitude / 10) as int
            };
            m % 10 == 0 && m / 10 == t
        }),
{
    let k = magnitude / 10;
    assert(magnitude == 10 * k);
    assert((-(10 * k)) % 10 == 0 && (-(10 * k)) / 10 == -k) by (nonlinear_arith);
    assert((10 * k) % 10 == 0 && (10 * k) / 10 == k) by (nonlinear_arith);
}

/// The shortest form of a number is in shortest form.
pub proof fn lemma_normalized_is_normal(n: Number)
    ensures
        n.normalized().is_normal(),
    decreases n.scale,
{
    if n.scale > 0 && n.mantissa % 10 == 0 {
        lemma_normalized_is_normal(Number { mantissa: n.mantissa / 10, scale: (n.scale - 1) as nat });
    }
}

} // verus!
