//! Exact decimal numbers as values: numerals of any length in canonical form,
//! and numbers with a 64-bit mantissa for arithmetic.

use crate::number::{
    are_digits, digits_value, lemma_canonical_wf, lemma_digits_value_push, nat_digits, pow10,
    DecimalView, Number,
};
use crate::numeral::{
    are_digit_chars, chars_of, decimal_text, digit_char, digits_of, dot_position, frac_part,
    int_part, int_text, is_digit, is_numeral, lemma_digits_of, lemma_numeral_int_run, lemma_numeral_needs_digit, lemma_strip_leading_is,
    lemma_strip_trailing_is, numeral_decimal, unsigned_part,
};
use crate::text::characters;
use vstd::prelude::*;
use vstd::string::*;

verus! {

/// The most digits after the point that constant folding keeps.
pub const MAX_SCALE: usize = 18;

impl Number {
    /// A number that exact arithmetic works on: a 64-bit mantissa and at most
    /// `MAX_SCALE` digits after the point.
    pub open spec fn is_small(self) -> bool {
        self.scale <= MAX_SCALE && i64::MIN <= self.mantissa <= i64::MAX
    }
}

/// A decimal number with a 64-bit mantissa: `mantissa / 10^scale`.
#[derive(Debug, Clone, Copy, PartialEq, Eq)]
pub struct Scaled {
    pub mantissa: i64,
    pub scale: u8,
}

impl View for Scaled {
    type V = Number;

    open spec fn view(&self) -> Number {
        Number { mantissa: self.mantissa as int, scale: self.scale as nat }
    }
}

impl Scaled {
    /// The same number in shortest form.
    pub fn shortest(self) -> (r: Scaled)
        ensures
            r@ == self@.normalized(),
    {
        let negative = self.mantissa < 0;
        let mut magnitude: u64 = if negative {
            (-(self.mantissa as i128)) as u64
        } else {
            self.mantissa as u64
        };
        let mut scale: u8 = self.scale;
        while scale > 0 && magnitude % 10 == 0
            invariant
                (Number {
                    mantissa: if negative {
                        -(magnitude as int)
                    } else {
                        magnitude as int
                    },
                    scale: scale as nat,
                }).normalized() == self@.normalized(),
                magnitude <= 0x8000_0000_0000_0000,
                !negative ==> magnitude <= 0x7fff_ffff_ffff_ffff,
            decreases scale,
        {
            proof {
                crate::number::lemma_tenth(negative, magnitude as nat);
            }
            magnitude = magnitude / 10;
            scale = scale - 1;
        }
        proof {
            if scale > 0 {
                let m = if negative {
                    -(magnitude as int)
                } else {
                    magnitude as int
                };
                assert(m % 10 != 0) by {
                    if m % 10 == 0 {
                        assert(magnitude as int % 10 == 0) by (nonlinear_arith)
                            requires
                                m % 10 == 0,
                                m == magnitude as int || m == -(magnitude as int),
                        ;
                    }
                }
            }
        }
        let mantissa: i64 = if negative {
            if magnitude == 0x8000_0000_0000_0000 {
                i64::MIN
            } else {
                -(magnitude as i64)
            }
        } else {
            magnitude as i64
        };
        Scaled { mantissa, scale }
    }
}

/// An exact decimal numeral of any length, kept in canonical form.
#[derive(Debug, PartialEq, Eq)]
pub struct Decimal {
    negative: bool,
    int_digits: Vec<u8>,
    frac_digits: Vec<u8>,
}

impl View for Decimal {
    type V = DecimalView;

    closed spec fn view(&self) -> DecimalView {
        DecimalView {
            negative: self.negative,
            int_digits: self.int_digits@,
            frac_digits: self.frac_digits@,
        }
    }
}

impl Clone for Decimal {
    fn clone(&self) -> (r: Decimal)
        ensures
            r@ == self@,
    {
        proof {
            use_type_invariant(self);
        }
        let int_digits = self.int_digits.clone();
        let frac_digits = self.frac_digits.clone();
        assert(int_digits@ =~= self.int_digits@);
        assert(frac_digits@ =~= self.frac_digits@);
        Decimal { negative: self.negative, int_digits, frac_digits }
    }
}

/// The text of one digit.
fn digit_str(d: u8) -> (r: &'static str)
    requires
        d <= 9,
    ensures
        r@ == seq![digit_char(d)],
{
    proof {
        reveal_strlit("0");
        reveal_strlit("1");
        reveal_strlit("2");
        reveal_strlit("3");
        reveal_strlit("4");
        reveal_strlit("5");
        reveal_strlit("6");
        reveal_strlit("7");
        reveal_strlit("8");
        reveal_strlit("9");
    }
    let r = if d == 0 {
        "0"
    } else if d == 1 {
        "1"
    } else if d == 2 {
        "2"
    } else if d == 3 {
        "3"
    } else if d == 4 {
        "4"
    } else if d == 5 {
        "5"
    } else if d == 6 {
        "6"
    } else if d == 7 {
        "7"
    } else if d == 8 {
        "8"
    } else {
        "9"
    };
    assert(r@ =~= seq![digit_char(d)]);
    r
}

/// Appends the characters of `ds` to `out`.
fn push_digits(out: &mut String, ds: &Vec<u8>)
    requires
        are_digits(ds@),
    ensures
        final(out)@ == old(out)@ + chars_of(ds@),
{
    let mut i: usize = 0;
    while i < ds.len()
        invariant
            i <= ds.len(),
            are_digits(ds@),
            out@ == old(out)@ + chars_of(ds@.take(i as int)),
        decreases ds.len() - i,
    {
        let d: u8 = ds[i];
        assert(ds@[i as int] <= 9);
        out.append(digit_str(d));
        assert(chars_of(ds@.take(i as int)) + seq![digit_char(d)] =~= chars_of(
            ds@.take(i as int + 1),
        ));
        i += 1;
    }
    assert(ds@.take(ds.len() as int) =~= ds@);
}

/// The decimal digits of `n`, most significant first.
fn digits_of_u128(n: u128) -> (r: Vec<u8>)
    ensures
        r@ == nat_digits(n as nat),
    decreases n,
{
    if n < 10 {
        let mut r: Vec<u8> = Vec::new();
        r.push(n as u8);
        assert(r@ =~= seq![n as u8]);
        r
    } else {
        let mut r = digits_of_u128(n / 10);
        r.push((n % 10) as u8);
        r
    }
}

/// The decimal text of `v`.
pub fn int_to_text(v: i64) -> (r: String)
    ensures
        r@ == int_text(v as int),
{
    let magnitude: u128 = if v < 0 {
        (-(v as i128)) as u128
    } else {
        v as u128
    };
    let ds = digits_of_u128(magnitude);
    proof {
        crate::number::lemma_nat_digits(magnitude as nat);
    }
    let mut out = String::from_str("");
    proof {
        reveal_strlit("");
        reveal_strlit("-");
    }
    if v < 0 {
        out.append("-");
    }
    assert(out@ =~= if v < 0 {
        seq!['-']
    } else {
        Seq::empty()
    });
    push_digits(&mut out, &ds);
    assert(out@ =~= int_text(v as int));
    out
}

/// The digits that the characters from `from` up to `to` write.
fn digits_between(chars: &Vec<char>, from: usize, to: usize) -> (r: Vec<u8>)
    requires
        from <= to <= chars.len(),
        forall|j: int| from <= j < to ==> is_digit(#[trigger] chars@[j]),
    ensures
        r@ == digits_of(chars@.subrange(from as int, to as int)),
{
    let mut r: Vec<u8> = Vec::new();
    let mut i: usize = from;
    while i < to
        invariant
            from <= i <= to <= chars.len(),
            forall|j: int| from <= j < to ==> is_digit(#[trigger] chars@[j]),
            r@ == digits_of(chars@.subrange(from as int, i as int)),
        decreases to - i,
    {
        let c = chars[i];
        assert(is_digit(chars@[i as int]));
        r.push((c as u32 - '0' as u32) as u8);
        assert(r@ =~= digits_of(chars@.subrange(from as int, i as int + 1)));
        i += 1;
    }
    r
}

/// Reads the digits `ds` on after the number `acc`: `acc * 10^|ds| + value(ds)`,
/// as long as that stays within 2^63.
fn accumulate(acc: u128, ds: &Vec<u8>) -> (r: Option<u128>)
    requires
        are_digits(ds@),
        acc <= 0x8000_0000_0000_0000,
    ensures
        r matches Some(v) ==> v == acc * pow10(ds@.len()) + digits_value(ds@) && v
            <= 0x8000_0000_0000_0000,
        r is None ==> acc * pow10(ds@.len()) + digits_value(ds@) > 0x8000_0000_0000_0000,
{
    let mut cur: u128 = acc;
    let mut i: usize = 0;
    proof {
        assert(ds@.take(0) =~= Seq::<u8>::empty());
        assert(acc * 1 == acc) by (nonlinear_arith);
    }
    while i < ds.len()
        invariant
            i <= ds.len(),
            are_digits(ds@),
            cur == acc * pow10(i as nat) + digits_value(ds@.take(i as int)),
            cur <= 0x8000_0000_0000_0000,
        decreases ds.len() - i,
    {
        let d: u8 = ds[i];
        assert(ds@[i as int] <= 9);
        let next: u128 = cur * 10 + d as u128;
        proof {
            let head = ds@.take(i as int);
            let head1 = ds@.take(i as int + 1);
            let tail = ds@.skip(i as int + 1);
            assert(head1 =~= head.push(d));
            lemma_digits_value_push(head, d);
            let p = pow10(i as nat) as int;
            assert(pow10((i + 1) as nat) == 10 * p);
            assert((acc * p + digits_value(head)) * 10 == acc * (10 * p) + digits_value(head) * 10)
                by (nonlinear_arith);
            assert(next == acc * pow10((i + 1) as nat) + digits_value(head1));
            if next > 0x8000_0000_0000_0000 {
                assert(ds@ =~= head1 + tail);
                crate::number::lemma_digits_value_concat(head1, tail);
                crate::number::lemma_pow10_adds((i + 1) as nat, tail.len());
                crate::number::lemma_pow10_positive(tail.len());
                let q = pow10(tail.len()) as int;
                let p1 = pow10((i + 1) as nat) as int;
                let h = digits_value(head1) as int;
                assert(acc * (p1 * q) + (h * q + digits_value(tail)) >= acc * p1 + h)
                    by (nonlinear_arith)
                    requires
                        q >= 1,
                        acc >= 0,
                        p1 >= 0,
                        h >= 0,
                        digits_value(tail) >= 0,
                ;
            }
        }
        if next > 0x8000_0000_0000_0000 {
            return None;
        }
        cur = next;
        i += 1;
    }
    assert(ds@.take(ds.len() as int) =~= ds@);
    Some(cur)
}

/// What the run of digits before the point decides.
proof fn lemma_int_scan(s: Seq<char>, start: int, dot: int)
    requires
        start == (if s.len() > 0 && s[0] == '-' { 1int } else { 0int }),
        start <= dot <= s.len(),
        forall|j: int| start <= j < dot ==> is_digit(#[trigger] s[j]),
        dot < s.len() ==> !is_digit(s[dot]),
    ensures
        dot == start ==> !is_numeral(s),
        dot < s.len() && s[dot] != '.' ==> !is_numeral(s),
        dot > start && (dot == s.len() || s[dot] == '.') ==> {
            &&& int_part(s) == s.subrange(start, dot)
            &&& are_digit_chars(int_part(s))
            &&& dot < s.len() ==> frac_part(s) == s.subrange(dot + 1, s.len() as int)
            &&& dot == s.len() ==> frac_part(s) == s.subrange(s.len() as int, s.len() as int)
            &&& (dot_position(unsigned_part(s)) < unsigned_part(s).len()) == (dot < s.len())
        },
{
    let body = unsigned_part(s);
    assert(body.len() == s.len() - start);
    assert forall|j: int| 0 <= j < dot - start implies is_digit(#[trigger] body[j]) by {
        assert(body[j] == s[start + j]);
    }
    if dot < s.len() {
        assert(body[dot - start] == s[dot]);
    }
    if dot == start {
        lemma_numeral_needs_digit(s);
    } else {
        lemma_numeral_int_run(s, dot - start);
    }
}

/// What the run of digits after the point decides.
proof fn lemma_frac_scan(s: Seq<char>, start: int, dot: int, frac_start: int, end: int)
    requires
        0 <= start < dot <= s.len(),
        frac_start == (if dot < s.len() { dot + 1 } else { s.len() as int }),
        frac_start <= end <= s.len(),
        forall|j: int| frac_start <= j < end ==> is_digit(#[trigger] s[j]),
        end < s.len() ==> !is_digit(s[end]),
        int_part(s) == s.subrange(start, dot),
        are_digit_chars(int_part(s)),
        frac_part(s) == s.subrange(frac_start, s.len() as int),
        (dot_position(unsigned_part(s)) < unsigned_part(s).len()) == (dot < s.len()),
    ensures
        is_numeral(s) <==> end == s.len() && !(dot < s.len() && frac_start == s.len()),
{
    let fp = frac_part(s);
    if end < s.len() {
        assert(fp[end - frac_start] == s[end]);
    } else {
        assert forall|j: int| 0 <= j < fp.len() implies is_digit(#[trigger] fp[j]) by {
            assert(fp[j] == s[frac_start + j]);
        }
    }
}

/// The end of the run of digits that starts at `from`.
fn scan_digits(chars: &Vec<char>, from: usize) -> (to: usize)
    requires
        from <= chars.len(),
    ensures
        from <= to <= chars.len(),
        forall|j: int| from <= j < to ==> is_digit(#[trigger] chars@[j]),
        to < chars.len() ==> !is_digit(chars@[to as int]),
{
    let mut to: usize = from;
    while to < chars.len() && chars[to] >= '0' && chars[to] <= '9'
        invariant
            from <= to <= chars.len(),
            forall|j: int| from <= j < to ==> is_digit(#[trigger] chars@[j]),
        decreases chars.len() - to,
    {
        to += 1;
    }
    to
}

impl Decimal {
    /// Every numeral of this type is in canonical form.
    #[verifier::type_invariant]
    pub open spec fn well_formed(&self) -> bool {
        self@.wf()
    }

    /// Reads a numeric literal. Leading zeros, zeros at the end of the
    /// fraction and the sign of zero are dropped; every other digit is kept.
    pub fn parse(text: &str) -> (r: Option<Decimal>)
        ensures
            r is Some <==> is_numeral(text@),
            r matches Some(d) ==> d@ == numeral_decimal(text@),
    {
        let chars = characters(text);
        let n: usize = chars.len();
        let start: usize = if n > 0 && chars[0] == '-' {
            1
        } else {
            0
        };
        let dot = scan_digits(&chars, start);
        proof {
            lemma_int_scan(chars@, start as int, dot as int);
        }
        if dot == start {
            return None;
        }
        if dot < n && chars[dot] != '.' {
            return None;
        }
        let frac_start: usize = if dot < n {
            dot + 1
        } else {
            n
        };
        let end = scan_digits(&chars, frac_start);
        proof {
            lemma_frac_scan(chars@, start as int, dot as int, frac_start as int, end as int);
        }
        if end < n {
            return None;
        }
        if dot < n && frac_start == n {
            return None;
        }
        Some(Decimal::canonical_from(&chars, start, dot, frac_start))
    }

    /// The canonical numeral of a numeric literal whose parts have been found.
    fn canonical_from(chars: &Vec<char>, start: usize, dot: usize, frac_start: usize) -> (r:
        Decimal)
        requires
            is_numeral(chars@),
            start == (if chars@.len() > 0 && chars@[0] == '-' { 1int } else { 0int }),
            start < dot <= frac_start <= chars.len(),
            int_part(chars@) == chars@.subrange(start as int, dot as int),
            frac_part(chars@) == chars@.subrange(frac_start as int, chars@.len() as int),
        ensures
            r@ == numeral_decimal(chars@),
    {
        let n: usize = chars.len();
        let ghost ids = digits_of(int_part(chars@));
        let ghost fds = digits_of(frac_part(chars@));
        proof {
            lemma_digits_of(int_part(chars@));
            lemma_digits_of(frac_part(chars@));
            assert forall|j: int| start <= j < dot implies is_digit(#[trigger] chars@[j]) by {
                assert(is_digit(int_part(chars@)[j - start]));
            }
            assert forall|j: int| frac_start <= j < n implies is_digit(#[trigger] chars@[j]) by {
                assert(is_digit(frac_part(chars@)[j - frac_start]));
            }
            assert forall|j: int| 0 <= j < ids.len() implies (ids[j] == 0) == (chars@[start + j]
                == '0') by {
                assert(int_part(chars@)[j] == chars@[start + j]);
                assert(is_digit(chars@[start + j]));
            }
            assert forall|j: int| 0 <= j < fds.len() implies (fds[j] == 0) == (chars@[frac_start
                + j] == '0') by {
                assert(frac_part(chars@)[j] == chars@[frac_start + j]);
                assert(is_digit(chars@[frac_start + j]));
            }
        }
        // Leading zeros go, but for the last digit before the point.
        let mut first: usize = start;
        while first + 1 < dot && chars[first] == '0'
            invariant
                start <= first < dot <= n,
                n == chars.len(),
                forall|j: int| start <= j < first ==> chars@[j] == '0',
            decreases dot - first,
        {
            first += 1;
        }
        // Zeros at the end of the fraction go.
        let mut last: usize = n;
        while last > frac_start && chars[last - 1] == '0'
            invariant
                frac_start <= last <= n,
                n == chars.len(),
                forall|j: int| last <= j < n ==> chars@[j] == '0',
            decreases last,
        {
            last -= 1;
        }
        let int_digits = digits_between(chars, first, dot);
        let frac_digits = digits_between(chars, frac_start, last);
        let zero = chars[first] == '0' && last == frac_start;
        let negative = start == 1 && !zero;
        proof {
            assert forall|j: int| 0 <= j < first - start implies ids[j] == 0 by {
                assert(chars@[start + j] == '0');
            }
            assert forall|j: int| last - frac_start <= j < fds.len() implies fds[j] == 0 by {
                assert(chars@[frac_start + j] == '0');
            }
            lemma_strip_leading_is(ids, first - start);
            lemma_strip_trailing_is(fds, last - frac_start);
            assert(int_digits@ =~= ids.skip(first - start));
            assert(frac_digits@ =~= fds.take(last - frac_start));
            crate::number::lemma_strip_leading(ids);
            crate::number::lemma_strip_trailing(fds);
            if zero {
                assert(crate::number::all_zero(int_digits@));
                assert(crate::number::all_zero(frac_digits@));
            } else {
                if chars@[first as int] != '0' {
                    assert(int_digits@[0] != 0);
                } else {
                    assert(frac_digits@[last - frac_start - 1] != 0);
                }
            }
            lemma_canonical_wf(start == 1, ids, fds);
        }
        Decimal { negative, int_digits, frac_digits }
    }

    /// The number as a 64-bit mantissa and a scale, if it is small.
    pub fn to_scaled(&self) -> (r: Option<Scaled>)
        ensures
            r is Some <==> self@.value().is_small(),
            r matches Some(s) ==> s@ == self@.value(),
    {
        proof {
            use_type_invariant(self);
            crate::number::lemma_digits_value_concat(self.int_digits@, self.frac_digits@);
        }
        if self.frac_digits.len() > MAX_SCALE {
            return None;
        }
        let whole = match accumulate(0, &self.int_digits) {
            Some(v) => v,
            None => {
                proof {
                    let w = digits_value(self.int_digits@) as int;
                    let p = pow10(self.frac_digits@.len()) as int;
                    crate::number::lemma_pow10_positive(self.frac_digits@.len());
                    assert(0 * pow10(self.int_digits@.len()) == 0) by (nonlinear_arith);
                    assert(w * p >= w) by (nonlinear_arith)
                        requires
                            w >= 0,
                            p >= 1,
                    ;
                }
                return None;
            },
        };
        proof {
            assert(0 * pow10(self.int_digits@.len()) == 0) by (nonlinear_arith);
        }
        let magnitude = match accumulate(whole, &self.frac_digits) {
            Some(v) => v,
            None => {
                return None;
            },
        };
        let scale: u8 = self.frac_digits.len() as u8;
        if self.negative {
            if magnitude == 0x8000_0000_0000_0000 {
                Some(Scaled { mantissa: i64::MIN, scale })
            } else {
                Some(Scaled { mantissa: -(magnitude as i64), scale })
            }
        } else {
            if magnitude == 0x8000_0000_0000_0000 {
                None
            } else {
                Some(Scaled { mantissa: magnitude as i64, scale })
            }
        }
    }

    /// The canonical numeral of a number with a 64-bit mantissa.
    pub fn from_scaled(number: Scaled) -> (r: Decimal)
        ensures
            r@ == DecimalView::of_number(number@.normalized()),
    {
        let s = number.shortest();
        proof {
            crate::number::lemma_normalized_is_normal(number@);
        }
        let negative = s.mantissa < 0;
        let magnitude: u128 = if negative {
            (-(s.mantissa as i128)) as u128
        } else {
            s.mantissa as u128
        };
        let ds = digits_of_u128(magnitude);
        let scale: usize = s.scale as usize;
        let mut padded: Vec<u8> = Vec::new();
        if ds.len() <= scale {
            let zeros = scale + 1 - ds.len();
            let mut i: usize = 0;
            while i < zeros
                invariant
                    i <= zeros,
                    padded@ == Seq::new(i as nat, |k: int| 0u8),
                decreases zeros - i,
            {
                padded.push(0);
                assert(padded@ =~= Seq::new((i + 1) as nat, |k: int| 0u8));
                i += 1;
            }
        }
        assert(padded@ =~= if ds@.len() <= scale {
            Seq::new((scale + 1 - ds@.len()) as nat, |k: int| 0u8)
        } else {
            Seq::empty()
        });
        let mut j: usize = 0;
        let ghost prefix = padded@;
        while j < ds.len()
            invariant
                j <= ds.len(),
                padded@ == prefix + ds@.take(j as int),
            decreases ds.len() - j,
        {
            padded.push(ds[j]);
            assert(padded@ =~= prefix + ds@.take(j as int + 1));
            j += 1;
        }
        assert(ds@.take(ds.len() as int) =~= ds@);
        assert(padded@ =~= if ds@.len() <= scale {
            Seq::new((scale + 1 - ds@.len()) as nat, |k: int| 0u8) + ds@
        } else {
            ds@
        });
        let split = padded.len() - scale;
        let frac_digits = padded.split_off(split);
        let int_digits = padded;
        proof {
            crate::number::lemma_of_number(s@);
            let v = DecimalView::of_number(s@);
            assert(int_digits@ =~= v.int_digits);
            assert(frac_digits@ =~= v.frac_digits);
        }
        Decimal { negative, int_digits, frac_digits }
    }

    /// The text of the numeral.
    pub fn to_text(&self) -> (r: String)
        ensures
            r@ == decimal_text(self@),
    {
        proof {
            use_type_invariant(self);
            reveal_strlit("");
            reveal_strlit("-");
            reveal_strlit(".");
        }
        let mut out = String::from_str("");
        if self.negative {
            out.append("-");
        }
        push_digits(&mut out, &self.int_digits);
        if self.frac_digits.len() > 0 {
            out.append(".");
            push_digits(&mut out, &self.frac_digits);
        }
        assert(out@ =~= decimal_text(self@));
        out
    }
}

} // verus!
