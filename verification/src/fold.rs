//! Exact arithmetic on small decimal numbers, for constant folding. A result
//! that cannot be had exactly is not computed at all.

use crate::decimal::{Scaled, MAX_SCALE};
use crate::number::{lemma_normalized_is_normal, lemma_tenth, pow10, Number};
use crate::token::TokenType;
use vstd::prelude::*;

verus! {

/// The sum of two decimals, in shortest form.
pub open spec fn exact_sum(a: Number, b: Number) -> Number {
    let s = if a.scale >= b.scale {
        a.scale
    } else {
        b.scale
    };
    Number {
        mantissa: a.mantissa * pow10((s - a.scale) as nat) + b.mantissa * pow10(
            (s - b.scale) as nat,
        ),
        scale: s,
    }.normalized()
}

/// The difference of two decimals, in shortest form.
pub open spec fn exact_difference(a: Number, b: Number) -> Number {
    exact_sum(a, Number { mantissa: -b.mantissa, scale: b.scale })
}

/// The product of two decimals, in shortest form.
pub open spec fn exact_product(a: Number, b: Number) -> Number {
    Number { mantissa: a.mantissa * b.mantissa, scale: a.scale + b.scale }.normalized()
}

/// `q` is `a` divided by `b`: `q * b` and `a` are the same number.
pub open spec fn is_quotient(q: Number, a: Number, b: Number) -> bool {
    q.mantissa * b.mantissa * pow10(a.scale) == a.mantissa * pow10(q.scale + b.scale)
}

/// `q` is `a` divided by `b`, small and in shortest form.
pub open spec fn is_small_quotient(q: Number, a: Number, b: Number) -> bool {
    q.is_small() && q.is_normal() && is_quotient(q, a, b)
}

/// `a` divided by `b`, where `b` is not zero and the quotient is a small
/// decimal; nothing where `b` is zero, where the quotient has no end (as
/// that of 1 by 3), or where it is not small.
pub open spec fn exact_quotient(a: Number, b: Number) -> Option<Number> {
    if b.mantissa != 0 && exists|q: Number| is_small_quotient(q, a, b) {
        Some(choose|q: Number| is_small_quotient(q, a, b))
    } else {
        None
    }
}

/// `n` if it is small enough to fold, else nothing.
pub open spec fn keep_small(n: Number) -> Option<Number> {
    if n.is_small() {
        Some(n)
    } else {
        None
    }
}

/// Ten to the power `k`, for the powers that alignment needs.
fn power_of_ten(k: u8) -> (r: u128)
    requires
        k <= MAX_SCALE,
    ensures
        r == pow10(k as nat),
        1 <= r <= 1_000_000_000_000_000_000,
{
    proof {
        lemma_pow10_max();
        assert(1 * pow10(MAX_SCALE as nat) == pow10(MAX_SCALE as nat)) by (nonlinear_arith);
    }
    let mut r: u128 = 1;
    let mut i: u8 = 0;
    while i < k
        invariant
            i <= k <= MAX_SCALE,
            r == pow10(i as nat),
            r * pow10((MAX_SCALE - i) as nat) == pow10(MAX_SCALE as nat),
            pow10(MAX_SCALE as nat) == 1_000_000_000_000_000_000,
            1 <= r <= 1_000_000_000_000_000_000,
        decreases k - i,
    {
        proof {
            let rest = pow10((MAX_SCALE - i - 1) as nat);
            crate::number::lemma_pow10_positive((MAX_SCALE - i - 1) as nat);
            assert(pow10((MAX_SCALE - i) as nat) == 10 * rest);
            assert(r * (10 * rest) == (r * 10) * rest) by (nonlinear_arith);
            assert((r * 10) * rest >= r * 10) by (nonlinear_arith)
                requires
                    rest >= 1,
                    r >= 1,
            ;
        }
        r = r * 10;
        i += 1;
    }
    r
}

proof fn lemma_pow10_max()
    ensures
        pow10(MAX_SCALE as nat) == 1_000_000_000_000_000_000,
{
    reveal_with_fuel(pow10, 20);
}

/// The result of folding two numbers with an operator: the exact result
/// where both operands and the result are small, else nothing.
pub open spec fn folded(a: Number, op: TokenType, b: Number) -> Option<Number> {
    if !a.is_small() || !b.is_small() {
        None
    } else {
        match op {
            TokenType::Add => keep_small(exact_sum(a, b)),
            TokenType::Sub => keep_small(exact_difference(a, b)),
            TokenType::Mul => keep_small(exact_product(a, b)),
            TokenType::Div => exact_quotient(a, b),
            _ => None,
        }
    }
}

/// The shortest form of `mantissa / 10^scale`, if it is small.
fn shortest(mantissa: i128, scale: u8) -> (r: Option<Scaled>)
    requires
        mantissa > i128::MIN,
    ensures
        r is Some <==> (Number { mantissa: mantissa as int, scale: scale as nat }).normalized().is_small(),
        r matches Some(s) ==> s@ == (Number {
            mantissa: mantissa as int,
            scale: scale as nat,
        }).normalized(),
{
    let negative = mantissa < 0;
    let mut magnitude: u128 = if negative {
        (-mantissa) as u128
    } else {
        mantissa as u128
    };
    let mut scale: u8 = scale;
    let ghost target = (Number { mantissa: mantissa as int, scale: scale as nat }).normalized();
    while scale > 0 && magnitude % 10 == 0
        invariant
            (Number {
                mantissa: if negative {
                    -(magnitude as int)
                } else {
                    magnitude as int
                },
                scale: scale as nat,
            }).normalized() == target,
        decreases scale,
    {
        proof {
            lemma_tenth(negative, magnitude as nat);
        }
        magnitude = magnitude / 10;
        scale = scale - 1;
    }
    proof {
        if scale > 0 {
            let m = if negative {
                -(magnitude as int)
            } else {
                magnitude as int
            };
            assert(m % 10 != 0) by {
                if m % 10 == 0 {
                    assert(magnitude as int % 10 == 0) by (nonlinear_arith)
                        requires
                            m % 10 == 0,
                            m == magnitude as int || m == -(magnitude as int),
                    ;
                }
            }
        }
    }
    if scale as usize > MAX_SCALE {
        return None;
    }
    if negative {
        if magnitude > 9_223_372_036_854_775_808 {
            None
        } else if magnitude == 9_223_372_036_854_775_808 {
            Some(Scaled { mantissa: i64::MIN, scale })
        } else {
            Some(Scaled { mantissa: -(magnitude as i64), scale })
        }
    } else {
        if magnitude > 9_223_372_036_854_775_807 {
            None
        } else {
            Some(Scaled { mantissa: magnitude as i64, scale })
        }
    }
}

/// The magnitude of an integer.
pub open spec fn magnitude(x: int) -> nat {
    if x < 0 {
        (-x) as nat
    } else {
        x as nat
    }
}

/// The shortest form of a number is the same number.
pub proof fn lemma_normalized_same_value(n: Number)
    ensures
        n.normalized().same_value(n),
    decreases n.scale,
{
    if n.scale > 0 && n.mantissa % 10 == 0 {
        let n1 = Number { mantissa: n.mantissa / 10, scale: (n.scale - 1) as nat };
        lemma_normalized_same_value(n1);
        let r = n1.normalized();
        let p1 = pow10(n1.scale) as int;
        let pr = pow10(r.scale) as int;
        assert(pow10(n.scale) == 10 * p1);
        assert(n.mantissa == 10 * n1.mantissa);
        assert(r.mantissa * (10 * p1) == (10 * n1.mantissa) * pr) by (nonlinear_arith)
            requires
                r.mantissa * p1 == n1.mantissa * pr,
        ;
    }
}

/// Two numbers in shortest form that are the same number are equal.
pub proof fn lemma_normal_unique(x: Number, y: Number)
    requires
        x.is_normal(),
        y.is_normal(),
        x.same_value(y),
    ensures
        x == y,
{
    if x.scale <= y.scale {
        lemma_normal_unique_ordered(x, y);
    } else {
        lemma_normal_unique_ordered(y, x);
    }
}

proof fn lemma_normal_unique_ordered(x: Number, y: Number)
    requires
        x.is_normal(),
        y.is_normal(),
        x.same_value(y),
        x.scale <= y.scale,
    ensures
        x == y,
{
    let d = (y.scale - x.scale) as nat;
    crate::number::lemma_pow10_adds(x.scale, d);
    crate::number::lemma_pow10_positive(x.scale);
    crate::number::lemma_pow10_positive(d);
    let px = pow10(x.scale) as int;
    let t = pow10(d) as int;
    assert(pow10(y.scale) == px * t);
    assert(x.mantissa * t == y.mantissa) by (nonlinear_arith)
        requires
            x.mantissa * (px * t) == y.mantissa * px,
            px > 0,
    ;
    if d > 0 {
        let t1 = pow10((d - 1) as nat) as int;
        assert(t == 10 * t1);
        assert(y.mantissa == 10 * (x.mantissa * t1)) by (nonlinear_arith)
            requires
                x.mantissa * (10 * t1) == y.mantissa,
        ;
        assert(y.mantissa % 10 == 0);
    } else {
        assert(x.mantissa * 1 == x.mantissa) by (nonlinear_arith);
    }
}

/// What is the same number as a quotient is a quotient.
pub proof fn lemma_quotient_same_value(x: Number, y: Number, a: Number, b: Number)
    requires
        is_quotient(x, a, b),
        y.same_value(x),
    ensures
        is_quotient(y, a, b),
{
    crate::number::lemma_pow10_adds(x.scale, b.scale);
    crate::number::lemma_pow10_adds(y.scale, b.scale);
    crate::number::lemma_pow10_positive(x.scale);
    let px = pow10(x.scale) as int;
    let py = pow10(y.scale) as int;
    let pb = pow10(b.scale) as int;
    let w = b.mantissa * pow10(a.scale);
    let v = a.mantissa * pb;
    assert(x.mantissa * w == v * px) by (nonlinear_arith)
        requires
            x.mantissa * b.mantissa * pow10(a.scale) == a.mantissa * (px * pb),
            w == b.mantissa * pow10(a.scale),
            v == a.mantissa * pb,
    ;
    assert((y.mantissa * w) * px == (v * py) * px) by (nonlinear_arith)
        requires
            x.mantissa * w == v * px,
            y.mantissa * px == x.mantissa * py,
    ;
    assert(y.mantissa * w == v * py) by (nonlinear_arith)
        requires
            (y.mantissa * w) * px == (v * py) * px,
            px > 0,
    ;
    assert(y.mantissa * b.mantissa * pow10(a.scale) == a.mantissa * (py * pb)) by (nonlinear_arith)
        requires
            y.mantissa * w == v * py,
            w == b.mantissa * pow10(a.scale),
            v == a.mantissa * pb,
    ;
}

/// Two quotients of the same division are the same number.
pub proof fn lemma_quotient_unique(x: Number, y: Number, a: Number, b: Number)
    requires
        is_quotient(x, a, b),
        is_quotient(y, a, b),
        b.mantissa != 0,
    ensures
        x.same_value(y),
{
    crate::number::lemma_pow10_adds(x.scale, b.scale);
    crate::number::lemma_pow10_adds(y.scale, b.scale);
    crate::number::lemma_pow10_positive(a.scale);
    let px = pow10(x.scale) as int;
    let py = pow10(y.scale) as int;
    let pb = pow10(b.scale) as int;
    let pa = pow10(a.scale) as int;
    let w = b.mantissa * pa;
    let v = a.mantissa * pb;
    assert(w != 0) by (nonlinear_arith)
        requires
            w == b.mantissa * pa,
            b.mantissa != 0,
            pa > 0,
    ;
    assert(x.mantissa * w == v * px) by (nonlinear_arith)
        requires
            x.mantissa * b.mantissa * pa == a.mantissa * (px * pb),
            w == b.mantissa * pa,
            v == a.mantissa * pb,
    ;
    assert(y.mantissa * w == v * py) by (nonlinear_arith)
        requires
            y.mantissa * b.mantissa * pa == a.mantissa * (py * pb),
            w == b.mantissa * pa,
            v == a.mantissa * pb,
    ;
    assert((x.mantissa * py - y.mantissa * px) * w == 0) by (nonlinear_arith)
        requires
            x.mantissa * w == v * px,
            y.mantissa * w == v * py,
    ;
    assert(x.mantissa * py - y.mantissa * px == 0) by (nonlinear_arith)
        requires
            (x.mantissa * py - y.mantissa * px) * w == 0,
            w != 0,
    ;
}

/// The quotient of a division is the shortest form of any number that is
/// a quotient of it, if that is small, and does not exist if it is not.
pub proof fn lemma_exact_quotient_is(a: Number, b: Number, raw: Number)
    requires
        b.mantissa != 0,
        is_quotient(raw, a, b),
    ensures
        exact_quotient(a, b) == keep_small(raw.normalized()),
{
    let n = raw.normalized();
    lemma_normalized_same_value(raw);
    lemma_normalized_is_normal(raw);
    lemma_quotient_same_value(raw, n, a, b);
    assert forall|q: Number| is_small_quotient(q, a, b) implies q == n by {
        lemma_quotient_unique(q, n, a, b);
        lemma_normal_unique(q, n);
    }
    if n.is_small() {
        assert(is_small_quotient(n, a, b));
    }
}

/// The magnitudes of a quotient, a dividend and a divisor.
proof fn lemma_quotient_magnitudes(q: Number, a: Number, b: Number)
    requires
        is_quotient(q, a, b),
    ensures
        magnitude(q.mantissa) * (magnitude(b.mantissa) * pow10(a.scale)) == (magnitude(a.mantissa)
            * pow10(b.scale)) * pow10(q.scale),
{
    crate::number::lemma_pow10_adds(q.scale, b.scale);
    crate::number::lemma_pow10_positive(a.scale);
    crate::number::lemma_pow10_positive(b.scale);
    crate::number::lemma_pow10_positive(q.scale);
    let x = q.mantissa;
    let y = b.mantissa;
    let z = a.mantissa;
    let pa = pow10(a.scale) as int;
    let pb = pow10(b.scale) as int;
    let ps = pow10(q.scale) as int;
    let mx = magnitude(x) as int;
    let my = magnitude(y) as int;
    let mz = magnitude(z) as int;
    assert(x * y * pa == z * (ps * pb));
    assert((mx * my) * pa == mz * (ps * pb)) by {
        let l = x * y;
        let p = ps * pb;
        assert(p > 0) by (nonlinear_arith)
            requires
                p == ps * pb,
                ps > 0,
                pb > 0,
        ;
        assert(l * pa == z * p);
        assert(mx * my == l || mx * my == -l) by (nonlinear_arith)
            requires
                l == x * y,
                mx == x || mx == -x,
                my == y || my == -y,
        ;
        assert(mx * my >= 0) by (nonlinear_arith)
            requires
                mx >= 0,
                my >= 0,
        ;
        if l >= 0 {
            assert(mx * my == l) by (nonlinear_arith)
                requires
                    mx * my == l || mx * my == -l,
                    mx * my >= 0,
                    l >= 0,
            ;
            assert(z >= 0) by (nonlinear_arith)
                requires
                    l * pa == z * p,
                    l >= 0,
                    pa > 0,
                    p > 0,
            ;
        } else {
            assert(mx * my == -l);
            assert(z < 0) by (nonlinear_arith)
                requires
                    l * pa == z * p,
                    l < 0,
                    pa > 0,
                    p > 0,
            ;
            assert((-l) * pa == (-z) * p) by (nonlinear_arith)
                requires
                    l * pa == z * p,
            ;
        }
    }
    assert(mx * (my * pa) == (mz * pb) * ps) by (nonlinear_arith)
        requires
            (mx * my) * pa == mz * (ps * pb),
    ;
}

/// The quotient that long division finds is a quotient.
proof fn lemma_signed_quotient(a: Number, b: Number, q: nat, k: nat)
    requires
        b.mantissa != 0,
        q * (magnitude(b.mantissa) * pow10(a.scale)) == (magnitude(a.mantissa) * pow10(b.scale))
            * pow10(k),
    ensures
        is_quotient(
            Number {
                mantissa: if (a.mantissa < 0) != (b.mantissa < 0) {
                    -(q as int)
                } else {
                    q as int
                },
                scale: k,
            },
            a,
            b,
        ),
{
    crate::number::lemma_pow10_adds(k, b.scale);
    let x = a.mantissa;
    let y = b.mantissa;
    let pa = pow10(a.scale) as int;
    let pb = pow10(b.scale) as int;
    let pk = pow10(k) as int;
    let mx = magnitude(x) as int;
    let my = magnitude(y) as int;
    let qi = q as int;
    assert(qi * (my * pa) == (mx * pb) * pk);
    if x < 0 {
        if y < 0 {
            assert(qi * y * pa == x * (pk * pb)) by (nonlinear_arith)
                requires
                    qi * (my * pa) == (mx * pb) * pk,
                    mx == -x,
                    my == -y,
            ;
        } else {
            assert((-qi) * y * pa == x * (pk * pb)) by (nonlinear_arith)
                requires
                    qi * (my * pa) == (mx * pb) * pk,
                    mx == -x,
                    my == y,
            ;
        }
    } else {
        if y < 0 {
            assert((-qi) * y * pa == x * (pk * pb)) by (nonlinear_arith)
                requires
                    qi * (my * pa) == (mx * pb) * pk,
                    mx == x,
                    my == -y,
            ;
        } else {
            assert(qi * y * pa == x * (pk * pb)) by (nonlinear_arith)
                requires
                    qi * (my * pa) == (mx * pb) * pk,
                    mx == x,
                    my == y,
            ;
        }
    }
}

/// Where long division has not come to an end after `k` digits, and either
/// no more digits are allowed or the quotient is too large already, the
/// division has no small quotient.
proof fn lemma_no_small_quotient(a: Number, b: Number, n: nat, d: nat, q: nat, r: nat, k: nat)
    requires
        n == magnitude(a.mantissa) * pow10(b.scale),
        d == magnitude(b.mantissa) * pow10(a.scale),
        n * pow10(k) == q * d + r,
        0 < r < d,
        forall|j: nat| j < k ==> #[trigger] ((n * pow10(j)) as int % d as int) != 0,
        k == MAX_SCALE || q > 0x8000_0000_0000_0000,
        k <= MAX_SCALE,
    ensures
        forall|x: Number| !is_small_quotient(x, a, b),
{
    assert forall|x: Number| !is_small_quotient(x, a, b) by {
        if is_small_quotient(x, a, b) {
            lemma_quotient_magnitudes(x, a, b);
            let m = magnitude(x.mantissa) as int;
            let s = x.scale;
            assert(m * d == n * pow10(s));
            if s < k {
                vstd::arithmetic::div_mod::lemma_mod_multiples_basic(m, d as int);
                assert(((n * pow10(s)) as int % d as int) != 0);
            } else {
                let e = (s - k) as nat;
                crate::number::lemma_pow10_adds(k, e);
                crate::number::lemma_pow10_positive(e);
                let t = pow10(e) as int;
                let pk = pow10(k) as int;
                assert(pow10(s) == pk * t);
                assert(m * d == (q * d + r) * t) by (nonlinear_arith)
                    requires
                        m * d == n * (pk * t),
                        n * pk == q * d + r,
                ;
                if q > 0x8000_0000_0000_0000 {
                    assert(m >= q) by (nonlinear_arith)
                        requires
                            m * d == (q * d + r) * t,
                            t >= 1,
                            r > 0,
                            d > 0,
                            q >= 0,
                            m >= 0,
                    ;
                } else {
                    assert(e == 0);
                    assert(t == 1);
                    assert(false) by (nonlinear_arith)
                        requires
                            m * d == (q * d + r) * 1,
                            0 < r < d,
                    ;
                }
            }
        }
    }
}

/// `a / b`, in shortest form, if it is a small decimal.
fn quotient(a: Scaled, b: Scaled) -> (r: Option<Scaled>)
    requires
        a.scale <= MAX_SCALE,
        b.scale <= MAX_SCALE,
    ensures
        r is Some <==> exact_quotient(a@, b@) is Some,
        r matches Some(s) ==> Some(s@) == exact_quotient(a@, b@),
{
    if b.mantissa == 0 {
        return None;
    }
    let negative = (a.mantissa < 0) != (b.mantissa < 0);
    let am: u128 = if a.mantissa < 0 {
        (-(a.mantissa as i128)) as u128
    } else {
        a.mantissa as u128
    };
    let bm: u128 = if b.mantissa < 0 {
        (-(b.mantissa as i128)) as u128
    } else {
        b.mantissa as u128
    };
    let pb: u128 = power_of_ten(b.scale);
    let pa: u128 = power_of_ten(a.scale);
    assert(am * pb <= 10_000_000_000_000_000_000_000_000_000_000_000_000) by (nonlinear_arith)
        requires
            am <= 0x8000_0000_0000_0000,
            pb <= 1_000_000_000_000_000_000,
    ;
    assert(1 <= bm * pa <= 10_000_000_000_000_000_000_000_000_000_000_000_000) by (nonlinear_arith)
        requires
            1 <= bm <= 0x8000_0000_0000_0000,
            1 <= pa <= 1_000_000_000_000_000_000,
    ;
    let n: u128 = am * pb;
    let d: u128 = bm * pa;
    let mut q: u128 = n / d;
    let mut r: u128 = n % d;
    let mut k: u8 = 0;
    proof {
        vstd::arithmetic::div_mod::lemma_fundamental_div_mod(n as int, d as int);
        assert(n * 1 == n) by (nonlinear_arith);
        assert((d as int) * (n as int / d as int) == (n as int / d as int) * (d as int))
            by (nonlinear_arith);
        assert(q <= n) by (nonlinear_arith)
            requires
                n == q * d + r,
                d >= 1,
                q >= 0,
                r >= 0,
        ;
    }
    while r != 0 && (k as usize) < MAX_SCALE && q <= 0x8000_0000_0000_0000
        invariant
            n == magnitude(a@.mantissa) * pow10(b@.scale),
            d == magnitude(b@.mantissa) * pow10(a@.scale),
            1 <= d <= 10_000_000_000_000_000_000_000_000_000_000_000_000,
            n * pow10(k as nat) == q * d + r,
            r < d,
            k <= MAX_SCALE,
            q <= 10_000_000_000_000_000_000_000_000_000_000_000_000,
            forall|j: nat| j < k ==> #[trigger] ((n * pow10(j)) as int % d as int) != 0,
        decreases MAX_SCALE - k,
    {
        let r10: u128 = r * 10;
        let digit: u128 = r10 / d;
        let next: u128 = r10 % d;
        proof {
            vstd::arithmetic::div_mod::lemma_fundamental_div_mod_converse(
                (n * pow10(k as nat)) as int,
                d as int,
                q as int,
                r as int,
            );
            vstd::arithmetic::div_mod::lemma_fundamental_div_mod(r10 as int, d as int);
            assert(digit <= 9) by (nonlinear_arith)
                requires
                    r10 == d * digit + next,
                    r10 < d * 10,
                    next >= 0,
                    d >= 1,
                    digit >= 0,
            ;
            assert(pow10((k + 1) as nat) == 10 * pow10(k as nat));
            assert(n * (10 * pow10(k as nat)) == (q * 10 + digit) * d + next) by (nonlinear_arith)
                requires
                    n * pow10(k as nat) == q * d + r,
                    r * 10 == d * digit + next,
            ;
        }
        q = q * 10 + digit;
        r = next;
        k = k + 1;
    }
    if r != 0 {
        proof {
            lemma_no_small_quotient(a@, b@, n as nat, d as nat, q as nat, r as nat, k as nat);
        }
        return None;
    }
    let signed: i128 = if negative {
        -(q as i128)
    } else {
        q as i128
    };
    proof {
        assert(q * d == n * pow10(k as nat));
        lemma_signed_quotient(a@, b@, q as nat, k as nat);
        lemma_exact_quotient_is(a@, b@, Number { mantissa: signed as int, scale: k as nat });
    }
    shortest(signed, k)
}

/// Folds `a op b` exactly, where that can be done within the limits of
/// small numbers.
pub fn fold(a: Scaled, op: TokenType, b: Scaled) -> (r: Option<Scaled>)
    ensures
        r is Some <==> folded(a@, op, b@) is Some,
        r matches Some(s) ==> Some(s@) == folded(a@, op, b@) && s@.is_normal(),
{
    proof {
        lemma_folded_is_normal(a@, op, b@);
    }
    if a.scale as usize > MAX_SCALE || b.scale as usize > MAX_SCALE {
        return None;
    }
    match op {
        TokenType::Add => aligned_sum(a, b.mantissa as i128, b.scale),
        TokenType::Sub => aligned_sum(a, -(b.mantissa as i128), b.scale),
        TokenType::Div => quotient(a, b),
        TokenType::Mul => {
            let x: i128 = a.mantissa as i128;
            let y: i128 = b.mantissa as i128;
            assert(-0x4000_0000_0000_0000_0000_0000_0000_0000 <= x * y
                <= 0x4000_0000_0000_0000_0000_0000_0000_0000) by (nonlinear_arith)
                requires
                    -0x8000_0000_0000_0000 <= x <= 0x8000_0000_0000_0000,
                    -0x8000_0000_0000_0000 <= y <= 0x8000_0000_0000_0000,
            ;
            shortest(x * y, a.scale + b.scale)
        },
        _ => None,
    }
}

/// `a + m / 10^scale`, in shortest form, if it is small.
fn aligned_sum(a: Scaled, m: i128, scale: u8) -> (r: Option<Scaled>)
    requires
        a.scale <= MAX_SCALE,
        scale <= MAX_SCALE,
        -0x8000_0000_0000_0000 <= m <= 0x8000_0000_0000_0000,
    ensures
        r is Some <==> exact_sum(a@, Number { mantissa: m as int, scale: scale as nat }).is_small(),
        r matches Some(s) ==> s@ == exact_sum(
            a@,
            Number { mantissa: m as int, scale: scale as nat },
        ),
{
    let s = if a.scale >= scale {
        a.scale
    } else {
        scale
    };
    let pa: i128 = power_of_ten(s - a.scale) as i128;
    let pb: i128 = power_of_ten(s - scale) as i128;
    let x: i128 = a.mantissa as i128;
    assert(-10_000_000_000_000_000_000_000_000_000_000_000_000 <= x * pa
        <= 10_000_000_000_000_000_000_000_000_000_000_000_000) by (nonlinear_arith)
        requires
            -0x8000_0000_0000_0000 <= x <= 0x8000_0000_0000_0000,
            1 <= pa <= 1_000_000_000_000_000_000,
    ;
    assert(-10_000_000_000_000_000_000_000_000_000_000_000_000 <= m * pb
        <= 10_000_000_000_000_000_000_000_000_000_000_000_000) by (nonlinear_arith)
        requires
            -0x8000_0000_0000_0000 <= m <= 0x8000_0000_0000_0000,
            1 <= pb <= 1_000_000_000_000_000_000,
    ;
    shortest(x * pa + m * pb, s)
}

/// The whole number `x`.
pub open spec fn whole(x: int) -> Number {
    Number { mantissa: x, scale: 0 }
}

/// Whole numbers fold as integers do: to their sum, their difference and
/// their product, and to their quotient where the division leaves no
/// remainder; each only where the result fits 64 bits.
pub proof fn lemma_whole_numbers_fold_as_integers(a: int, b: int)
    requires
        i64::MIN <= a <= i64::MAX,
        i64::MIN <= b <= i64::MAX,
    ensures
        folded(whole(a), TokenType::Add, whole(b)) == keep_small(whole(a + b)),
        folded(whole(a), TokenType::Sub, whole(b)) == keep_small(whole(a - b)),
        folded(whole(a), TokenType::Mul, whole(b)) == keep_small(whole(a * b)),
        b != 0 && a % b == 0 ==> folded(whole(a), TokenType::Div, whole(b)) == keep_small(
            whole(a / b),
        ),
        b == 0 ==> folded(whole(a), TokenType::Div, whole(b)) is None,
{
    assert(pow10(0) == 1);
    assert(a * 1 + b * 1 == a + b);
    assert(a * 1 + (-b) * 1 == a - b);
    if b != 0 && a % b == 0 {
        let q = a / b;
        vstd::arithmetic::div_mod::lemma_fundamental_div_mod(a, b);
        assert(q * b == a) by (nonlinear_arith)
            requires
                a == b * q + 0,
        ;
        assert(q * b * 1 == a * 1) by (nonlinear_arith)
            requires
                q * b == a,
        ;
        lemma_exact_quotient_is(whole(a), whole(b), whole(q));
    }
}

/// What folding gives is in shortest form.
pub proof fn lemma_folded_is_normal(a: Number, op: TokenType, b: Number)
    ensures
        folded(a, op, b) matches Some(n) ==> n.is_normal() && n.is_small(),
{
    if folded(a, op, b) is Some && op == TokenType::Div {
        let q = choose|q: Number| is_small_quotient(q, a, b);
        assert(is_small_quotient(q, a, b));
    } else if folded(a, op, b) is Some {
        let s = if a.scale >= b.scale {
            a.scale
        } else {
            b.scale
        };
        lemma_normalized_is_normal(
            Number {
                mantissa: a.mantissa * pow10((s - a.scale) as nat) + b.mantissa * pow10(
                    (s - b.scale) as nat,
                ),
                scale: s,
            },
        );
        lemma_normalized_is_normal(
            Number {
                mantissa: a.mantissa * pow10((s - a.scale) as nat) + (-b.mantissa) * pow10(
                    (s - b.scale) as nat,
                ),
                scale: s,
            },
        );
        lemma_normalized_is_normal(
            Number { mantissa: a.mantissa * b.mantissa, scale: a.scale + b.scale },
        );
    }
}

} // verus!
