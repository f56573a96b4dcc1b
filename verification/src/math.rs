//! Fixed-point arithmetic on `u128` amounts with 256-bit intermediates.
//!
//! Every amount is scaled by a denomination `base` (for example `10^decimals`).
//! The products and quotients are computed exactly on 256 bits before the
//! final result is brought back to `u128`.

use vstd::prelude::*;
use vstd::arithmetic::power2::*;
use vstd::arithmetic::div_mod::*;
use vstd::arithmetic::mul::*;

verus! {

/// `2^64`, the weight of the upper half of a `u128`.
pub open spec fn word() -> int {
    0x1_0000_0000_0000_0000int
}

/// `2^128`, the weight of the upper half of a 256-bit number.
pub open spec fn dword() -> int {
    0x1_0000_0000_0000_0000_0000_0000_0000_0000int
}

/// The number a pair of halves stands for.
pub open spec fn wide_value(hi: u128, lo: u128) -> int {
    hi * dword() + lo
}

proof fn lemma_split_product(a: int, b: int, a0: int, a1: int, b0: int, b1: int, w: int)
    requires
        a == a1 * w + a0,
        b == b1 * w + b0,
    ensures
        a * b == (a1 * b1) * (w * w) + (a1 * b0 + a0 * b1) * w + a0 * b0,
{
    let bb = b1 * w + b0;
    lemma_mul_is_distributive_add_other_way(bb, a1 * w, a0);
    lemma_mul_is_distributive_add(a1 * w, b1 * w, b0);
    lemma_mul_is_distributive_add(a0, b1 * w, b0);
    assert((a1 * w) * (b1 * w) == (a1 * b1) * (w * w)) by (nonlinear_arith);
    assert((a1 * w) * b0 == (a1 * b0) * w) by (nonlinear_arith);
    assert(a0 * (b1 * w) == (a0 * b1) * w) by (nonlinear_arith);
    lemma_mul_is_distributive_add_other_way(w, a1 * b0, a0 * b1);
}

proof fn lemma_product_bound(x: int, y: int, bx: int, by_: int)
    by (nonlinear_arith)
    requires
        0 <= x < bx,
        0 <= y < by_,
    ensures
        x * y <= (bx - 1) * (by_ - 1),
        0 <= x * y,
{
}

/// Full product of two `u128` values as `(hi, lo)` halves.
fn wide_mul(a: u128, b: u128) -> (res: (u128, u128))
    ensures
        wide_value(res.0, res.1) == a * b,
{
    let w: u128 = 0x1_0000_0000_0000_0000;
    let a0 = a % w;
    let a1 = a / w;
    let b0 = b % w;
    let b1 = b / w;
    proof {
        lemma_product_bound(a0 as int, b0 as int, word(), word());
        lemma_product_bound(a0 as int, b1 as int, word(), word());
        lemma_product_bound(a1 as int, b0 as int, word(), word());
        lemma_product_bound(a1 as int, b1 as int, word(), word());
    }
    let p00 = a0 * b0;
    let p01 = a0 * b1;
    let p10 = a1 * b0;
    let p11 = a1 * b1;
    let t = p00 / w + p01 % w + p10 % w;
    let lo = (t % w) * w + p00 % w;
    proof {
        lemma_split_product(a as int, b as int, a0 as int, a1 as int, b0 as int, b1 as int, word());
        lemma_fundamental_div_mod(p00 as int, word());
        lemma_fundamental_div_mod(p01 as int, word());
        lemma_fundamental_div_mod(p10 as int, word());
        lemma_fundamental_div_mod(t as int, word());
        let hi_total = p11 + p01 / w + p10 / w + t / w;
        assert(a * b == hi_total * dword() + lo) by (nonlinear_arith)
            requires
                a * b == p11 * (word() * word()) + (p10 + p01) * word() + p00,
                p00 == word() * (p00 / w) + p00 % w,
                p01 == word() * (p01 / w) + p01 % w,
                p10 == word() * (p10 / w) + p10 % w,
                t == p00 / w + p01 % w + p10 % w,
                t == word() * (t / w) + t % w,
                lo == (t % w) * word() + p00 % w,
                dword() == word() * word(),
                hi_total == p11 + p01 / w + p10 / w + t / w,
        ;
        lemma_product_bound(a as int, b as int, dword(), dword());
        assert(hi_total < dword()) by (nonlinear_arith)
            requires
                a * b == hi_total * dword() + lo,
                a * b <= (dword() - 1) * (dword() - 1),
                0 <= lo,
                dword() > 0,
        ;
    }
    let hi = p11 + p01 / w + p10 / w + t / w;
    (hi, lo)
}


/// Adds a `u128` to a 256-bit number that has room for it.
fn wide_add(hi: u128, lo: u128, x: u128) -> (res: (u128, u128))
    requires
        wide_value(hi, lo) + x < dword() * dword(),
    ensures
        wide_value(res.0, res.1) == wide_value(hi, lo) + x,
{
    if lo <= u128::MAX - x {
        (hi, lo + x)
    } else {
        assert(hi < u128::MAX) by (nonlinear_arith)
            requires
                hi * dword() + lo + x < dword() * dword(),
                lo + x >= dword(),
                hi <= u128::MAX,
                u128::MAX == dword() - 1,
        ;
        (hi + 1, lo - (u128::MAX - x) - 1)
    }
}

proof fn lemma_pow2_127_128()
    ensures
        pow2(127) == 0x8000_0000_0000_0000_0000_0000_0000_0000int,
        pow2(128) == dword(),
{
    lemma2_to64();
    lemma2_to64_rest();
    lemma_pow2_adds(63, 64);
    lemma_pow2_adds(64, 64);
}

proof fn lemma_div_step(n: int, v: int, w: int, low: int, mask: int, bit: int, low2: int, v2: int)
    by (nonlinear_arith)
    requires
        n == v * w + low,
        w == 2 * mask,
        low == bit * mask + low2,
        v2 == 2 * v + bit,
    ensures
        n == v2 * mask + low2,
{
}

proof fn lemma_quot_step(q: int, d: int, rem: int, qb: int, bit: int, q2: int, rem2: int)
    by (nonlinear_arith)
    requires
        q2 == 2 * q + qb,
        rem2 == 2 * rem + bit - qb * d,
    ensures
        q2 * d + rem2 == 2 * (q * d + rem) + bit,
{
}

/// Divides the 256-bit number `hi * 2^128 + lo` by `d`, when the quotient fits
/// in a `u128` (that is, when `hi < d`). Returns the quotient and the remainder.
fn wide_div(hi: u128, lo: u128, d: u128) -> (res: (u128, u128))
    requires
        0 < d,
        hi < d,
    ensures
        res.0 * d + res.1 == wide_value(hi, lo),
        res.1 < d,
{
    let half: u128 = 0x8000_0000_0000_0000_0000_0000_0000_0000;
    let mut q: u128 = 0;
    let mut rem: u128 = hi;
    let mut low: u128 = lo;
    let mut mask: u128 = half;
    let mut i: u32 = 0;
    proof {
        lemma_pow2_127_128();
        lemma2_to64();
    }
    while i < 128
        invariant
            i <= 128,
            half == 0x8000_0000_0000_0000_0000_0000_0000_0000u128,
            0 < d,
            hi < d,
            rem < d,
            q < pow2(i as nat),
            i < 128 ==> mask == pow2((127 - i) as nat),
            low < pow2((128 - i) as nat),
            wide_value(hi, lo) == (q * d + rem) * pow2((128 - i) as nat) + low,
        decreases 128 - i,
    {
        let ghost n = wide_value(hi, lo);
        let ghost v = q * d + rem;
        proof {
            lemma_pow2_unfold((128 - i) as nat);
            lemma_pow2_unfold((i + 1) as nat);
            if i < 127 {
                lemma_pow2_strictly_increases(i as nat, 127);
            }
            lemma_pow2_127_128();
            lemma_fundamental_div_mod(low as int, mask as int);
        }
        let bit: u128 = low / mask;
        let low2: u128 = low % mask;
        assert(low == bit * mask + low2) by {
            lemma_fundamental_div_mod(low as int, mask as int);
            lemma_mul_is_commutative(mask as int, bit as int);
        }
        assert(bit < 2) by (nonlinear_arith)
            requires
                low < 2 * mask,
                mask > 0,
                low == mask * bit + low2,
                0 <= low2,
        ;
        let qb: u128;
        let rem2: u128;
        if rem >= half {
            rem2 = rem - (d - rem) + bit;
            qb = 1;
        } else {
            let t = 2 * rem + bit;
            if t >= d {
                rem2 = t - d;
                qb = 1;
            } else {
                rem2 = t;
                qb = 0;
            }
        }
        let q2 = 2 * q + qb;
        proof {
            lemma_quot_step(q as int, d as int, rem as int, qb as int, bit as int, q2 as int, rem2 as int);
            lemma_div_step(n, v, pow2((128 - i) as nat) as int, low as int, mask as int, bit as int,
                low2 as int, 2 * v + bit);
            if i < 127 {
                lemma_pow2_unfold((127 - i) as nat);
            }
        }
        q = q2;
        rem = rem2;
        low = low2;
        mask = mask / 2;
        i = i + 1;
    }
    proof {
        assert(pow2(0) == 1) by { lemma2_to64(); }
        assert(low == 0);
        assert((q * d + rem) * pow2(0) == q * d + rem);
    }
    (q, rem)
}


proof fn lemma_quotient_too_large(n: int, hi: int, lo: int, d: int)
    requires
        n == hi * dword() + lo,
        0 <= lo,
        0 < d <= hi,
    ensures
        n / d >= dword(),
{
    assert(d * dword() <= n) by (nonlinear_arith)
        requires
            n == hi * dword() + lo,
            0 <= lo,
            0 < d <= hi,
            dword() > 0,
    ;
    lemma_div_is_ordered(d * dword(), n, d);
    lemma_div_multiples_vanish(dword(), d);
}

/// Divides a 256-bit number by `d`, or returns `None` when `d` is zero or the
/// quotient does not fit in a `u128`.
fn checked_wide_quotient(hi: u128, lo: u128, d: u128) -> (res: Option<u128>)
    ensures
        res == (if d > 0 && wide_value(hi, lo) / (d as int) <= u128::MAX {
            Some((wide_value(hi, lo) / (d as int)) as u128)
        } else {
            None::<u128>
        }),
{
    if d == 0 {
        return None;
    }
    if hi >= d {
        proof {
            lemma_quotient_too_large(wide_value(hi, lo), hi as int, lo as int, d as int);
        }
        return None;
    }
    let (q, r) = wide_div(hi, lo, d);
    proof {
        lemma_fundamental_div_mod_converse(wide_value(hi, lo), d as int, q as int, r as int);
    }
    Some(q)
}

/// The value of `mul_u128(base, a, b)`: the product `a * b` divided by `base`,
/// rounded to the nearest integer (halves round up).
pub open spec fn mul_u128_value(base: u128, a: u128, b: u128) -> int {
    (a * b + base / 2) / (base as int)
}

/// `mul_u128(base, a, b)` is defined when `base` is positive and the rounded
/// quotient fits in a `u128`.
pub open spec fn mul_u128_defined(base: u128, a: u128, b: u128) -> bool {
    base > 0 && mul_u128_value(base, a, b) <= u128::MAX
}

/// The value of `div_u128(base, a, b)`: the integer quotient `a / b`, then
/// divided by `base` and rounded to the nearest integer (halves round up).
pub open spec fn div_u128_value(base: u128, a: u128, b: u128) -> int {
    (a / b + base / 2) / (base as int)
}

/// `div_u128(base, a, b)` is defined when both divisors are positive.
pub open spec fn div_u128_defined(base: u128, a: u128, b: u128) -> bool {
    base > 0 && b > 0
}

/// The value of `mul(base, a, b)`: the product `a * b` divided by `base`,
/// rounded down.
pub open spec fn mul_value(base: u128, a: u128, b: u128) -> int {
    (a * b) / (base as int)
}

/// `mul(base, a, b)` is defined when `base` is positive and the quotient fits
/// in a `u128`.
pub open spec fn mul_defined(base: u128, a: u128, b: u128) -> bool {
    base > 0 && mul_value(base, a, b) <= u128::MAX
}

/// `mul_u128`, or `None` on the inputs where it is not defined.
pub fn checked_mul_u128(base: u128, a: u128, b: u128) -> (res: Option<u128>)
    ensures
        res == (if mul_u128_defined(base, a, b) {
            Some(mul_u128_value(base, a, b) as u128)
        } else {
            None::<u128>
        }),
{
    let (hi, lo) = wide_mul(a, b);
    proof {
        lemma_product_bound(a as int, b as int, dword(), dword());
    }
    let (hi, lo) = wide_add(hi, lo, base / 2);
    checked_wide_quotient(hi, lo, base)
}

/// Multiplies two fixed-point amounts: `(a * b + base / 2) / base`, computed
/// without overflow on 256 bits.
pub fn mul_u128(base: u128, a: u128, b: u128) -> (res: u128)
    requires
        mul_u128_defined(base, a, b),
    ensures
        res == mul_u128_value(base, a, b),
{
    match checked_mul_u128(base, a, b) {
        Some(v) => v,
        None => 0,
    }
}

/// Where `div_u128` is defined, its value fits in a `u128`.
pub proof fn lemma_div_u128_fits(base: u128, a: u128, b: u128)
    requires
        div_u128_defined(base, a, b),
    ensures
        0 <= div_u128_value(base, a, b) <= u128::MAX,
{
    let x = a / b;
    lemma_div_is_ordered_by_denominator(a as int, 1, b as int);
    let y = x + base / 2;
    if base == 1 {
        assert(y / 1 == y);
    } else {
        lemma_div_is_ordered_by_denominator(y, 2, base as int);
    }
    lemma_div_pos_is_pos(y, base as int);
}

/// `div_u128`, or `None` on the inputs where it is not defined.
pub fn checked_div_u128(base: u128, a: u128, b: u128) -> (res: Option<u128>)
    ensures
        res == (if div_u128_defined(base, a, b) {
            Some(div_u128_value(base, a, b) as u128)
        } else {
            None::<u128>
        }),
        div_u128_defined(base, a, b) ==> 0 <= div_u128_value(base, a, b) <= u128::MAX,
{
    if b == 0 || base == 0 {
        return None;
    }
    let x = a / b;
    let (hi, lo) = wide_add(0, x, base / 2);
    assert(hi < base) by (nonlinear_arith)
        requires
            hi * dword() + lo == x + base / 2,
            0 <= lo,
            x < dword(),
            base >= 1,
            base < dword(),
    ;
    let (q, r) = wide_div(hi, lo, base);
    proof {
        lemma_fundamental_div_mod_converse(wide_value(hi, lo), base as int, q as int, r as int);
    }
    Some(q)
}

/// Divides fixed-point amounts: the quotient `a / b`, then divided by `base`
/// with rounding to the nearest integer: `(a / b + base / 2) / base`.
pub fn div_u128(base: u128, a: u128, b: u128) -> (res: u128)
    requires
        div_u128_defined(base, a, b),
    ensures
        res == div_u128_value(base, a, b),
{
    match checked_div_u128(base, a, b) {
        Some(v) => v,
        None => 0,
    }
}

/// `mul`, or `None` on the inputs where it is not defined.
pub fn checked_mul(base: u128, a: u128, b: u128) -> (res: Option<u128>)
    ensures
        res == (if mul_defined(base, a, b) {
            Some(mul_value(base, a, b) as u128)
        } else {
            None::<u128>
        }),
{
    let (hi, lo) = wide_mul(a, b);
    checked_wide_quotient(hi, lo, base)
}

/// Multiplies two fixed-point amounts, rounding down: `(a * b) / base`,
/// computed without overflow on 256 bits.
pub fn mul(base: u128, a: u128, b: u128) -> (res: u128)
    requires
        mul_defined(base, a, b),
    ensures
        res == mul_value(base, a, b),
{
    match checked_mul(base, a, b) {
        Some(v) => v,
        None => 0,
    }
}

/// `mul_u128` does not depend on the order of its two factors.
pub proof fn law_mul_u128_symmetric(base: u128, a: u128, b: u128)
    ensures
        mul_u128_value(base, a, b) == mul_u128_value(base, b, a),
        mul_u128_defined(base, a, b) == mul_u128_defined(base, b, a),
        mul_value(base, a, b) == mul_value(base, b, a),
{
    lemma_mul_is_commutative(a as int, b as int);
}

/// Multiplying by one whole unit (`base`) gives the amount back, both rounded
/// and rounded down.
pub proof fn law_mul_by_unit(base: u128, a: u128)
    requires
        base > 0,
    ensures
        mul_u128_defined(base, a, base),
        mul_u128_value(base, a, base) == a,
        mul_defined(base, a, base),
        mul_value(base, a, base) == a,
{
    lemma_fundamental_div_mod_converse(a * base + base / 2, base as int, a as int, (base / 2) as int);
    lemma_fundamental_div_mod_converse(a * base, base as int, a as int, 0);
}

/// The rounded product `mul_u128` is the rounded-down product `mul` or one
/// more.
pub proof fn law_rounding_within_one(base: u128, a: u128, b: u128)
    requires
        base > 0,
    ensures
        mul_value(base, a, b) <= mul_u128_value(base, a, b) <= mul_value(base, a, b) + 1,
{
    let x = a * b;
    let d = base as int;
    let q = x / d;
    let r = x % d;
    lemma_fundamental_div_mod(x, d);
    assert(0 <= x) by {
        lemma_mul_nonnegative(a as int, b as int);
    }
    lemma_mul_is_commutative(d, q);
    lemma_mul_is_distributive_add_other_way(d, q, 1);
    lemma_mod_bound(x, d);
    if r + base / 2 < d {
        lemma_fundamental_div_mod_converse(x + base / 2, d, q, r + base / 2);
    } else {
        lemma_fundamental_div_mod_converse(x + base / 2, d, q + 1, r + base / 2 - d);
    }
}

proof fn lemma_quotient_brackets(x: int, d: int)
    requires
        d > 0,
    ensures
        (x / d) * d <= x < (x / d + 1) * d,
{
    lemma_fundamental_div_mod(x, d);
    lemma_mod_bound(x, d);
    lemma_mul_is_commutative(d, x / d);
    lemma_mul_is_distributive_add_other_way(d, x / d, 1);
}

/// `mul_u128` rounds `a * b / base` to the nearest integer, halves up: its
/// value `v` is the one with `v * base <= a * b + base / 2 < (v + 1) * base`.
pub proof fn law_mul_u128_rounds_to_nearest(base: u128, a: u128, b: u128)
    requires
        base > 0,
    ensures
        mul_u128_value(base, a, b) * base <= a * b + base / 2 < (mul_u128_value(base, a, b) + 1) * base,
{
    lemma_quotient_brackets(a * b + base / 2, base as int);
}

/// `mul` rounds `a * b / base` down: its value `v` is the one with
/// `v * base <= a * b < (v + 1) * base`.
pub proof fn law_mul_rounds_down(base: u128, a: u128, b: u128)
    requires
        base > 0,
    ensures
        mul_value(base, a, b) * base <= a * b < (mul_value(base, a, b) + 1) * base,
{
    lemma_quotient_brackets(a * b, base as int);
}

/// `div_u128` first divides `a` by `b`, rounding down to `q`, then rounds
/// `q / base` to the nearest integer, halves up.
pub proof fn law_div_u128_rounds(base: u128, a: u128, b: u128)
    requires
        div_u128_defined(base, a, b),
    ensures
        (a / b) * b <= a < (a / b + 1) * b,
        div_u128_value(base, a, b) * base <= a / b + base / 2 < (div_u128_value(base, a, b) + 1) * base,
{
    lemma_quotient_brackets(a as int, b as int);
    lemma_quotient_brackets(a / b + base / 2, base as int);
}

/// Dividing nothing gives nothing, whatever the divisors.
pub proof fn law_div_u128_of_zero(base: u128, b: u128)
    requires
        div_u128_defined(base, 0, b),
    ensures
        div_u128_value(base, 0, b) == 0,
{
    lemma_fundamental_div_mod_converse(0, b as int, 0, 0);
    lemma_fundamental_div_mod_converse((base / 2) as int, base as int, 0, (base / 2) as int);
}

} // verus!
