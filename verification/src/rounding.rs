//! How far rounding to 24 bits can lead astray: no result is off by more than one part
//! in 2^24.
use vstd::arithmetic::power2::{
    lemma2_to64, lemma_pow2_adds, lemma_pow2_pos, lemma_pow2_unfold, pow2,
};
use vstd::prelude::*;

use crate::binary32::{
    carried, excess_bits, missing_bits, nearest_even, nearest_integer, product, quotient, rounded,
    Binary32, MANTISSA_END, MANTISSA_MIN,
};

verus! {

/// The number of units that are one.
pub open spec fn one() -> int {
    pow2(200) as int
}

/// A number, counted in units of 2^-200.
pub open spec fn units(f: Binary32) -> int {
    f.mantissa * pow2((f.exponent + 200) as nat)
}

/// A number is off by no more than one part in 2^24.
pub open spec fn is_near(n: int, exact: int) -> bool {
    0xff_ffff * exact <= 0x100_0000 * n <= 0x100_0001 * exact
}

/// A number of ordinary size.
pub open spec fn is_ordinary(f: Binary32) -> bool {
    f.wf() && -80 <= f.exponent <= 80
}

proof fn lemma_nearest_even(n: int, d: int)
    requires
        d > 0,
        MANTISSA_MIN * d <= n,
    ensures
        is_near(nearest_even(n, d) * d, n),
{
    vstd::arithmetic::div_mod::lemma_fundamental_div_mod(n, d);
    vstd::arithmetic::div_mod::lemma_mod_bound(n, d);
    let q = n / d;
    let r = n % d;
    let nearest = nearest_even(n, d);
    assert(2 * (nearest * d - n) <= d && 2 * (n - nearest * d) <= d) by (nonlinear_arith)
        requires
            n == d * q + r,
            0 <= r < d,
            nearest == q && 2 * r <= d || nearest == q + 1 && 2 * r >= d,
    ;
}

proof fn lemma_carried(q: int, e: int)
    requires
        MANTISSA_MIN <= q <= MANTISSA_END,
        -200 <= e < 1000,
    ensures
        carried(q, e).wf(),
        e <= carried(q, e).exponent <= e + 1,
        units(carried(q, e)) == q * pow2((e + 200) as nat),
{
    if q == MANTISSA_END {
        lemma_pow2_unfold((e + 201) as nat);
        let p = pow2((e + 200) as nat);
        assert(MANTISSA_MIN * (2 * p) == MANTISSA_END * p) by (nonlinear_arith);
    }
}

pub proof fn lemma_missing_bits(n: nat)
    requires
        0 < n < MANTISSA_END,
    ensures
        missing_bits(n) <= 23,
        MANTISSA_MIN <= n * pow2(missing_bits(n)) < MANTISSA_END,
    decreases MANTISSA_END - n,
{
    lemma2_to64();
    if n < MANTISSA_MIN {
        lemma_missing_bits(n * 2);
        let k = missing_bits(n * 2);
        lemma_pow2_unfold(k + 1);
        assert(n * 2 * pow2(k) == n * (2 * pow2(k))) by (nonlinear_arith);
        if k == 23 {
            assert(n * 2 * pow2(23) >= 2 * pow2(23)) by (nonlinear_arith)
                requires
                    n >= 1,
            ;
        }
    }
}

pub proof fn lemma_excess_bits(n: nat)
    requires
        n >= MANTISSA_MIN,
    ensures
        MANTISSA_MIN * pow2(excess_bits(n)) <= n < MANTISSA_END * pow2(excess_bits(n)),
    decreases n,
{
    lemma2_to64();
    if n >= MANTISSA_END {
        lemma_excess_bits(n / 2);
        let k = excess_bits(n / 2);
        lemma_pow2_unfold(k + 1);
        let p = pow2(k);
        assert(MANTISSA_MIN * (2 * p) <= n < MANTISSA_END * (2 * p)) by (nonlinear_arith)
            requires
                MANTISSA_MIN * p <= n / 2 < MANTISSA_END * p,
        ;
    }
}

pub proof fn lemma_excess_is_small(n: nat)
    requires
        n <= u32::MAX,
    ensures
        excess_bits(n) <= 8,
{
    reveal_with_fuel(excess_bits, 10);
}

proof fn lemma_range(n: int, d: int)
    requires
        d > 0,
        MANTISSA_MIN * d <= n <= MANTISSA_END * d,
    ensures
        MANTISSA_MIN <= nearest_even(n, d) <= MANTISSA_END,
{
    vstd::arithmetic::div_mod::lemma_fundamental_div_mod(n, d);
    vstd::arithmetic::div_mod::lemma_mod_bound(n, d);
    let q = n / d;
    let r = n % d;
    assert(MANTISSA_MIN <= q && (q < MANTISSA_END || (q == MANTISSA_END && r == 0)))
        by (nonlinear_arith)
        requires
            d > 0,
            MANTISSA_MIN * d <= n <= MANTISSA_END * d,
            n == d * q + r,
            0 <= r < d,
    ;
}

/// An integer is off by no more than one part in 2^24 once it is rounded.
pub proof fn integers_are_near(n: nat)
    requires
        0 < n <= u32::MAX,
    ensures
        rounded(n).wf(),
        -23 <= rounded(n).exponent <= 9,
        is_near(units(rounded(n)), n * one()),
{
    lemma2_to64();
    lemma_pow2_pos(200);
    if n < MANTISSA_END {
        lemma_missing_bits(n);
        let k = missing_bits(n);
        let rest = (200 - k) as nat;
        lemma_pow2_adds(k, rest);
        assert(n * pow2(k) * pow2(rest) == n * (pow2(k) * pow2(rest))) by (nonlinear_arith);
        assert(units(rounded(n)) == n * one());
        assert(n * one() >= 0) by (nonlinear_arith)
            requires
                one() > 0,
        ;
    } else {
        lemma_excess_bits(n);
        lemma_excess_is_small(n);
        let k = excess_bits(n);
        lemma_pow2_pos(k);
        let q = nearest_even(n as int, pow2(k) as int);
        lemma_nearest_even(n as int, pow2(k) as int);
        lemma_range(n as int, pow2(k) as int);
        lemma_carried(q, k as int);
        lemma_pow2_adds(k, 200);
        let p = pow2(k) as int;
        assert(q * (p * one()) == (q * p) * one()) by (nonlinear_arith);
        lemma_near_times(q * p, n as int, one());
    }
}

proof fn lemma_near_times(n: int, exact: int, factor: int)
    requires
        is_near(n, exact),
        factor >= 0,
    ensures
        is_near(n * factor, exact * factor),
{
    assert(0xff_ffff * (exact * factor) <= 0x100_0000 * (n * factor)) by (nonlinear_arith)
        requires
            0xff_ffff * exact <= 0x100_0000 * n,
            factor >= 0,
    ;
    assert(0x100_0000 * (n * factor) <= 0x100_0001 * (exact * factor)) by (nonlinear_arith)
        requires
            0x100_0000 * n <= 0x100_0001 * exact,
            factor >= 0,
    ;
}

/// A product is off by no more than one part in 2^24.
pub proof fn products_are_near(a: Binary32, b: Binary32)
    requires
        is_ordinary(a),
        is_ordinary(b),
    ensures
        product(a, b).wf(),
        a.exponent + b.exponent + 23 <= product(a, b).exponent <= a.exponent + b.exponent + 25,
        is_near(units(product(a, b)) * one(), units(a) * units(b)),
{
    let p = a.mantissa * b.mantissa;
    let e = a.exponent + b.exponent;
    assert(0x80_0000 * 0x80_0000 <= p < 0x100_0000 * 0x100_0000) by (nonlinear_arith)
        requires
            p == a.mantissa * b.mantissa,
            0x80_0000 <= a.mantissa < 0x100_0000,
            0x80_0000 <= b.mantissa < 0x100_0000,
    ;
    let k: nat = if p < 0x8000_0000_0000 {
        23
    } else {
        24
    };
    lemma2_to64();
    let d = pow2(k) as int;
    assert(d == if k == 23 { 0x80_0000int } else { 0x100_0000int });
    let q = nearest_even(p, d);
    lemma_nearest_even(p, d);
    lemma_range(p, d);
    lemma_carried(q, e + k);
    // units(product) * one == (q * d) * 2^(e + 400), and units(a) * units(b) == p * 2^(e + 400).
    let ua = pow2((a.exponent + 200) as nat) as int;
    let ub = pow2((b.exponent + 200) as nat) as int;
    let all = pow2((e + 400) as nat) as int;
    lemma_pow2_adds((a.exponent + 200) as nat, (b.exponent + 200) as nat);
    assert((a.mantissa * ua) * (b.mantissa * ub) == p * (ua * ub)) by (nonlinear_arith)
        requires
            p == a.mantissa * b.mantissa,
    ;
    let up = pow2((e + k + 200) as nat) as int;
    lemma_pow2_adds((e + k + 200) as nat, 200);
    lemma_pow2_adds(k, (e + 400) as nat);
    assert((q * up) * one() == q * (up * one())) by (nonlinear_arith);
    assert(q * (d * all) == (q * d) * all) by (nonlinear_arith);
    lemma_near_times(q * d, p, all);
}

/// A quotient is off by no more than one part in 2^24.
pub proof fn quotients_are_near(a: Binary32, b: Binary32)
    requires
        is_ordinary(a),
        is_ordinary(b),
    ensures
        quotient(a, b).wf(),
        a.exponent - b.exponent - 24 <= quotient(a, b).exponent <= a.exponent - b.exponent - 22,
        is_near(units(quotient(a, b)) * units(b), units(a) * one()),
{
    let e = a.exponent - b.exponent;
    let k: nat = if a.mantissa >= b.mantissa {
        23
    } else {
        24
    };
    lemma2_to64();
    let shift = pow2(k) as int;
    assert(shift == if k == 23 { 0x80_0000int } else { 0x100_0000int });
    let n = a.mantissa * shift;
    let d = b.mantissa as int;
    assert(MANTISSA_MIN * d <= n <= MANTISSA_END * d) by (nonlinear_arith)
        requires
            n == a.mantissa * shift,
            shift == 0x80_0000 && a.mantissa >= d || shift == 0x100_0000 && a.mantissa < d,
            0x80_0000 <= a.mantissa < 0x100_0000,
            0x80_0000 <= d < 0x100_0000,
    ;
    let q = nearest_even(n, d);
    lemma_nearest_even(n, d);
    lemma_range(n, d);
    lemma_carried(q, e - k);
    // units(quotient) * units(b) == (q * d) * 2^(a.exponent - k + 400), and
    // units(a) * one == n * 2^(a.exponent - k + 400).
    let all = pow2((a.exponent - k + 400) as nat) as int;
    let uq = pow2((e - k + 200) as nat) as int;
    let ub = pow2((b.exponent + 200) as nat) as int;
    lemma_pow2_adds((e - k + 200) as nat, (b.exponent + 200) as nat);
    assert((q * uq) * (d * ub) == (q * d) * (uq * ub)) by (nonlinear_arith);
    let ua = pow2((a.exponent + 200) as nat) as int;
    lemma_pow2_adds((a.exponent + 200) as nat, 200);
    lemma_pow2_adds(k, (a.exponent - k + 400) as nat);
    assert((a.mantissa * ua) * one() == a.mantissa * (ua * one())) by (nonlinear_arith);
    assert(a.mantissa * (shift * all) == (a.mantissa * shift) * all) by (nonlinear_arith);
    lemma_near_times(q * d, n, all);
}

/// The nearest integer is off by no more than one half.
pub proof fn integers_nearby_are_half_away(f: Binary32)
    requires
        f.wf(),
        -200 <= f.exponent,
        2 * units(f) < 2 * i32::MAX * one(),
    ensures
        (2 * nearest_integer(f) - 1) * one() <= 2 * units(f) < (2 * nearest_integer(f) + 1) * one(),
{
    lemma_pow2_pos(200);
    let m = f.mantissa as int;
    if f.exponent >= 0 {
        let p = pow2(f.exponent as nat) as int;
        lemma_pow2_adds(f.exponent as nat, 200);
        assert(m * (p * one()) == (m * p) * one()) by (nonlinear_arith);
        let whole = m * p;
        assert(whole < i32::MAX) by (nonlinear_arith)
            requires
                2 * (whole * one()) < 2 * i32::MAX * one(),
                one() > 0,
        ;
        assert((2 * whole - 1) * one() <= 2 * (whole * one()) < (2 * whole + 1) * one())
            by (nonlinear_arith)
            requires
                one() > 0,
        ;
    } else {
        let k = (-f.exponent) as nat;
        let unit = pow2(k) as int;
        let rest = pow2((200 - k) as nat) as int;
        lemma_pow2_pos(k);
        lemma_pow2_pos((200 - k) as nat);
        lemma_pow2_adds(k, (200 - k) as nat);
        assert(one() == unit * rest);
        assert(units(f) == m * rest);
        let n = 2 * m + unit;
        let d = 2 * unit;
        let whole = n / d;
        vstd::arithmetic::div_mod::lemma_fundamental_div_mod(n, d);
        vstd::arithmetic::div_mod::lemma_mod_bound(n, d);
        let r = n % d;
        assert((2 * whole - 1) * unit <= 2 * m < (2 * whole + 1) * unit) by (nonlinear_arith)
            requires
                2 * m + unit == 2 * unit * whole + r,
                0 <= r < 2 * unit,
        ;
        assert((2 * whole - 1) * (unit * rest) <= 2 * (m * rest) < (2 * whole + 1) * (unit * rest))
            by (nonlinear_arith)
            requires
                (2 * whole - 1) * unit <= 2 * m < (2 * whole + 1) * unit,
                rest > 0,
        ;
        assert(whole <= i32::MAX) by (nonlinear_arith)
            requires
                (2 * whole - 1) * one() <= 2 * units(f) < 2 * i32::MAX * one(),
                one() > 0,
        ;
    }
}

/// A quotient that is rounded down loses no more than half of its last bit.
pub proof fn quotients_lose_half_a_bit_at_most(a: Binary32, b: Binary32)
    requires
        is_ordinary(a),
        is_ordinary(b),
    ensures
        ({
            let result = quotient(a, b);
            2 * (units(a) * one()) <= units(b) * ((2 * result.mantissa + 1) * pow2(
                (result.exponent + 200) as nat,
            ))
        }),
{
    let e = a.exponent - b.exponent;
    let k: nat = if a.mantissa >= b.mantissa {
        23
    } else {
        24
    };
    lemma2_to64();
    let shift = pow2(k) as int;
    assert(shift == if k == 23 { 0x80_0000int } else { 0x100_0000int });
    let n = a.mantissa * shift;
    let d = b.mantissa as int;
    assert(MANTISSA_MIN * d <= n <= MANTISSA_END * d) by (nonlinear_arith)
        requires
            n == a.mantissa * shift,
            shift == 0x80_0000 && a.mantissa >= d || shift == 0x100_0000 && a.mantissa < d,
            0x80_0000 <= a.mantissa < 0x100_0000,
            0x80_0000 <= d < 0x100_0000,
    ;
    let q = nearest_even(n, d);
    lemma_range(n, d);
    vstd::arithmetic::div_mod::lemma_fundamental_div_mod(n, d);
    vstd::arithmetic::div_mod::lemma_mod_bound(n, d);
    assert(2 * n <= (2 * q + 1) * d) by (nonlinear_arith)
        requires
            n == d * (n / d) + n % d,
            0 <= n % d < d,
            q == n / d && 2 * (n % d) <= d || q == n / d + 1,
    ;
    // units(a) * one == n * 2^(a.exponent - k + 400).
    let all = pow2((a.exponent - k + 400) as nat) as int;
    let ua = pow2((a.exponent + 200) as nat) as int;
    lemma_pow2_adds((a.exponent + 200) as nat, 200);
    lemma_pow2_adds(k, (a.exponent - k + 400) as nat);
    assert((a.mantissa * ua) * one() == a.mantissa * (ua * one())) by (nonlinear_arith);
    assert(a.mantissa * (shift * all) == (a.mantissa * shift) * all) by (nonlinear_arith);
    assert(units(a) * one() == n * all);
    let uq = pow2((e - k + 200) as nat) as int;
    let ub = pow2((b.exponent + 200) as nat) as int;
    lemma_pow2_adds((e - k + 200) as nat, (b.exponent + 200) as nat);
    assert(uq * ub == all);
    lemma_pow2_pos((e - k + 200) as nat);
    lemma_pow2_pos((b.exponent + 200) as nat);
    assert(2 * (n * all) <= (d * ub) * ((2 * q + 1) * uq)) by (nonlinear_arith)
        requires
            2 * n <= (2 * q + 1) * d,
            uq * ub == all,
            uq > 0,
            ub > 0,
    ;
    if q == MANTISSA_END {
        let result = quotient(a, b);
        lemma_pow2_unfold((e - k + 201) as nat);
        assert((2 * q + 1) * uq <= (2 * result.mantissa + 1) * (2 * uq)) by (nonlinear_arith)
            requires
                q == 0x100_0000,
                result.mantissa == 0x80_0000,
                uq > 0,
        ;
        assert((d * ub) * ((2 * q + 1) * uq) <= (d * ub) * ((2 * result.mantissa + 1) * (2 * uq)))
            by (nonlinear_arith)
            requires
                (2 * q + 1) * uq <= (2 * result.mantissa + 1) * (2 * uq),
                d > 0,
                ub > 0,
        ;
    }
}

/// An integer of 24 bits or less is kept as it is.
pub proof fn small_integers_are_exact(n: nat)
    requires
        0 < n < MANTISSA_END,
    ensures
        units(rounded(n)) == n * one(),
{
    lemma_missing_bits(n);
    let k = missing_bits(n);
    let rest = (200 - k) as nat;
    lemma_pow2_adds(k, rest);
    assert(n * pow2(k) * pow2(rest) == n * (pow2(k) * pow2(rest))) by (nonlinear_arith);
}

} // verus!
