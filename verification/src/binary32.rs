//! Arithmetic on positive numbers of 24 significant bits, rounded to the nearest,
//! ties to even: what single precision does to positive numbers of ordinary size.
use vstd::arithmetic::power2::pow2;
use vstd::prelude::*;

verus! {

/// The number `mantissa * 2^exponent`, with a mantissa of exactly 24 bits.
#[derive(Clone, Copy, Debug, PartialEq, Eq, Structural)]
pub struct Binary32 {
    pub mantissa: u32,
    pub exponent: i32,
}

/// 2^23 and 2^24: the range of a mantissa.
pub const MANTISSA_MIN: u32 = 0x80_0000;

pub const MANTISSA_END: u32 = 0x100_0000;

impl Binary32 {
    pub open spec fn wf(self) -> bool {
        MANTISSA_MIN <= self.mantissa < MANTISSA_END
    }
}

/// The integer nearest to `n / d`; of two equally near, the even one.
pub open spec fn nearest_even(n: int, d: int) -> int {
    let q = n / d;
    let r = n % d;
    if 2 * r < d {
        q
    } else if 2 * r > d {
        q + 1
    } else {
        q + q % 2
    }
}

/// The number `q * 2^e`, where `q` has 24 bits or is 2^24.
pub open spec fn carried(q: int, e: int) -> Binary32 {
    if q == MANTISSA_END {
        Binary32 { mantissa: MANTISSA_MIN, exponent: (e + 1) as i32 }
    } else {
        Binary32 { mantissa: q as u32, exponent: e as i32 }
    }
}

/// The product of two numbers, rounded.
pub open spec fn product(a: Binary32, b: Binary32) -> Binary32 {
    let p = a.mantissa * b.mantissa;
    let e = a.exponent + b.exponent;
    // The product of two 24-bit numbers has 47 or 48 bits.
    if p < 0x8000_0000_0000 {
        carried(nearest_even(p, 0x80_0000), e + 23)
    } else {
        carried(nearest_even(p, 0x100_0000), e + 24)
    }
}

/// The quotient of two numbers, rounded.
pub open spec fn quotient(a: Binary32, b: Binary32) -> Binary32 {
    let e = a.exponent - b.exponent;
    // Scaled so that the quotient of the mantissas has 24 bits before the point.
    if a.mantissa >= b.mantissa {
        carried(nearest_even(a.mantissa * 0x80_0000, b.mantissa as int), e - 23)
    } else {
        carried(nearest_even(a.mantissa * 0x100_0000, b.mantissa as int), e - 24)
    }
}

/// How many bits of an integer there are beyond 24.
pub open spec fn excess_bits(n: nat) -> nat
    decreases n,
{
    if n < MANTISSA_END {
        0
    } else {
        1 + excess_bits(n / 2)
    }
}

/// How many bits a positive integer lacks to have 24.
pub open spec fn missing_bits(n: nat) -> nat
    decreases MANTISSA_END - n,
{
    if n == 0 || n >= MANTISSA_MIN {
        0
    } else {
        1 + missing_bits(n * 2)
    }
}

/// A positive integer, rounded.
pub open spec fn rounded(n: nat) -> Binary32 {
    if n < MANTISSA_END {
        Binary32 {
            mantissa: (n * pow2(missing_bits(n))) as u32,
            exponent: -(missing_bits(n) as int) as i32,
        }
    } else {
        carried(nearest_even(n as int, pow2(excess_bits(n)) as int), excess_bits(n) as int)
    }
}

/// The nearest 32-bit integer, halves up; the greatest one for what is greater.
pub open spec fn nearest_integer(f: Binary32) -> int {
    let whole = if f.exponent >= 0 {
        f.mantissa * pow2(f.exponent as nat) as int
    } else {
        let unit = pow2((-f.exponent) as nat) as int;
        (2 * f.mantissa + unit) / (2 * unit)
    };
    if whole > i32::MAX {
        i32::MAX as int
    } else {
        whole
    }
}

fn round_even(n: u64, d: u64) -> (q: u64)
    requires
        0 < d <= 0x100_0000,
        n <= 0xffff_ffff_ffff,
    ensures
        q == nearest_even(n as int, d as int),
{
    let q: u64 = n / d;
    let r: u64 = n % d;
    proof {
        vstd::arithmetic::div_mod::lemma_div_is_ordered_by_denominator(n as int, 1, d as int);
        vstd::arithmetic::div_mod::lemma_mod_bound(n as int, d as int);
    }
    if 2 * r < d {
        q
    } else if 2 * r > d {
        q + 1
    } else {
        q + q % 2
    }
}

fn carry(q: u64, e: i32) -> (f: Binary32)
    requires
        MANTISSA_MIN <= q <= MANTISSA_END,
        e < i32::MAX,
    ensures
        f.wf(),
        f == carried(q as int, e as int),
{
    if q == MANTISSA_END as u64 {
        Binary32 { mantissa: MANTISSA_MIN, exponent: e + 1 }
    } else {
        Binary32 { mantissa: q as u32, exponent: e }
    }
}

proof fn lemma_nearest_even_range(n: int, d: int, low: int, high: int)
    requires
        d > 0,
        low * d <= n < high * d,
    ensures
        low <= nearest_even(n, d) <= high,
{
    vstd::arithmetic::div_mod::lemma_fundamental_div_mod(n, d);
    vstd::arithmetic::div_mod::lemma_mod_bound(n, d);
    let q = n / d;
    assert(low <= q < high) by (nonlinear_arith)
        requires
            d > 0,
            low * d <= n < high * d,
            n == d * q + n % d,
            0 <= n % d < d,
    ;
}

impl Binary32 {
    /// The product, rounded.
    pub fn times(self, other: Binary32) -> (result: Binary32)
        requires
            self.wf(),
            other.wf(),
            -1000 <= self.exponent <= 1000,
            -1000 <= other.exponent <= 1000,
        ensures
            result.wf(),
            result == product(self, other),
            self.exponent + other.exponent + 23 <= result.exponent <= self.exponent
                + other.exponent + 25,
    {
        let ghost a = self.mantissa as int;
        let ghost b = other.mantissa as int;
        assert(0x80_0000 * 0x80_0000 <= a * b <= 0xff_ffff * 0xff_ffff) by (nonlinear_arith)
            requires
                0x80_0000 <= a <= 0xff_ffff,
                0x80_0000 <= b <= 0xff_ffff,
        ;
        let p: u64 = self.mantissa as u64 * other.mantissa as u64;
        let e: i32 = self.exponent + other.exponent;
        if p < 0x8000_0000_0000 {
            proof {
                lemma_nearest_even_range(p as int, 0x80_0000, 0x80_0000, 0x100_0000);
            }
            carry(round_even(p, 0x80_0000), e + 23)
        } else {
            proof {
                lemma_nearest_even_range(p as int, 0x100_0000, 0x80_0000, 0x100_0000);
            }
            carry(round_even(p, 0x100_0000), e + 24)
        }
    }

    /// The quotient, rounded.
    pub fn over(self, other: Binary32) -> (result: Binary32)
        requires
            self.wf(),
            other.wf(),
            -1000 <= self.exponent <= 1000,
            -1000 <= other.exponent <= 1000,
        ensures
            result.wf(),
            result == quotient(self, other),
            self.exponent - other.exponent - 24 <= result.exponent <= self.exponent
                - other.exponent - 22,
    {
        let e: i32 = self.exponent - other.exponent;
        let divisor: u64 = other.mantissa as u64;
        if self.mantissa >= other.mantissa {
            let n: u64 = self.mantissa as u64 * 0x80_0000;
            proof {
                lemma_nearest_even_range(n as int, divisor as int, 0x80_0000, 0x100_0000);
            }
            carry(round_even(n, divisor), e - 23)
        } else {
            let n: u64 = self.mantissa as u64 * 0x100_0000;
            proof {
                lemma_nearest_even_range(n as int, divisor as int, 0x80_0000, 0x100_0000);
            }
            carry(round_even(n, divisor), e - 24)
        }
    }

    /// A positive integer, rounded.
    pub fn from_positive(n: u32) -> (result: Binary32)
        requires
            n > 0,
        ensures
            result.wf(),
            result == rounded(n as nat),
            -23 <= result.exponent <= 9,
    {
        if n < MANTISSA_END {
            let mut mantissa: u32 = n;
            let mut exponent: i32 = 0;
            proof {
                vstd::arithmetic::power2::lemma2_to64();
                assert(pow2((-exponent) as nat) == 1);
                assert(n * 1 == n);
            }
            while mantissa < MANTISSA_MIN
                invariant
                    0 < n <= mantissa < MANTISSA_END,
                    -23 <= exponent <= 0,
                    mantissa == n * pow2((-exponent) as nat),
                    pow2((-exponent) as nat) <= mantissa,
                    missing_bits(n as nat) == missing_bits(mantissa as nat) - exponent,
                decreases MANTISSA_END - mantissa,
            {
                proof {
                    let k = (-exponent) as nat;
                    if k == 23 {
                        vstd::arithmetic::power2::lemma2_to64();
                    }
                    vstd::arithmetic::power2::lemma_pow2_unfold(k + 1);
                    assert(n * (2 * pow2(k)) == 2 * (n * pow2(k))) by (nonlinear_arith);
                    assert((-(exponent - 1)) as nat == k + 1);
                }
                mantissa = mantissa * 2;
                exponent = exponent - 1;
            }
            Binary32 { mantissa, exponent }
        } else {
            let mut unit: u64 = 1;
            let mut exponent: i32 = 0;
            proof {
                vstd::arithmetic::power2::lemma2_to64();
                assert(n as int / 1 == n);
            }
            while n as u64 / unit >= MANTISSA_END as u64
                invariant
                    n >= MANTISSA_END,
                    0 <= exponent <= 8,
                    unit == pow2(exponent as nat),
                    0 < unit <= 256,
                    excess_bits(n as nat) == exponent + excess_bits(
                        (n as int / unit as int) as nat,
                    ),
                    n as int / unit as int >= MANTISSA_MIN,
                decreases 257 - unit,
            {
                proof {
                    vstd::arithmetic::power2::lemma2_to64();
                    vstd::arithmetic::power2::lemma_pow2_unfold((exponent + 1) as nat);
                    vstd::arithmetic::div_mod::lemma_div_denominator(n as int, unit as int, 2);
                    assert(unit < 256) by {
                        if unit == 256 {
                            assert(n as int / 256 < MANTISSA_END);
                        }
                    }
                    if exponent == 8 {
                        assert(false);
                    }
                }
                unit = unit * 2;
                exponent = exponent + 1;
            }
            proof {
                vstd::arithmetic::div_mod::lemma_fundamental_div_mod(n as int, unit as int);
                vstd::arithmetic::div_mod::lemma_mod_bound(n as int, unit as int);
                let q = n as int / unit as int;
                assert(MANTISSA_MIN * unit <= n < MANTISSA_END * unit) by (nonlinear_arith)
                    requires
                        n == unit * q + n as int % unit as int,
                        0 <= n as int % (unit as int) < unit,
                        MANTISSA_MIN <= q < MANTISSA_END,
                ;
                lemma_nearest_even_range(
                    n as int,
                    unit as int,
                    MANTISSA_MIN as int,
                    MANTISSA_END as int,
                );
            }
            carry(round_even(n as u64, unit), exponent)
        }
    }

    /// The nearest 32-bit integer, halves up; the greatest one for what is greater.
    pub fn round(self) -> (whole: i32)
        requires
            self.wf(),
            -1000 <= self.exponent <= 1000,
        ensures
            whole == nearest_integer(self),
    {
        if self.exponent >= 8 {
            proof {
                let e = self.exponent as nat;
                vstd::arithmetic::power2::lemma2_to64();
                if e > 8 {
                    vstd::arithmetic::power2::lemma_pow2_strictly_increases(8, e);
                }
                assert(self.mantissa * pow2(e) >= 0x80_0000 * 256) by (nonlinear_arith)
                    requires
                        self.mantissa >= 0x80_0000,
                        pow2(e) >= 256,
                ;
            }
            i32::MAX
        } else if self.exponent >= 0 {
            let unit: u64 = power_of_two(self.exponent as u32);
            proof {
                vstd::arithmetic::power2::lemma2_to64();
                if self.exponent < 7 {
                    vstd::arithmetic::power2::lemma_pow2_strictly_increases(
                        self.exponent as nat,
                        7,
                    );
                }
                assert(0 <= self.mantissa * unit <= 0xff_ffff * 128) by (nonlinear_arith)
                    requires
                        0 <= self.mantissa <= 0xff_ffff,
                        0 <= unit <= 128,
                ;
            }
            (self.mantissa as u64 * unit) as i32
        } else if self.exponent < -25 {
            proof {
                let k = (-self.exponent) as nat;
                vstd::arithmetic::power2::lemma2_to64();
                vstd::arithmetic::power2::lemma_pow2_strictly_increases(25, k);
                vstd::arithmetic::div_mod::lemma_basic_div(
                    2 * self.mantissa + pow2(k),
                    2 * pow2(k) as int,
                );
            }
            0
        } else {
            let unit: u64 = power_of_two((-self.exponent) as u32);
            proof {
                vstd::arithmetic::power2::lemma2_to64();
                if self.exponent > -25 {
                    vstd::arithmetic::power2::lemma_pow2_strictly_increases(
                        (-self.exponent) as nat,
                        25,
                    );
                }
                vstd::arithmetic::div_mod::lemma_div_is_ordered_by_denominator(
                    2 * self.mantissa + unit,
                    1,
                    2 * unit,
                );
            }
            ((2 * self.mantissa as u64 + unit) / (2 * unit)) as i32
        }
    }
}

fn power_of_two(k: u32) -> (power: u64)
    requires
        k <= 32,
    ensures
        power == pow2(k as nat),
        power > 0,
{
    let mut power: u64 = 1;
    let mut i: u32 = 0;
    proof {
        vstd::arithmetic::power2::lemma2_to64();
    }
    while i < k
        invariant
            i <= k <= 32,
            power == pow2(i as nat),
            0 < power,
        decreases k - i,
    {
        proof {
            vstd::arithmetic::power2::lemma2_to64();
            vstd::arithmetic::power2::lemma_pow2_unfold((i + 1) as nat);
            vstd::arithmetic::power2::lemma_pow2_strictly_increases(i as nat, 32);
        }
        power = power * 2;
        i += 1;
    }
    power
}

} // verus!
