//! Numbers that are doubles outside the library, held here by their bit patterns, and how whole
//! numbers and quotients round to them.
use vstd::prelude::*;
use vstd::arithmetic::power2::{
    lemma2_to64, lemma2_to64_rest, lemma_pow2_strictly_increases, lemma_pow2_unfold, pow2,
};

verus! {

/// The bit pattern of positive infinity.
pub const INFINITY_BITS: u64 = 0x7ff0_0000_0000_0000;

/// The bit pattern of negative zero.
pub const SIGN_BIT: u64 = 0x8000_0000_0000_0000;

/// An IEEE 754 double by its bit pattern. From zero to infinity the patterns grow with the values.
#[derive(Clone, Copy, Debug, Default, PartialEq, Eq, Structural)]
pub struct Double {
    pub bits: u64,
}

impl Double {
    /// Neither infinite nor a NaN.
    pub open spec fn finite(self) -> bool {
        self.bits < INFINITY_BITS || SIGN_BIT <= self.bits < SIGN_BIT + INFINITY_BITS
    }

    /// Greater than zero.
    pub open spec fn positive(self) -> bool {
        0 < self.bits <= INFINITY_BITS
    }

    /// A finite value that is greater than zero.
    pub open spec fn usable(self) -> bool {
        self.finite() && self.positive()
    }

    /// A finite value that is not less than zero.
    pub open spec fn nonnegative(self) -> bool {
        self.bits < INFINITY_BITS || self.bits == SIGN_BIT
    }

    /// Greater than a positive value with the bit pattern `limit`.
    pub open spec fn over(self, limit: u64) -> bool {
        limit < self.bits <= INFINITY_BITS
    }

    /// Whether the value is greater than a positive value with the bit pattern `limit`.
    pub fn is_over(&self, limit: u64) -> (r: bool)
        ensures
            r == self.over(limit),
    {
        limit < self.bits && self.bits <= INFINITY_BITS
    }

    /// Whether the value is finite.
    pub fn is_finite(&self) -> (r: bool)
        ensures
            r == self.finite(),
    {
        self.bits < INFINITY_BITS || (SIGN_BIT <= self.bits && self.bits - SIGN_BIT < INFINITY_BITS)
    }

    /// Whether the value is greater than zero.
    pub fn is_positive(&self) -> (r: bool)
        ensures
            r == self.positive(),
    {
        0 < self.bits && self.bits <= INFINITY_BITS
    }

    /// Whether the value is finite and greater than zero.
    pub fn is_usable(&self) -> (r: bool)
        ensures
            r == self.usable(),
    {
        self.is_finite() && self.is_positive()
    }

    /// Whether the value is finite and not less than zero.
    pub fn is_nonnegative(&self) -> (r: bool)
        ensures
            r == self.nonnegative(),
    {
        self.bits < INFINITY_BITS || self.bits == SIGN_BIT
    }
}

/// The value where it is usable.
pub open spec fn usable_only(v: Option<Double>) -> Option<Double> {
    match v {
        Some(x) => if x.usable() {
            Some(x)
        } else {
            None
        },
        None => None,
    }
}

/// The value where it is usable.
pub fn keep_usable(v: Option<Double>) -> (r: Option<Double>)
    ensures
        r == usable_only(v),
{
    match v {
        Some(x) => if x.is_usable() {
            Some(x)
        } else {
            None
        },
        None => None,
    }
}

// ---------------------------------------------------------------------------
// Rounding
// ---------------------------------------------------------------------------

/// The quotient rounded to the nearest number, to the even one of two that are equally near.
pub open spec fn half_even(num: nat, den: nat) -> nat
    recommends
        den > 0,
{
    let q = num / den;
    let r = num % den;
    if 2 * r < den || (2 * r == den && q % 2 == 0) {
        q
    } else {
        q + 1
    }
}

/// A binary fraction with 53 significant bits: what a double can hold.
pub const SIGNIFICAND_LIMIT: u128 = 0x20_0000_0000_0000;

/// The least power of two by which `n` divides to 53 bits.
pub open spec fn double_step(n: nat) -> nat
    decreases n,
{
    if n < SIGNIFICAND_LIMIT {
        1
    } else {
        2 * double_step(n / 2)
    }
}

/// The double that is nearest to a whole number.
pub open spec fn nearest_double(n: nat) -> nat {
    half_even(n, double_step(n)) * double_step(n)
}

/// The quotient rounded to the nearest number.
pub fn divide_half_even(num: u128, den: u128) -> (r: u128)
    requires
        0 < den < 0x8000_0000_0000_0000_0000_0000_0000_0000,
        num < 0x8000_0000_0000_0000_0000_0000_0000_0000,
    ensures
        r == half_even(num as nat, den as nat),
        r <= num / den + 1,
{
    let q: u128 = num / den;
    let r: u128 = num % den;
    assert(r < den) by (nonlinear_arith)
        requires
            r == num % den,
            den > 0,
    ;
    assert(q <= num) by (nonlinear_arith)
        requires
            q == num / den,
            den > 0,
    ;
    if 2 * r < den || (2 * r == den && q % 2 == 0) {
        q
    } else {
        q + 1
    }
}

/// The least power of two by which `n` divides to 53 bits.
pub fn step_of_double(n: u64) -> (r: u64)
    ensures
        r == double_step(n as nat),
        n < SIGNIFICAND_LIMIT ==> r == 1,
        n >= SIGNIFICAND_LIMIT ==> r * SIGNIFICAND_LIMIT <= 2 * n,
        n < r * SIGNIFICAND_LIMIT,
        1 <= r <= 4096,
    decreases n,
{
    if (n as u128) < SIGNIFICAND_LIMIT {
        1
    } else {
        2 * step_of_double(n / 2)
    }
}

/// The double that is nearest to a whole number.
pub fn round_to_double(n: u64) -> (r: u128)
    ensures
        r == nearest_double(n as nat),
        r <= 0x1_0000_0000_0001_0000,
        (r == 0) == (n == 0),
{
    let step: u64 = step_of_double(n);
    let q: u128 = divide_half_even(n as u128, step as u128);
    proof {
        let quotient = n as int / step as int;
        assert(quotient * step <= n && n < (quotient + 1) * step) by (nonlinear_arith)
            requires
                quotient == n as int / step as int,
                step > 0,
        ;
        assert(q * step <= (quotient + 1) * step) by (nonlinear_arith)
            requires
                q <= quotient + 1,
                step > 0,
        ;
        assert((quotient + 1) * step == quotient * step + step) by (nonlinear_arith);
        assert(n > 0 ==> q > 0) by (nonlinear_arith)
            requires
                q == half_even(n as nat, step as nat),
                n < SIGNIFICAND_LIMIT ==> step == 1,
                n >= SIGNIFICAND_LIMIT ==> step * SIGNIFICAND_LIMIT <= 2 * n,
                1 <= step <= 4096,
        ;
        assert(q > 0 ==> q * step > 0) by (nonlinear_arith)
            requires
                step > 0,
        ;
        assert(q == 0 ==> q * step == 0) by (nonlinear_arith);
    }
    q * step as u128
}

/// The least number with 53 bits.
pub const SIGNIFICAND_FLOOR: u64 = 0x10_0000_0000_0000;

/// A number doubled until it has 53 bits, and how often.
pub open spec fn doubled(n: nat, k: nat) -> (nat, nat)
    decreases
            (if n >= SIGNIFICAND_FLOOR {
                0
            } else {
                SIGNIFICAND_FLOOR - n
            }),
{
    if n == 0 || n >= SIGNIFICAND_FLOOR {
        (n, k)
    } else {
        doubled(2 * n, k + 1)
    }
}

/// A number halved until it has 53 bits, rounded to the nearest, and how often.
pub open spec fn halvings(n: nat) -> nat
    decreases n,
{
    if n < SIGNIFICAND_LIMIT {
        0
    } else {
        1 + halvings(n / 2)
    }
}

/// The double that is nearest to a whole number: its exponent above its 52 lower bits.
pub open spec fn double_of(n: nat) -> int {
    if n == 0 {
        0
    } else if n < SIGNIFICAND_LIMIT {
        let (m, k) = doubled(n, 0);
        (1075 - k) * SIGNIFICAND_FLOOR + (m - SIGNIFICAND_FLOOR)
    } else {
        (1075 + halvings(n)) * SIGNIFICAND_FLOOR + (half_even(n, double_step(n))
            - SIGNIFICAND_FLOOR)
    }
}

/// How often a number halves until it has 53 bits.
pub fn count_halvings(n: u64) -> (r: u64)
    ensures
        r == halvings(n as nat),
        n < 0x20_0000_0000_0000 ==> r == 0,
        r <= 11,
        n < 0x40_0000_0000_0000 ==> r <= 1,
        n < 0x80_0000_0000_0000 ==> r <= 2,
        n < 0x100_0000_0000_0000 ==> r <= 3,
        n < 0x200_0000_0000_0000 ==> r <= 4,
        n < 0x400_0000_0000_0000 ==> r <= 5,
        n < 0x800_0000_0000_0000 ==> r <= 6,
        n < 0x1000_0000_0000_0000 ==> r <= 7,
        n < 0x2000_0000_0000_0000 ==> r <= 8,
        n < 0x4000_0000_0000_0000 ==> r <= 9,
        n < 0x8000_0000_0000_0000 ==> r <= 10,
    decreases n,
{
    if (n as u128) < SIGNIFICAND_LIMIT {
        0
    } else {
        1 + count_halvings(n / 2)
    }
}

impl Double {
    /// The double that is nearest to a whole number.
    pub fn of_count(n: u64) -> (r: Double)
        ensures
            r.bits == double_of(n as nat),
            n > 0 ==> r.usable(),
    {
        if n == 0 {
            return Double { bits: 0 };
        }
        if (n as u128) < SIGNIFICAND_LIMIT {
            let mut m: u64 = n;
            let mut k: u64 = 0;
            proof {
                lemma2_to64();
            }
            while m < SIGNIFICAND_FLOOR
                invariant
                    n > 0,
                    0 < m < 2 * SIGNIFICAND_FLOOR,
                    k <= 52,
                    m == n * pow2(k as nat),
                    doubled(n as nat, 0) == doubled(m as nat, k as nat),
                decreases
                        (if m >= SIGNIFICAND_FLOOR {
                            0
                        } else {
                            SIGNIFICAND_FLOOR - m
                        }),
            {
                proof {
                    lemma_few_doublings(n as nat, m as nat, k as nat);
                    lemma_pow2_unfold((k + 1) as nat);
                    assert(2 * m == n * pow2((k + 1) as nat)) by (nonlinear_arith)
                        requires
                            m == n * pow2(k as nat),
                            pow2((k + 1) as nat) == 2 * pow2(k as nat),
                    ;
                }
                m = 2 * m;
                k = k + 1;
            }
            Double { bits: (1075 - k) * SIGNIFICAND_FLOOR + (m - SIGNIFICAND_FLOOR) }
        } else {
            let s: u64 = count_halvings(n);
            let step: u64 = step_of_double(n);
            let m: u128 = divide_half_even(n as u128, step as u128);
            proof {
                let q = n as int / step as int;
                assert(SIGNIFICAND_FLOOR <= q < SIGNIFICAND_LIMIT) by (nonlinear_arith)
                    requires
                        q == n as int / step as int,
                        step > 0,
                        step * SIGNIFICAND_LIMIT <= 2 * n,
                        n < step * SIGNIFICAND_LIMIT,
                        SIGNIFICAND_LIMIT == 2 * SIGNIFICAND_FLOOR,
                ;
            }
            Double { bits: (1075 + s) * SIGNIFICAND_FLOOR + (m as u64 - SIGNIFICAND_FLOOR) }
        }
    }
}

/// A number below 53 bits doubles fewer than 53 times.
proof fn lemma_few_doublings(n: nat, m: nat, k: nat)
    requires
        n > 0,
        m == n * pow2(k),
        m < SIGNIFICAND_FLOOR,
    ensures
        k < 52,
{
    lemma2_to64_rest();
    if k >= 52 {
        if k > 52 {
            lemma_pow2_strictly_increases(52, k);
        }
        assert(n * pow2(k) >= pow2(k)) by (nonlinear_arith)
            requires
                n > 0,
        ;
    }
}

} // verus!
