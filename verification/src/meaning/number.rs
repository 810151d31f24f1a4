//! What the bit patterns of doubles stand for.
use vstd::prelude::*;
use vstd::arithmetic::power2::{
    lemma2_to64, lemma2_to64_rest, lemma_pow2_strictly_increases, lemma_pow2_unfold, pow2,
};
use crate::number::{
    double_of, double_step, doubled, half_even, halvings, nearest_double, usable_only, Double,
    SIGNIFICAND_FLOOR, SIGNIFICAND_LIMIT,
};
use crate::rate::{ONE_BITS, TEN_THOUSAND_BITS, THOUSAND_BITS};
use crate::validate::{MAX_PERCENT_BITS, MAX_UDP_BANDWIDTH_BITS};

verus! {

/// The exponent field of a pattern.
pub open spec fn exponent(bits: int) -> int {
    (bits / 0x10_0000_0000_0000) % 2048
}

/// The significand of a pattern with its leading one, as a whole number.
pub open spec fn significand(bits: int) -> int {
    bits % 0x10_0000_0000_0000 + 0x10_0000_0000_0000
}

/// A pattern is that of a finite number unless its exponent field is full. It is that of a positive
/// number when the sign bit is clear and the rest is not zero, and not that of a NaN.
pub proof fn lemma_patterns_tell_the_kind(x: Double)
    ensures
        x.finite() <==> exponent(x.bits as int) != 2047,
        x.positive() <==> 0 < x.bits < 0x8000_0000_0000_0000 && (exponent(x.bits as int) != 2047
            || x.bits % 0x10_0000_0000_0000 == 0),
        x.usable() <==> 0 < x.bits < 0x8000_0000_0000_0000 && exponent(x.bits as int) != 2047,
        x.nonnegative() <==> x.bits == 0 || x.bits == 0x8000_0000_0000_0000 || x.usable(),
{
}

/// Of two positive numbers the greater has the greater pattern; nothing is over a limit but positive
/// numbers.
pub proof fn lemma_greater_patterns_are_greater(x: Double, limit: Double)
    requires
        limit.positive(),
    ensures
        x.over(limit.bits) ==> x.positive() && x.bits > limit.bits,
        x.positive() && x.bits > limit.bits ==> x.over(limit.bits),
        !(x.positive()) ==> !x.over(limit.bits),
{
}

/// Only a usable value is kept, as it is.
pub proof fn lemma_only_usable_values_stay(x: Double)
    ensures
        usable_only(Some(x)) is Some <==> 0 < x.bits < 0x8000_0000_0000_0000 && exponent(
            x.bits as int,
        ) != 2047,
        usable_only(Some(x)) matches Some(y) ==> y == x,
        usable_only(None) is None,
{
}

/// A quotient rounds to a number that is nowhere more than a half away, to the even one of two that
/// are equally near.
pub proof fn lemma_rounding_is_to_the_nearest(num: nat, den: nat)
    requires
        den > 0,
    ensures
        -(den as int) <= 2 * (half_even(num, den) * den - num) <= den,
        2 * (half_even(num, den) * den - num) == den || 2 * (num - half_even(num, den) * den) == den
            ==> half_even(num, den) % 2 == 0,
{
    let q = num / den;
    let r = num % den;
    vstd::arithmetic::div_mod::lemma_fundamental_div_mod(num as int, den as int);
    assert(num == den * q + r);
    assert(q * den == den * q) by (nonlinear_arith);
    assert((q + 1) * den == den * q + den) by (nonlinear_arith);
}

pub(crate) proof fn lemma_doubled(n: nat, k: nat)
    requires
        0 < n < SIGNIFICAND_LIMIT,
    ensures
        doubled(n, k).1 >= k,
        doubled(n, k).0 == n * pow2((doubled(n, k).1 - k) as nat),
        SIGNIFICAND_FLOOR <= doubled(n, k).0 < SIGNIFICAND_LIMIT,
    decreases
            (if n >= SIGNIFICAND_FLOOR {
                0
            } else {
                SIGNIFICAND_FLOOR - n
            }),
{
    if n >= SIGNIFICAND_FLOOR {
        lemma2_to64();
        assert(n * pow2(0) == n) by (nonlinear_arith)
            requires
                pow2(0) == 1,
        ;
    } else {
        lemma_doubled(2 * n, k + 1);
        let j = (doubled(n, k).1 - k) as nat;
        lemma_pow2_unfold(j);
        let p = pow2((j - 1) as nat);
        assert((2 * n) * p == n * (2 * p)) by (nonlinear_arith);
    }
}

/// A whole number of up to 53 bits has a double of its own: the significand of the double's pattern
/// is the number, shifted by what the exponent field says.
pub proof fn lemma_small_numbers_are_exact(n: nat)
    requires
        0 < n < 0x20_0000_0000_0000,
    ensures
        1023 <= exponent(double_of(n)) <= 1075,
        significand(double_of(n)) == n * pow2((1075 - exponent(double_of(n))) as nat),
        0 < double_of(n) < 0x7ff0_0000_0000_0000,
        double_of(0) == 0,
{
    lemma_doubled(n, 0);
    let (m, k) = doubled(n, 0);
    lemma2_to64_rest();
    if k > 52 {
        lemma_pow2_strictly_increases(52, k);
        assert(n * pow2(k) >= pow2(k)) by (nonlinear_arith)
            requires
                n > 0,
        ;
        lemma_pow2_unfold(k);
        let p = pow2((k - 1) as nat);
        if k > 53 {
            lemma_pow2_strictly_increases(52, (k - 1) as nat);
        }
        assert(n * (2 * p) >= 2 * p) by (nonlinear_arith)
            requires
                n > 0,
        ;
        assert(false);
    }
    let bits = double_of(n);
    assert(bits == (1075 - k) * SIGNIFICAND_FLOOR + (m - SIGNIFICAND_FLOOR));
    assert(bits / 0x10_0000_0000_0000 == 1075 - k);
    assert(bits % 0x10_0000_0000_0000 == m - SIGNIFICAND_FLOOR);
}

proof fn lemma_is_double(n: nat, m: nat, k: nat)
    requires
        0 < n < 0x20_0000_0000_0000,
        m == n * pow2(k),
        0x10_0000_0000_0000 <= m < 0x20_0000_0000_0000,
    ensures
        double_of(n) == (1075 - k) * 0x10_0000_0000_0000 + (m - 0x10_0000_0000_0000),
{
    lemma_doubled(n, 0);
    let (a, j) = doubled(n, 0);
    if j < k {
        lemma_apart(n, j, k);
    } else if k < j {
        lemma_apart(n, k, j);
    }
}

proof fn lemma_apart(n: nat, j: nat, k: nat)
    requires
        j < k,
        n > 0,
    ensures
        n * pow2(k) >= 2 * (n * pow2(j)),
{
    lemma_pow2_unfold(k);
    if j + 1 < k {
        lemma_pow2_strictly_increases(j, (k - 1) as nat);
    }
    let (p, q) = (pow2(j), pow2((k - 1) as nat));
    assert(n * (2 * q) >= 2 * (n * p)) by (nonlinear_arith)
        requires
            q >= p,
    ;
}

/// The limits that rates are held against are one, a thousand and ten thousand Mbps; shares go up to
/// 200 percent, and UDP loads up to 400000 Mbps.
pub proof fn lemma_limits_are_round_numbers()
    ensures
        ONE_BITS == double_of(1),
        THOUSAND_BITS == double_of(1000),
        TEN_THOUSAND_BITS == double_of(10_000),
        MAX_PERCENT_BITS == double_of(200),
        MAX_UDP_BANDWIDTH_BITS == double_of(400_000),
{
    lemma2_to64_rest();
    lemma2_to64();
    lemma_is_double(1, 0x10_0000_0000_0000, 52);
    lemma_is_double(1000, 1000 * 0x800_0000_0000, 43);
    lemma_is_double(10_000, 10_000 * 0x80_0000_0000, 39);
    lemma_is_double(200, 200 * 0x2000_0000_0000, 45);
    lemma_is_double(400_000, 400_000 * 0x4_0000_0000, 34);
}

proof fn lemma_step(n: nat)
    ensures
        double_step(n) == pow2(halvings(n)),
        double_step(n) > 0,
        n >= SIGNIFICAND_LIMIT ==> {
            &&& double_step(n) * SIGNIFICAND_FLOOR <= n
            &&& n < double_step(n) * SIGNIFICAND_LIMIT
        },
        n < SIGNIFICAND_LIMIT ==> double_step(n) == 1,
    decreases n,
{
    lemma2_to64();
    if n >= SIGNIFICAND_LIMIT {
        lemma_step(n / 2);
        lemma_pow2_unfold(halvings(n));
        let s = double_step(n / 2);
        assert(double_step(n) == 2 * s);
        if n / 2 < SIGNIFICAND_LIMIT {
            assert(s == 1);
        } else {
            assert((2 * s) * SIGNIFICAND_FLOOR == 2 * (s * SIGNIFICAND_FLOOR)) by (nonlinear_arith);
            assert((2 * s) * SIGNIFICAND_LIMIT == 2 * (s * SIGNIFICAND_LIMIT)) by (nonlinear_arith);
        }
    }
}

/// A number rounds to a double no further away than half the space between the doubles around it, a
/// power of two of which 53 bits make up the number; a number of up to 53 bits stays as it is.
pub proof fn lemma_numbers_round_to_doubles(n: nat)
    ensures
        double_step(n) == pow2(halvings(n)),
        -(double_step(n) as int) <= 2 * (nearest_double(n) - n) <= double_step(n),
        n < 0x20_0000_0000_0000 ==> nearest_double(n) == n,
        n >= 0x20_0000_0000_0000 ==> {
            &&& double_step(n) * 0x10_0000_0000_0000 <= n
            &&& n < double_step(n) * 0x20_0000_0000_0000
            &&& double_of(n) == (1075 + halvings(n)) * 0x10_0000_0000_0000 + (half_even(
                n,
                double_step(n),
            ) - 0x10_0000_0000_0000)
        },
{
    lemma_step(n);
    lemma_rounding_is_to_the_nearest(n, double_step(n));
    if n < SIGNIFICAND_LIMIT {
        assert(half_even(n, 1) * 1 == half_even(n, 1));
    }
}

} // verus!
