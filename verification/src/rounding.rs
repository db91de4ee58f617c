//! Quotients of whole numbers rounded as double-precision division rounds them.

use vstd::arithmetic::power2::pow2;
use vstd::prelude::*;

verus! {

/// Least significand of 53 bits: two to the 52nd power. From here on a
/// double-precision value is a whole number.
pub const SIGNIFICAND_MIN: u64 = 0x10_0000_0000_0000;

/// Least number that takes more than 53 bits: two to the 53rd power. Up to
/// here every whole number is a double-precision value.
pub const SIGNIFICAND_LIMIT: u64 = 0x20_0000_0000_0000;

/// The whole number nearest to `p / q`; of two equally near, the even one.
pub open spec fn nearest_integer(p: nat, q: nat) -> nat
    recommends
        q > 0,
{
    let floor = p / q;
    let rest = p % q;
    if 2 * rest < q || (2 * rest == q && floor % 2 == 0) {
        floor
    } else {
        floor + 1
    }
}

/// Computes [`nearest_integer`].
fn nearest_integer_of(p: u128, q: u128) -> (r: u128)
    requires
        0 < q <= u64::MAX,
        p / q < u128::MAX,
    ensures
        r == nearest_integer(p as nat, q as nat),
{
    let floor: u128 = p / q;
    let rest: u128 = p % q;
    if 2 * rest < q || (2 * rest == q && floor % 2 == 0) {
        floor
    } else {
        floor + 1
    }
}

/// The whole part of the double-precision value nearest to `p / q`, were its
/// exponent unbounded.
///
/// A double-precision value keeps 53 significant bits. A quotient from
/// [`SIGNIFICAND_MIN`] up to [`SIGNIFICAND_LIMIT`] has exactly that many bits
/// before the point, so the value nearest to it is the nearest whole number,
/// the even one of two equally near. Rounding commutes with doubling and
/// halving, which brings every other quotient into that range. Division by
/// zero is not rounded here and is given as zero.
pub open spec fn binary64_quotient(p: nat, q: nat) -> nat
    decreases
        if p < SIGNIFICAND_MIN * q {
            SIGNIFICAND_MIN * q - p
        } else if p >= SIGNIFICAND_LIMIT * q {
            p - SIGNIFICAND_LIMIT * q + 1
        } else {
            0
        },
{
    if p == 0 || q == 0 {
        0
    } else if p >= SIGNIFICAND_LIMIT * q {
        2 * binary64_quotient(p, 2 * q)
    } else if p < SIGNIFICAND_MIN * q {
        binary64_quotient(2 * p, q) / 2
    } else {
        nearest_integer(p, q)
    }
}

/// What dividing `p` by `q` in double precision gives once the result is cut
/// down to an unsigned 64-bit number: the whole part of the rounded quotient,
/// or the greatest 64-bit number where that is exceeded. A positive number
/// over zero is unbounded and gives the greatest number; zero over zero is no
/// number and gives zero.
pub open spec fn spec_rounded_quotient(p: nat, q: nat) -> nat {
    if q == 0 {
        if p == 0 {
            0
        } else {
            u64::MAX as nat
        }
    } else if binary64_quotient(p, q) > u64::MAX {
        u64::MAX as nat
    } else {
        binary64_quotient(p, q)
    }
}

/// Divides `p` by `q` as a double-precision division of the two would, and
/// cuts the result down to an unsigned 64-bit number, in whole-number
/// arithmetic throughout.
pub fn rounded_quotient(p: u64, q: u64) -> (r: u64)
    ensures
        r == spec_rounded_quotient(p as nat, q as nat),
{
    if q == 0 {
        return if p == 0 {
            0
        } else {
            u64::MAX
        };
    }
    if p == 0 {
        return 0;
    }
    // Halve a quotient that is too large, by doubling the divisor, until it
    // is below the limit.
    let mut divisor: u128 = q as u128;
    let mut halved_by: u128 = 1;
    while p as u128 >= SIGNIFICAND_LIMIT as u128 * divisor
        invariant
            0 < p,
            0 < halved_by <= divisor,
            divisor == q || SIGNIFICAND_MIN * divisor <= p,
            binary64_quotient(p as nat, q as nat) == halved_by * binary64_quotient(
                p as nat,
                divisor as nat,
            ),
        decreases p - SIGNIFICAND_MIN * divisor,
    {
        proof {
            let inner = binary64_quotient(p as nat, (2 * divisor) as nat);
            assert(binary64_quotient(p as nat, divisor as nat) == 2 * inner);
            assert(halved_by * (2 * inner) == (2 * halved_by) * inner) by (nonlinear_arith);
        }
        divisor = 2 * divisor;
        halved_by = 2 * halved_by;
    }
    // Double a quotient that is too small, by doubling the dividend, until it
    // has 53 bits before the point.
    let mut dividend: u128 = p as u128;
    let mut doubled_by: u128 = 1;
    while dividend < SIGNIFICAND_MIN as u128 * divisor
        invariant
            0 < halved_by <= divisor <= u64::MAX,
            0 < doubled_by <= dividend < SIGNIFICAND_LIMIT * divisor,
            binary64_quotient(p as nat, divisor as nat) == binary64_quotient(
                dividend as nat,
                divisor as nat,
            ) / (doubled_by as nat),
        decreases
            if dividend < SIGNIFICAND_MIN * divisor {
                SIGNIFICAND_MIN * divisor - dividend
            } else {
                0
            },
    {
        proof {
            let inner = binary64_quotient((2 * dividend) as nat, divisor as nat);
            assert(binary64_quotient(dividend as nat, divisor as nat) == inner / 2);
            vstd::arithmetic::div_mod::lemma_div_denominator(inner as int, 2, doubled_by as int);
        }
        dividend = 2 * dividend;
        doubled_by = 2 * doubled_by;
    }
    assert(binary64_quotient(dividend as nat, divisor as nat) == nearest_integer(
        dividend as nat,
        divisor as nat,
    ));
    assert(dividend / divisor < SIGNIFICAND_LIMIT) by (nonlinear_arith)
        requires
            0 < divisor,
            dividend < SIGNIFICAND_LIMIT * divisor,
    ;
    let significand: u128 = nearest_integer_of(dividend, divisor);
    assert(halved_by * (significand / doubled_by) <= u64::MAX * SIGNIFICAND_LIMIT)
        by (nonlinear_arith)
        requires
            halved_by <= u64::MAX,
            0 < doubled_by,
            significand <= SIGNIFICAND_LIMIT,
    ;
    let whole: u128 = halved_by * (significand / doubled_by);
    if whole > u64::MAX as u128 {
        u64::MAX
    } else {
        whole as u64
    }
}

/// The nearest whole number lies within one half of the quotient, is even
/// where it lies exactly one half away, and is the quotient's floor or the
/// number above that.
pub proof fn lemma_nearest_integer_is_near(p: nat, q: nat)
    requires
        q > 0,
    ensures
        2 * (q * nearest_integer(p, q)) <= 2 * p + q,
        2 * p <= 2 * (q * nearest_integer(p, q)) + q,
        2 * (q * nearest_integer(p, q)) == 2 * p + q || 2 * p == 2 * (q * nearest_integer(p, q)) + q
            ==> nearest_integer(p, q) % 2 == 0,
        p / q <= nearest_integer(p, q) <= p / q + 1,
{
    let floor = p / q;
    let rest = p % q;
    vstd::arithmetic::div_mod::lemma_fundamental_div_mod(p as int, q as int);
    assert(q * (floor + 1) == q * floor + q) by (nonlinear_arith);
}

/// The rounded quotient is `p / q` to within one part in
/// [`SIGNIFICAND_LIMIT`], cut down to a whole number; from [`SIGNIFICAND_MIN`]
/// upwards nothing is cut.
pub proof fn lemma_quotient_accuracy(p: nat, q: nat)
    requires
        q > 0,
    ensures
        SIGNIFICAND_LIMIT * (q * binary64_quotient(p, q)) <= (SIGNIFICAND_LIMIT + 1) * p,
        (SIGNIFICAND_LIMIT - 1) * p < SIGNIFICAND_LIMIT * (q * (binary64_quotient(p, q) + 1)),
        p >= SIGNIFICAND_MIN * q ==> (SIGNIFICAND_LIMIT - 1) * p <= SIGNIFICAND_LIMIT * (q
            * binary64_quotient(p, q)),
    decreases
        if p < SIGNIFICAND_MIN * q {
            SIGNIFICAND_MIN * q - p
        } else if p >= SIGNIFICAND_LIMIT * q {
            p - SIGNIFICAND_LIMIT * q + 1
        } else {
            0
        },
{
    let rounded = binary64_quotient(p, q);
    assert(q * (rounded + 1) == q * rounded + q) by (nonlinear_arith);
    if p == 0 {
        assert(q * 0 == 0);
    } else if p >= SIGNIFICAND_LIMIT * q {
        lemma_quotient_accuracy(p, 2 * q);
        let inner = binary64_quotient(p, 2 * q);
        assert(q * (2 * inner) == (2 * q) * inner) by (nonlinear_arith);
    } else if p < SIGNIFICAND_MIN * q {
        lemma_quotient_accuracy(2 * p, q);
        let inner = binary64_quotient(2 * p, q);
        assert(2 * (q * (inner / 2)) <= q * inner <= 2 * (q * (inner / 2)) + q)
            by (nonlinear_arith)
            requires
                q > 0,
        ;
        assert(q * (inner + 1) == q * inner + q) by (nonlinear_arith);
    } else {
        lemma_nearest_integer_is_near(p, q);
    }
}

/// Below [`SIGNIFICAND_LIMIT`] every whole number is a double-precision
/// value, so the rounded quotient cannot fall under the floor of `p / q`.
pub proof fn lemma_quotient_at_least_floor(p: nat, q: nat)
    requires
        q > 0,
        p < SIGNIFICAND_LIMIT * q,
    ensures
        p / q <= binary64_quotient(p, q),
    decreases
        if p < SIGNIFICAND_MIN * q {
            SIGNIFICAND_MIN * q - p
        } else {
            0
        },
{
    if p == 0 {
        vstd::arithmetic::div_mod::lemma_div_of0(q as int);
    } else if p < SIGNIFICAND_MIN * q {
        lemma_quotient_at_least_floor(2 * p, q);
        vstd::arithmetic::div_mod::lemma_div_denominator((2 * p) as int, q as int, 2);
        assert((2 * p) / (q * 2) == p / q) by (nonlinear_arith)
            requires
                q > 0,
        ;
    } else {
        lemma_nearest_integer_is_near(p, q);
    }
}

/// A dividend below [`SIGNIFICAND_LIMIT`] is divided as whole numbers are:
/// the result is the floor of `p / q`.
pub proof fn lemma_quotient_exact(p: nat, q: nat)
    requires
        q > 0,
        p < SIGNIFICAND_LIMIT,
    ensures
        binary64_quotient(p, q) == p / q,
{
    let rounded = binary64_quotient(p, q);
    assert(p < SIGNIFICAND_LIMIT * q) by (nonlinear_arith)
        requires
            q > 0,
            p < SIGNIFICAND_LIMIT,
    ;
    lemma_quotient_at_least_floor(p, q);
    lemma_quotient_accuracy(p, q);
    assert(q * rounded <= p);
    vstd::arithmetic::div_mod::lemma_fundamental_div_mod(p as int, q as int);
    assert(rounded <= p / q) by (nonlinear_arith)
        requires
            q > 0,
            q * rounded <= p,
            p == q * (p / q) + p % q,
            0 <= p % q < q,
    ;
}

/// The nearest whole number depends on the ratio of `p` to `q` alone.
pub proof fn lemma_nearest_integer_of_equal_ratios(p: nat, q: nat, c: nat)
    requires
        q > 0,
        c > 0,
    ensures
        nearest_integer(c * p, c * q) == nearest_integer(p, q),
{
    vstd::arithmetic::div_mod::lemma_div_multiples_vanish_quotient(c as int, p as int, q as int);
    vstd::arithmetic::div_mod::lemma_truncate_middle(p as int, c as int, q as int);
    let rest = p % q;
    assert(2 * (c * rest) < c * q <==> 2 * rest < q) by (nonlinear_arith)
        requires
            c > 0,
    ;
    assert(2 * (c * rest) == c * q <==> 2 * rest == q) by (nonlinear_arith)
        requires
            c > 0,
    ;
}

/// The rounded quotient depends on the ratio of `p` to `q` alone.
pub proof fn lemma_quotient_of_equal_ratios(p: nat, q: nat, c: nat)
    requires
        c > 0,
    ensures
        binary64_quotient(c * p, c * q) == binary64_quotient(p, q),
    decreases
        if p < SIGNIFICAND_MIN * q {
            SIGNIFICAND_MIN * q - p
        } else if p >= SIGNIFICAND_LIMIT * q {
            p - SIGNIFICAND_LIMIT * q + 1
        } else {
            0
        },
{
    assert(c * p == 0 <==> p == 0) by (nonlinear_arith)
        requires
            c > 0,
    ;
    assert(c * q == 0 <==> q == 0) by (nonlinear_arith)
        requires
            c > 0,
    ;
    assert(c * p >= SIGNIFICAND_LIMIT * (c * q) <==> p >= SIGNIFICAND_LIMIT * q)
        by (nonlinear_arith)
        requires
            c > 0,
    ;
    assert(c * p < SIGNIFICAND_MIN * (c * q) <==> p < SIGNIFICAND_MIN * q) by (nonlinear_arith)
        requires
            c > 0,
    ;
    if p == 0 || q == 0 {
    } else if p >= SIGNIFICAND_LIMIT * q {
        lemma_quotient_of_equal_ratios(p, 2 * q, c);
        assert(c * (2 * q) == 2 * (c * q)) by (nonlinear_arith);
    } else if p < SIGNIFICAND_MIN * q {
        lemma_quotient_of_equal_ratios(2 * p, q, c);
        assert(c * (2 * p) == 2 * (c * p)) by (nonlinear_arith);
    } else {
        lemma_nearest_integer_of_equal_ratios(p, q, c);
    }
}

/// A whole number of at most 53 significant bits, followed by any number of
/// zero bits, is a double-precision value: rounding keeps it.
pub proof fn lemma_whole_number_is_kept(significand: nat, zero_bits: nat)
    requires
        significand < SIGNIFICAND_LIMIT,
    ensures
        binary64_quotient(significand * pow2(zero_bits), 1) == significand * pow2(zero_bits),
    decreases zero_bits,
{
    let kept = significand * pow2(zero_bits);
    if zero_bits == 0 {
        vstd::arithmetic::power2::lemma2_to64();
        assert(kept == significand) by (nonlinear_arith)
            requires
                kept == significand * 1,
        ;
        lemma_quotient_exact(kept, 1);
    } else {
        let half = significand * pow2((zero_bits - 1) as nat);
        lemma_whole_number_is_kept(significand, (zero_bits - 1) as nat);
        vstd::arithmetic::power2::lemma_pow2_unfold(zero_bits);
        assert(kept == 2 * half) by (nonlinear_arith)
            requires
                kept == significand * pow2(zero_bits),
                half == significand * pow2((zero_bits - 1) as nat),
                pow2(zero_bits) == 2 * pow2((zero_bits - 1) as nat),
        ;
        if kept < SIGNIFICAND_LIMIT {
            lemma_quotient_exact(kept, 1);
        } else {
            lemma_quotient_of_equal_ratios(half, 1, 2);
        }
    }
}

} // verus!
