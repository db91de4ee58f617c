//! The ratio between raw clock ticks and nanoseconds, and the tick rate that
//! follows from it.

use crate::rounding::{
    binary64_quotient, lemma_quotient_accuracy, lemma_quotient_exact, lemma_whole_number_is_kept,
    rounded_quotient, spec_rounded_quotient, SIGNIFICAND_LIMIT,
};
use vstd::arithmetic::power2::pow2;
use vstd::prelude::*;

verus! {

/// Nanoseconds in one second.
pub const NANOS_PER_SECOND: u64 = 1_000_000_000;

/// How long one raw tick of the clock lasts: `numer / denom` nanoseconds.
///
/// The operating system fills this in. A clock that could not be queried
/// leaves both members zero.
#[derive(Clone, Copy, Debug, PartialEq, Eq, Structural)]
pub struct MachTimeBaseInfo {
    pub numer: u32,
    pub denom: u32,
}

impl MachTimeBaseInfo {
    /// What the numerator divides to give the rate: `denom * 10^9`.
    pub open spec fn spec_dividend(self) -> nat {
        (self.denom * NANOS_PER_SECOND) as nat
    }

    /// Raw ticks per second: `denom * 10^9 / numer`, divided as double
    /// precision divides and cut down to an unsigned 64-bit number.
    ///
    /// A numerator of zero gives the greatest 64-bit number, or zero where
    /// the denominator is zero too.
    pub open spec fn spec_ticks_per_second(self) -> nat {
        spec_rounded_quotient(self.spec_dividend(), self.numer as nat)
    }

    /// Computes the raw ticks per second of this time base.
    pub fn ticks_per_second(&self) -> (rate: u64)
        ensures
            rate == self.spec_ticks_per_second(),
    {
        rounded_quotient(self.denom as u64 * NANOS_PER_SECOND, self.numer as u64)
    }
}

/// With a numerator that is not zero the rate is the rounded quotient itself:
/// it stays inside 64 bits, and it is `denom * 10^9 / numer` to within one part
/// in [`SIGNIFICAND_LIMIT`], cut down to a whole number.
pub proof fn lemma_rate_is_rounded_quotient(info: MachTimeBaseInfo)
    requires
        info.numer > 0,
    ensures
        info.spec_ticks_per_second() == binary64_quotient(
            info.spec_dividend(),
            info.numer as nat,
        ),
        SIGNIFICAND_LIMIT * (info.numer * info.spec_ticks_per_second()) <= (SIGNIFICAND_LIMIT + 1)
            * info.spec_dividend(),
        (SIGNIFICAND_LIMIT - 1) * info.spec_dividend() < SIGNIFICAND_LIMIT * (info.numer * (
            info.spec_ticks_per_second() + 1
        )),
{
    let p = info.spec_dividend();
    let q = info.numer as nat;
    let rounded = binary64_quotient(p, q);
    lemma_quotient_accuracy(p, q);
    assert(rounded <= q * rounded) by (nonlinear_arith)
        requires
            q >= 1,
    ;
}

/// A denominator small enough that `denom * 10^9` stays below
/// [`SIGNIFICAND_LIMIT`] gives the rate that whole-number division gives.
pub proof fn lemma_rate_is_whole_quotient(info: MachTimeBaseInfo)
    requires
        info.numer > 0,
        info.spec_dividend() < SIGNIFICAND_LIMIT,
    ensures
        info.spec_ticks_per_second() == info.spec_dividend() / (info.numer as nat),
{
    lemma_rate_is_rounded_quotient(info);
    lemma_quotient_exact(info.spec_dividend(), info.numer as nat);
}

/// The product `denom * 10^9` is a double-precision value whatever the
/// denominator, so that forming it before the division loses nothing.
pub proof fn lemma_dividend_is_kept(info: MachTimeBaseInfo)
    ensures
        binary64_quotient(info.spec_dividend(), 1) == info.spec_dividend(),
{
    // 10^9 is 5^9 followed by nine zero bits, and 5^9 takes 21 bits.
    let significand = (info.denom * 1_953_125) as nat;
    vstd::arithmetic::power2::lemma2_to64();
    assert(info.spec_dividend() == significand * pow2(9));
    lemma_whole_number_is_kept(significand, 9);
}

} // verus!
