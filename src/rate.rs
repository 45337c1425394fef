//! Transfer rates, in whole bytes per second, by integer arithmetic.
use vstd::prelude::*;

verus! {

pub const NANOS_PER_SEC: u128 = 1_000_000_000;

/// A transfer rate.
#[derive(PartialEq, Eq, Structural, Clone, Copy, Debug)]
pub enum Rate {
    /// Whole bytes per second, rounded down.
    BytesPerSec(u128),
    /// The elapsed time was zero: no rate can be derived.
    Undefined,
    /// The rate does not fit in 128 bits.
    Overflow,
}

/// The rate of `size` bytes over `nanos` nanoseconds: `size * 10^9 / nanos`.
pub fn io_rate(size: u128, nanos: u128) -> (r: Rate)
    ensures
        nanos == 0 ==> r == Rate::Undefined,
        nanos > 0 && size * NANOS_PER_SEC <= u128::MAX ==> r == Rate::BytesPerSec(
            ((size * NANOS_PER_SEC) / nanos as int) as u128,
        ),
        nanos > 0 && size * NANOS_PER_SEC > u128::MAX ==> r == Rate::Overflow,
{
    if nanos == 0 {
        Rate::Undefined
    } else if size <= u128::MAX / NANOS_PER_SEC {
        proof {
            assert(size * NANOS_PER_SEC <= u128::MAX) by (nonlinear_arith)
                requires
                    size <= u128::MAX / NANOS_PER_SEC,
                    NANOS_PER_SEC == 1_000_000_000,
            ;
        }
        Rate::BytesPerSec(size * NANOS_PER_SEC / nanos)
    } else {
        proof {
            assert(size * NANOS_PER_SEC > u128::MAX) by (nonlinear_arith)
                requires
                    size > u128::MAX / NANOS_PER_SEC,
                    NANOS_PER_SEC == 1_000_000_000,
            ;
        }
        Rate::Overflow
    }
}

} // verus!
