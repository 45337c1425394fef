//! Building blocks of a read/write throughput meter: synthetic byte
//! sources, the bookkeeping of a bounded or unbounded copy loop, the
//! parsing of a buffer size and the derivation of a transfer rate.
use vstd::prelude::*;

pub mod copier;
pub mod rate;
pub mod size;
pub mod source;

verus! {

/// The sum of a sequence of byte counts.
pub open spec fn sum_of(s: Seq<nat>) -> nat
    decreases s.len(),
{
    if s.len() == 0 {
        0
    } else {
        s[0] + sum_of(s.drop_first())
    }
}

} // verus!
