//! Primitives for unique identifier allocation and broadcast delivery: an
//! unbounded identifier allocator with recycling ([`atomic_poll`]), the
//! deduplicating queue that backs its recycle set ([`seg_queue`]), and a
//! publish/subscribe bus keyed by allocator-issued identifiers
//! ([`instant_bus`]), whose subscriber handles may live on other threads.
//! [`report`] renders benchmark measurements of these primitives.

use vstd::prelude::*;

pub mod ident;
pub mod seg_queue;
pub mod atomic_poll;
pub mod instant_bus;
pub mod report;

verus! {

/// Number of values one native counter sweep contributes to the identifier
/// range. The top native value is reserved as a rollover marker and never
/// issued, so a segment spans `u64::MAX` identifiers, not `u64::MAX + 1`.
pub open spec fn segment_span() -> nat {
    0xFFFF_FFFF_FFFF_FFFFnat
}

} // verus!
