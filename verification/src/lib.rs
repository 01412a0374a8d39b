//! A hierarchical document-tracking store.
//!
//! Users own a tree of file and folder items, request files from others via
//! unguessable aliases, upload content in discrete chunks, and share completed
//! items with other principals.  The engine is an explicit [`State`] value; every
//! operation takes it by reference and is specified by a contract over the
//! mathematical view of that state.
#![verifier::loop_isolation(false)]

pub mod aliases;
pub mod api;
pub mod api_types;
pub mod chunks;
pub mod groups;
pub mod indexes;
pub mod item;
pub mod principal;
pub mod state;
pub mod store;
pub mod templates;
pub mod tree;
pub mod users;

use vstd::prelude::*;

verus! {

/// Identifier of an item (file or folder) in the tree.
pub type ItemId = u64;

/// Identifier of one chunk of a file's content.
pub type ChunkId = u64;

/// The fixed timestamp that [`get_time`] reports.
pub closed spec fn current_time() -> u64 {
    12345
}

/// The fixed fallback timestamp, for callers without a clock.
///
/// The engine itself has no clock: every mutating operation takes the
/// current time as an argument, and a host that has a clock passes its own
/// reading.  Tests pass this fixed value instead, so that the timestamps
/// they expect are deterministic.
pub fn get_time() -> (t: u64)
    ensures
        t == current_time(),
{
    12345
}

/// Divides, rounding up: the least `q` with `q * divisor >= dividend`.
pub fn ceil_division(dividend: usize, divisor: usize) -> (q: usize)
    requires
        divisor > 0,
        dividend + divisor <= usize::MAX,
    ensures
        q == (dividend + divisor - 1) / (divisor as int),
{
    if dividend % divisor == 0 {
        assert((dividend + divisor - 1) / (divisor as int) == (dividend as int) / (
        divisor as int)) by (nonlinear_arith)
            requires
                divisor > 0,
                dividend % divisor == 0,
        ;
        dividend / divisor
    } else {
        assert((dividend + divisor - 1) / (divisor as int) == (dividend as int) / (divisor as int)
            + 1) by (nonlinear_arith)
            requires
                divisor > 0,
                dividend % divisor != 0,
        ;
        dividend / divisor + 1
    }
}

} // verus!
