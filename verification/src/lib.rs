//! Incremental move evaluator for a swap-based simulated-annealing search.
//!
//! The library maintains an assignment of keys to roles together with the
//! running aggregates that an external objective reads: per-code bucket
//! occupancy and frequency, collision totals, equivalence-weighted sums and
//! per-key weighted usage.  A trial move swaps the keys of two roles,
//! updates only the items the two roles touch, and can be rolled back
//! exactly from a sparse snapshot.

use vstd::prelude::*;

pub mod context;
pub mod diff;
pub mod evaluator;
pub mod snapshot;
pub mod state;
pub mod sums;

verus! {

/// Largest number of keys a single item's derived key list may hold.
pub const MAX_PARTS: usize = 4;

/// Largest equivalence cost a single key may carry.
pub const COST_LIMIT: u64 = 65536;

/// Largest equivalence cost a whole key list may carry.
pub const EQUIV_LIMIT: u64 = 4 * 65536;

/// Cap on the sum of all item frequencies, so that signed 64-bit deltas
/// never overflow.
pub const FREQ_TOTAL_LIMIT: u64 = 0x7fff_ffff_ffff_ffff;

} // verus!
