//! Per-tick bookkeeping of the scanner. Each tick appends one row per
//! currently held lock and records how many were found; a human-readable
//! count is emitted only on the very first tick or when the count changed
//! from the immediately previous tick. The suppression is a presentation
//! concern over the write path, never a gate on writes.

use crate::store::StoreError;
use vstd::prelude::*;

verus! {

/// How many locks a tick counts for the bookkeeping: the rows the append
/// reported, and zero when the append failed. A failed append is absorbed —
/// sampling is best-effort and one failed write must not halt monitoring.
pub open spec fn tick_count(appended: Result<u64, StoreError>) -> u64 {
    match appended {
        Ok(n) => n,
        Err(_) => 0u64,
    }
}

/// The state the scan loop carries from one tick to the next: whether a
/// tick has happened at all, and the count the previous tick found.
pub struct ScanState {
    pub started: bool,
    pub previous: u64,
}

impl ScanState {
    /// The state before the first tick.
    pub fn new() -> (s: Self)
        ensures
            !s.started,
    {
        ScanState { started: false, previous: 0 }
    }

    /// Books one tick's append outcome. Returns `Some(count)` exactly when
    /// a summary line should be shown: on the very first tick, or when the
    /// count differs from the previous tick's. Every tick is booked, so the
    /// next comparison is always against the immediately previous tick.
    pub fn tick(&mut self, appended: &Result<u64, StoreError>) -> (emit: Option<u64>)
        ensures
            final(self).started,
            final(self).previous == tick_count(*appended),
            (!old(self).started || tick_count(*appended) != old(self).previous) ==> emit
                == Some(tick_count(*appended)),
            (old(self).started && tick_count(*appended) == old(self).previous) ==> emit
                matches None,
    {
        let found: u64 = match appended {
            Ok(n) => *n,
            Err(_) => 0,
        };
        let changed = !self.started || found != self.previous;
        self.started = true;
        self.previous = found;
        if changed {
            Some(found)
        } else {
            None
        }
    }
}

} // verus!
