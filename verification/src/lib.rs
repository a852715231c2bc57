//! Core of a lock-contention monitor: a sample store of raw lock
//! observations, a change-suppressing scan detector, a report builder that
//! collapses repeated observations into distinct lock episodes, and the
//! lifecycle decisions around installing the store schema.

pub mod detector;
pub mod lifecycle;
pub mod report;
pub mod sample;
pub mod store;

use vstd::prelude::*;

verus! {

} // verus!
