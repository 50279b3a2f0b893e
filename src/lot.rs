//! The change-set and the collector that fills and flushes it.
use vstd::prelude::*;

pub mod collection;
pub mod data;

verus! {

} // verus!
