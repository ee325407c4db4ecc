//! Utilities for calculating strength of groups

use vstd::prelude::*;
use crate::common::Distance;
use crate::hierarchy::lazy::{AsGroupRef, GroupRef};

verus! {

/// Calculates the strength of the groups of `hiearchy` from the distances `get_distance` gives
/// for them. Nothing is calculated yet: the strength is computed by the deep sorter instead.
pub fn calc_strength<H: AsGroupRef, DistF: Fn(<H::GroupRef as GroupRef>::GroupMetadata) -> Distance>(
    hiearchy: H,
    get_distance: DistF,
) {
}

} // verus!
