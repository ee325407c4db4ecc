//! When a long-running operation reports its progress.

use vstd::prelude::*;

verus! {

/// Whether the element at `idx` reports progress when every `interval + 1`-th element does
/// (0 is every element, 1 is every second, 2 is every third, and so on); the first one always
/// does.
pub fn reports_at(idx: usize, interval: usize) -> (r: bool)
    requires
        interval < usize::MAX,
    ensures
        r == (idx % ((interval + 1) as usize) == 0),
{
    idx % (interval + 1) == 0
}

} // verus!
