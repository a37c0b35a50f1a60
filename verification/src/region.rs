//! Half-open ranges of cell ids.

use vstd::prelude::*;

verus! {

/// Total number of addressable cells: 26 columns by 40 million rows.
pub const MAX_CELLS: i64 = 1_040_000_000;

/// Number of cells a fresh connection is subscribed to.
pub const DEFAULT_REGION_TO: i64 = 2500;

/// A half-open range `[from, to)` of cell ids; the unit of subscription and
/// of range fetches.
#[derive(Debug, Clone, Copy, PartialEq, Eq, Structural)]
pub struct Region {
    pub from: i64,
    pub to: i64,
}

impl Region {
    /// A region is well-formed when it is non-empty and lies inside the
    /// address space.
    pub open spec fn wf(self) -> bool {
        0 <= self.from < self.to <= MAX_CELLS
    }

    /// Whether `id` lies inside the half-open range.
    pub open spec fn spec_contains(self, id: i64) -> bool {
        self.from <= id < self.to
    }

    #[verifier::when_used_as_spec(spec_contains)]
    pub fn contains(self, id: i64) -> (r: bool)
        ensures
            r == self.spec_contains(id),
    {
        self.from <= id && id < self.to
    }

    /// The region every connection starts in.
    pub fn start_region() -> (r: Region)
        ensures
            r.from == 0,
            r.to == DEFAULT_REGION_TO,
            r.wf(),
    {
        Region { from: 0, to: DEFAULT_REGION_TO }
    }
}

impl Default for Region {
    fn default() -> (r: Region)
        ensures
            r.from == 0,
            r.to == DEFAULT_REGION_TO,
    {
        Region::start_region()
    }
}

} // verus!
