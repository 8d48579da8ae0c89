//! The range of integers that an invocation runs over.

use vstd::prelude::*;

verus! {

/// Whether the upper bound belongs to the range.
#[derive(Clone, Copy, Debug, PartialEq, Eq, Structural)]
pub enum SeqRangeKind {
    /// `lower..upper`: the upper bound is left out.
    Range,
    /// `lower..=upper`: the upper bound is the last value.
    RangeInclusive,
}

/// A range of integers. A lower bound above the upper bound is accepted and
/// gives the empty range.
#[derive(Clone, Copy, Debug, PartialEq, Eq, Structural)]
pub struct SeqRange {
    pub lower: u64,
    pub upper: u64,
    pub kind: SeqRangeKind,
}

impl SeqRange {
    /// How many values the range holds.
    pub open spec fn count(self) -> nat {
        match self.kind {
            SeqRangeKind::Range => if self.lower < self.upper {
                (self.upper - self.lower) as nat
            } else {
                0
            },
            SeqRangeKind::RangeInclusive => if self.lower <= self.upper {
                (self.upper - self.lower + 1) as nat
            } else {
                0
            },
        }
    }

    /// The values of the range in increasing order.
    pub open spec fn values(self) -> Seq<u64> {
        Seq::new(self.count(), |k: int| (self.lower + k) as u64)
    }

    /// The last value of the range, if it has any.
    pub fn last(&self) -> (last: Option<u64>)
        ensures
            last is None <==> self.count() == 0,
            last matches Some(value) ==> value == self.lower + self.count() - 1,
    {
        match self.kind {
            SeqRangeKind::Range => if self.lower < self.upper {
                Some(self.upper - 1)
            } else {
                None
            },
            SeqRangeKind::RangeInclusive => if self.lower <= self.upper {
                Some(self.upper)
            } else {
                None
            },
        }
    }
}

} // verus!
