//! How installations compare: by version within an IDE family, and by the
//! families' declaration order across families.

use std::cmp::Ordering;
use vstd::prelude::*;
use crate::ide::Ide;
use crate::installation::{IdeConfigPath, Installation};

verus! {

/// How two versions compare.
pub open spec fn version_order(a: u32, b: u32) -> Ordering {
    if a < b {
        Ordering::Less
    } else if a == b {
        Ordering::Equal
    } else {
        Ordering::Greater
    }
}

/// How two installations compare where they can be compared at all:
/// installations of one family by their versions, others not.
pub open spec fn partial_order(a: Installation, b: Installation) -> Option<Ordering> {
    if a.ide == b.ide {
        Some(version_order(a.version, b.version))
    } else {
        None
    }
}

/// The total order on installations: that of [`partial_order`] within a
/// family, and the families' declaration order across families.
pub open spec fn total_order(a: Installation, b: Installation) -> Ordering {
    if a.ide == b.ide {
        version_order(a.version, b.version)
    } else if a.ide.rank() < b.ide.rank() {
        Ordering::Less
    } else {
        Ordering::Greater
    }
}

/// How two versions compare.
pub fn order_versions(a: u32, b: u32) -> (r: Ordering)
    ensures
        r == version_order(a, b),
{
    if a < b {
        Ordering::Less
    } else if a == b {
        Ordering::Equal
    } else {
        Ordering::Greater
    }
}

impl IdeConfigPath {
    /// Compares two installations of one family by their versions;
    /// installations of different families do not compare.
    pub fn partial_cmp(&self, other: &IdeConfigPath) -> (r: Option<Ordering>)
        ensures
            r == partial_order(self@, other@),
    {
        if self.ide == other.ide {
            Some(order_versions(self.version, other.version))
        } else {
            None
        }
    }

    /// Compares two installations: by version within a family, by the
    /// families' declaration order otherwise.
    pub fn cmp(&self, other: &IdeConfigPath) -> (r: Ordering)
        ensures
            r == total_order(self@, other@),
    {
        match self.partial_cmp(other) {
            Some(order) => order,
            None => if self.ide.index() < other.ide.index() {
                Ordering::Less
            } else {
                Ordering::Greater
            },
        }
    }
}

/// The total order extends the partial one.
pub proof fn lemma_total_extends_partial(a: Installation, b: Installation)
    ensures
        partial_order(a, b) matches Some(order) ==> total_order(a, b) == order,
        partial_order(a, b) is None ==> total_order(a, b) != Ordering::Equal,
{
}

/// The total order is antisymmetric and transitive on what it puts below.
pub proof fn lemma_total_order(a: Installation, b: Installation, c: Installation)
    ensures
        total_order(a, b) == Ordering::Less <==> total_order(b, a) == Ordering::Greater,
        total_order(a, b) == Ordering::Equal <==> a.ide == b.ide && a.version == b.version,
        total_order(a, b) == Ordering::Less && total_order(b, c) == Ordering::Less ==> total_order(
            a,
            c,
        ) == Ordering::Less,
{
    crate::ide::lemma_rank_round_trip(a.ide);
    crate::ide::lemma_rank_round_trip(b.ide);
    lemma_rank_injective(a.ide, b.ide);
    lemma_rank_injective(b.ide, c.ide);
    lemma_rank_injective(a.ide, c.ide);
}

/// Two families at one position of the declaration order are the same.
pub proof fn lemma_rank_injective(a: Ide, b: Ide)
    ensures
        a.rank() == b.rank() ==> a == b,
{
}

} // verus!
