//! The entity handle type stored by the container.

use vstd::prelude::*;

verus! {

/// A lightweight handle identifying another node in the hierarchy: an index
/// paired with a generation counter that distinguishes reuses of the same
/// index. The container only stores and rearranges handles; it never owns or
/// dereferences the entities they identify.
#[derive(Clone, Copy, PartialEq, Eq, Structural, Debug, Hash)]
pub struct Entity {
    pub index: u32,
    pub generation: u32,
}

impl Entity {
    /// Builds the handle with the given index and generation.
    pub fn new(index: u32, generation: u32) -> (e: Entity)
        ensures
            e.index == index,
            e.generation == generation,
    {
        Entity { index, generation }
    }

    /// The canonical total order key of a handle: index first, generation
    /// second. Distinct handles always have distinct keys.
    pub open spec fn spec_key(self) -> u64 {
        ((self.index as u64) * 0x1_0000_0000 + (self.generation as u64)) as u64
    }

    /// Computes the canonical order key of this handle.
    pub fn key(self) -> (k: u64)
        ensures
            k == self.spec_key(),
    {
        (self.index as u64) * 0x1_0000_0000 + (self.generation as u64)
    }
}

/// The canonical order key identifies the handle: two handles with the same
/// key are the same handle.
pub proof fn lemma_key_injective(a: Entity, b: Entity)
    requires
        a.spec_key() == b.spec_key(),
    ensures
        a == b,
{
    assert(a.index == b.index && a.generation == b.generation) by (nonlinear_arith)
        requires
            (a.index as u64) * 0x1_0000_0000 + (a.generation as u64) == (b.index as u64)
                * 0x1_0000_0000 + (b.generation as u64),
            a.generation < 0x1_0000_0000,
            b.generation < 0x1_0000_0000,
    ;
}

} // verus!
