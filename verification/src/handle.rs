use vstd::prelude::*;

verus! {

/// A generational handle into a slot store: the slot's index and the
/// generation that the slot had when the handle was issued.
#[derive(Clone, Copy, PartialEq, Eq, Structural, Debug, Default)]
pub struct Handle {
    pub index: u32,
    pub generation: u32,
}

impl Handle {
    /// A handle for slot `index` in generation `generation`.
    pub fn new(index: u32, generation: u32) -> (h: Handle)
        ensures
            h.index == index,
            h.generation == generation,
    {
        Handle { index, generation }
    }

    /// A placeholder handle pointing at the last possible slot, generation 0.
    pub fn dummy() -> (h: Handle)
        ensures
            h.index == u32::MAX,
            h.generation == 0,
    {
        Handle { index: u32::MAX, generation: 0 }
    }

    /// The handle as one sort key: the index in the high half, the
    /// generation in the low half.
    pub fn key(&self) -> (k: u64)
        ensures
            k == handle_key(*self),
    {
        let i = self.index as u64;
        let g = self.generation as u64;
        assert(i * 4294967296 + g <= u64::MAX) by (nonlinear_arith)
            requires
                i <= 4294967295,
                g <= 4294967295,
        ;
        i * 4294967296 + g
    }
}

/// The sort key of a handle.
pub open spec fn handle_key(h: Handle) -> int {
    h.index * 4294967296 + h.generation
}

/// Handles compare by their keys as they do by (index, generation) in
/// lexicographic order, and two handles with one key are the same handle.
pub proof fn lemma_key_orders_lexicographically(a: Handle, b: Handle)
    ensures
        handle_key(a) < handle_key(b) <==> (a.index < b.index || (a.index == b.index
            && a.generation < b.generation)),
        handle_key(a) == handle_key(b) <==> a == b,
{
    let ai = a.index as int;
    let bi = b.index as int;
    let ag = a.generation as int;
    let bg = b.generation as int;
    if ai < bi {
        assert(ai * 4294967296 + ag < bi * 4294967296 + bg) by (nonlinear_arith)
            requires
                ai < bi,
                0 <= ag < 4294967296,
                0 <= bg < 4294967296,
        ;
    } else if bi < ai {
        assert(bi * 4294967296 + bg < ai * 4294967296 + ag) by (nonlinear_arith)
            requires
                bi < ai,
                0 <= ag < 4294967296,
                0 <= bg < 4294967296,
        ;
    }
}

} // verus!
