//! The set of GPU copies of a mesh that are out of date.
use vstd::prelude::*;

verus! {

/// The vertex buffer must be uploaded again.
pub const DIRTY_VERTEX: u32 = 0b0001;

/// The wireframe edges must be uploaded again.
pub const DIRTY_EDGE: u32 = 0b0010;

/// The faces must be uploaded again.
pub const DIRTY_FACE: u32 = 0b0100;

/// The material uniform must be uploaded again.
pub const DIRTY_MATERIAL: u32 = 0b1000;

/// Every flag above.
pub const DIRTY_ALL: u32 = 0b1111;

pub open spec fn is_flag(flag: u32) -> bool {
    flag == DIRTY_VERTEX || flag == DIRTY_EDGE || flag == DIRTY_FACE || flag == DIRTY_MATERIAL
}

/// A bit set over the four dirty flags.
#[derive(Clone, Copy, Debug, PartialEq, Eq, Structural)]
pub struct DirtyFlags {
    pub bits: u32,
}

impl DirtyFlags {
    pub open spec fn has(self, flag: u32) -> bool {
        self.bits & flag == flag
    }

    pub open spec fn with(self, flag: u32) -> DirtyFlags {
        DirtyFlags { bits: self.bits | flag }
    }

    pub open spec fn without(self, flag: u32) -> DirtyFlags {
        DirtyFlags { bits: self.bits & !flag }
    }

    pub fn none() -> (r: DirtyFlags)
        ensures
            forall|f: u32| is_flag(f) ==> !(#[trigger] r.has(f)),
    {
        let r = DirtyFlags { bits: 0 };
        assert forall|f: u32| is_flag(f) implies !(#[trigger] r.has(f)) by {
            assert(0u32 & 1u32 != 1u32 && 0u32 & 2u32 != 2u32) by (bit_vector);
            assert(0u32 & 4u32 != 4u32 && 0u32 & 8u32 != 8u32) by (bit_vector);
        }
        r
    }

    pub fn all() -> (r: DirtyFlags)
        ensures
            r.bits == DIRTY_ALL,
            forall|f: u32| is_flag(f) ==> #[trigger] r.has(f),
    {
        let r = DirtyFlags { bits: DIRTY_ALL };
        assert forall|f: u32| is_flag(f) implies #[trigger] r.has(f) by {
            assert(15u32 & 1u32 == 1u32 && 15u32 & 2u32 == 2u32) by (bit_vector);
            assert(15u32 & 4u32 == 4u32 && 15u32 & 8u32 == 8u32) by (bit_vector);
        }
        r
    }

    pub fn contains(&self, flag: u32) -> (r: bool)
        ensures
            r == self.has(flag),
    {
        self.bits & flag == flag
    }

    pub fn insert(&mut self, flag: u32)
        requires
            is_flag(flag),
        ensures
            *final(self) == old(self).with(flag),
            final(self).has(flag),
            forall|f: u32| is_flag(f) && f != flag ==> (#[trigger] final(self).has(f) == old(self).has(f)),
    {
        let ghost before = *self;
        self.bits = self.bits | flag;
        proof { lemma_with(before.bits, flag); }
    }

    pub fn remove(&mut self, flag: u32)
        requires
            is_flag(flag),
        ensures
            *final(self) == old(self).without(flag),
            !final(self).has(flag),
            forall|f: u32| is_flag(f) && f != flag ==> (#[trigger] final(self).has(f) == old(self).has(f)),
    {
        let ghost before = *self;
        self.bits = self.bits & !flag;
        proof { lemma_without(before.bits, flag); }
    }
}

pub proof fn lemma_with(bits: u32, flag: u32)
    requires
        is_flag(flag),
    ensures
        (bits | flag) & flag == flag,
        forall|f: u32| is_flag(f) && f != flag ==> (#[trigger] ((bits | flag) & f) == f) == (bits & f == f),
{
    assert(forall|b: u32, x: u32, y: u32|
        #![trigger (b | x) & y]
        (x == 1u32 || x == 2u32 || x == 4u32 || x == 8u32) && (y == 1u32 || y == 2u32 || y == 4u32 || y == 8u32) && x != y ==> ((((b | x) & y) == y) == ((b & y) == y))) by (bit_vector);
    assert(forall|b: u32, x: u32| #![trigger (b | x) & x] (b | x) & x == x) by (bit_vector);
}

pub proof fn lemma_without(bits: u32, flag: u32)
    requires
        is_flag(flag),
    ensures
        (bits & !flag) & flag != flag,
        forall|f: u32| is_flag(f) && f != flag ==> (#[trigger] ((bits & !flag) & f) == f) == (bits & f == f),
{
    assert(forall|b: u32, x: u32, y: u32|
        #![trigger (b & !x) & y]
        (x == 1u32 || x == 2u32 || x == 4u32 || x == 8u32) && (y == 1u32 || y == 2u32 || y == 4u32 || y == 8u32) && x != y ==> ((((b & !x) & y) == y) == ((b & y) == y))) by (bit_vector);
    assert(forall|b: u32, x: u32| #![trigger (b & !x) & x] (x == 1u32 || x == 2u32 || x == 4u32 || x == 8u32) ==> (b & !x) & x != x) by (bit_vector);
}

} // verus!
