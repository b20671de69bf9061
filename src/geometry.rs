//! Points, flat-shaded vertices and axis-aligned bounding boxes.
use vstd::prelude::*;

use crate::ieee::{f32_max, f32_min, max_f32, min_f32, F32_MAX_BITS, F32_MIN_BITS};

verus! {

/// Three single-precision values, by their bit patterns.
#[derive(Clone, Copy, Debug, PartialEq, Eq, Structural)]
pub struct F32x3 {
    pub x: u32,
    pub y: u32,
    pub z: u32,
}

/// Four single-precision values, by their bit patterns: a colour
/// `(r, g, b, a)`, or a quaternion with its scalar part in `x` and its
/// vector part in `y`, `z`, `w`.
#[derive(Clone, Copy, Debug, PartialEq, Eq, Structural)]
pub struct F32x4 {
    pub x: u32,
    pub y: u32,
    pub z: u32,
    pub w: u32,
}

/// One corner of a flat-shaded triangle: its position and the face normal.
#[derive(Clone, Copy, Debug, PartialEq, Eq, Structural)]
pub struct Vertex {
    pub point: F32x3,
    pub normal: F32x3,
}

/// An axis-aligned box. The empty box has `min` at the largest finite value
/// and `max` at the lowest, so that any point merged into it becomes both.
#[derive(Clone, Copy, Debug, PartialEq, Eq, Structural)]
pub struct BBox {
    pub min: F32x3,
    pub max: F32x3,
}

pub open spec fn min3(a: F32x3, b: F32x3) -> F32x3 {
    F32x3 { x: f32_min(a.x, b.x), y: f32_min(a.y, b.y), z: f32_min(a.z, b.z) }
}

pub open spec fn max3(a: F32x3, b: F32x3) -> F32x3 {
    F32x3 { x: f32_max(a.x, b.x), y: f32_max(a.y, b.y), z: f32_max(a.z, b.z) }
}

pub open spec fn empty_box() -> BBox {
    BBox {
        min: F32x3 { x: F32_MAX_BITS, y: F32_MAX_BITS, z: F32_MAX_BITS },
        max: F32x3 { x: F32_MIN_BITS, y: F32_MIN_BITS, z: F32_MIN_BITS },
    }
}

/// The box grown to hold the point `p`.
pub open spec fn box_with_point(b: BBox, p: F32x3) -> BBox {
    BBox { min: min3(b.min, p), max: max3(b.max, p) }
}

/// The smallest box holding both boxes.
pub open spec fn box_union(a: BBox, b: BBox) -> BBox {
    BBox { min: min3(a.min, b.min), max: max3(a.max, b.max) }
}

/// The box of the positions of `vs`, merged one by one into the empty box.
pub open spec fn points_box(vs: Seq<Vertex>) -> BBox
    decreases vs.len(),
{
    if vs.len() == 0 {
        empty_box()
    } else {
        box_with_point(points_box(vs.drop_last()), vs.last().point)
    }
}

fn min3_exec(a: F32x3, b: F32x3) -> (r: F32x3)
    ensures
        r == min3(a, b),
{
    F32x3 { x: min_f32(a.x, b.x), y: min_f32(a.y, b.y), z: min_f32(a.z, b.z) }
}

fn max3_exec(a: F32x3, b: F32x3) -> (r: F32x3)
    ensures
        r == max3(a, b),
{
    F32x3 { x: max_f32(a.x, b.x), y: max_f32(a.y, b.y), z: max_f32(a.z, b.z) }
}

impl BBox {
    pub fn empty() -> (r: BBox)
        ensures
            r == empty_box(),
    {
        BBox {
            min: F32x3 { x: F32_MAX_BITS, y: F32_MAX_BITS, z: F32_MAX_BITS },
            max: F32x3 { x: F32_MIN_BITS, y: F32_MIN_BITS, z: F32_MIN_BITS },
        }
    }

    /// Grows the box to hold `point`.
    pub fn merge(&mut self, point: &F32x3)
        ensures
            *final(self) == box_with_point(*old(self), *point),
    {
        self.min = min3_exec(self.min, *point);
        self.max = max3_exec(self.max, *point);
    }

    /// Grows the box to hold `other`.
    pub fn merge_box(&mut self, other: &BBox)
        ensures
            *final(self) == box_union(*old(self), *other),
    {
        self.min = min3_exec(self.min, other.min);
        self.max = max3_exec(self.max, other.max);
    }
}

impl Default for BBox {
    fn default() -> (r: BBox)
        ensures
            r == empty_box(),
    {
        BBox::empty()
    }
}

/// The bounding box of the positions of `vertices`.
pub fn box_from_points(vertices: &Vec<Vertex>) -> (r: BBox)
    ensures
        r == points_box(vertices@),
{
    let mut b = BBox::empty();
    let mut i: usize = 0;
    while i < vertices.len()
        invariant
            i <= vertices.len(),
            b == points_box(vertices@.take(i as int)),
        decreases vertices.len() - i,
    {
        assert(vertices@.take(i as int + 1).drop_last() =~= vertices@.take(i as int));
        b.merge(&vertices[i].point);
        i += 1;
    }
    assert(vertices@.take(i as int) =~= vertices@);
    b
}

} // verus!
