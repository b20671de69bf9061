//! Camera interaction state: mouse drags and the zoom multiplier.
use vstd::prelude::*;

use crate::geometry::F32x4;
use crate::ieee::{f32_is_nan, f32_key, f32_max, f64_is_nan, f64_key, max_f32, sign_f64, F32_TENTH_BITS};

verus! {

/// Two double-precision values, by their bit patterns: a cursor position.
#[derive(Clone, Copy, Debug, PartialEq, Eq, Structural)]
pub struct F64x2 {
    pub x: u64,
    pub y: u64,
}

/// Where a left drag started: the cursor position and the trackball
/// orientation at that moment.
#[derive(Clone, Copy, Debug, PartialEq, Eq, Structural)]
pub struct Anchor {
    pub pos: F64x2,
    pub orientation: F32x4,
}

/// The mouse buttons held down; an anchor is taken on the first move.
#[derive(Clone, Copy, Debug, PartialEq, Eq, Structural)]
pub enum DragState {
    Idle,
    Left(Option<Anchor>),
    Right(Option<F64x2>),
}

/// What a scroll does to the zoom.
#[derive(Clone, Copy, Debug, PartialEq, Eq, Structural)]
pub enum ZoomStep {
    /// Multiply the zoom by 1.05.
    In,
    /// Divide the zoom by 1.05.
    Out,
    /// Leave the zoom as it is.
    Hold,
}

/// The drag state after the cursor moved to `pos` while the trackball
/// had orientation `orientation`.
pub open spec fn drag_moved(d: DragState, pos: F64x2, orientation: F32x4) -> DragState {
    match d {
        DragState::Left(None) => DragState::Left(Some(Anchor { pos, orientation })),
        DragState::Right(None) => DragState::Right(Some(pos)),
        _ => d,
    }
}

/// The anchor to rotate from after that move: only a left drag rotates.
pub open spec fn drag_anchor(d: DragState, pos: F64x2, orientation: F32x4) -> Option<Anchor> {
    match drag_moved(d, pos, orientation) {
        DragState::Left(a) => a,
        _ => None,
    }
}

/// Positive deltas zoom in, negative ones and NaN zoom out, zero holds.
pub open spec fn zoom_step(delta: u64) -> ZoomStep {
    if f64_is_nan(delta) {
        ZoomStep::Out
    } else if f64_key(delta) > 0 {
        ZoomStep::In
    } else if f64_key(delta) < 0 {
        ZoomStep::Out
    } else {
        ZoomStep::Hold
    }
}

/// The zoom kept for a requested one: never below 0.1 (a NaN gives 0.1).
pub open spec fn clamped_zoom(z: u32) -> u32 {
    f32_max(z, F32_TENTH_BITS)
}

/// A zoom value that respects the floor.
pub open spec fn zoom_ok(z: u32) -> bool {
    !f32_is_nan(z) && f32_key(z) >= f32_key(F32_TENTH_BITS)
}

pub fn zoom_step_of(delta: u64) -> (r: ZoomStep)
    ensures
        r == zoom_step(delta),
{
    match sign_f64(delta) {
        None => ZoomStep::Out,
        Some(s) => if s > 0 {
            ZoomStep::In
        } else if s < 0 {
            ZoomStep::Out
        } else {
            ZoomStep::Hold
        },
    }
}

pub fn clamp_zoom(z: u32) -> (r: u32)
    ensures
        r == clamped_zoom(z),
        zoom_ok(r),
{
    let r = max_f32(z, F32_TENTH_BITS);
    assert(!f32_is_nan(F32_TENTH_BITS)) by (bit_vector);
    r
}

} // verus!

verus! {

/// A left press after a release anchors the drag, on the first move, at
/// that moment's orientation, whatever drag came before; later moves of the
/// same drag rotate from that anchor, never from the current orientation.
pub proof fn lemma_press_reanchors(orientation: F32x4, pos: F64x2, later: F64x2, turned: F32x4)
    ensures
        ({
            let released = DragState::Idle;
            let pressed = DragState::Left(None);
            let anchor = Anchor { pos, orientation };
            &&& drag_anchor(released, pos, orientation) is None
            &&& drag_anchor(pressed, pos, orientation) == Some(anchor)
            &&& drag_anchor(drag_moved(pressed, pos, orientation), later, turned) == Some(anchor)
        }),
{
}

/// The zoom kept is never below 0.1, and a zoom at or above the floor is
/// kept as it is.
pub proof fn lemma_zoom_floor(z: u32)
    ensures
        zoom_ok(clamped_zoom(z)),
        zoom_ok(z) ==> clamped_zoom(z) == z,
{
    assert(!f32_is_nan(F32_TENTH_BITS)) by (bit_vector);
}

} // verus!
