//! Exact comparisons of IEEE-754 values given by their bit patterns.
//!
//! For every value that is not a NaN, `order_key` maps the bit pattern to an
//! integer such that the numeric order of the values is the order of the
//! keys; `-0.0` and `+0.0` share the key 0.
use vstd::prelude::*;

verus! {

/// Bit pattern of the largest finite single-precision value.
pub const F32_MAX_BITS: u32 = 0x7f7f_ffff;

/// Bit pattern of the lowest finite single-precision value.
pub const F32_MIN_BITS: u32 = 0xff7f_ffff;

/// Bit pattern of the single-precision value `0.1`.
pub const F32_TENTH_BITS: u32 = 0x3dcc_cccd;

/// Bit pattern of the single-precision value `1.0`.
pub const F32_ONE_BITS: u32 = 0x3f80_0000;

/// Bit pattern of the single-precision value `0.999`.
pub const F32_OPAQUE_ALPHA_BITS: u32 = 0x3f7f_be77;

pub open spec fn f32_is_nan(b: u32) -> bool {
    (b & 0x7fff_ffff) > 0x7f80_0000
}

pub open spec fn f32_key(b: u32) -> int {
    if b & 0x8000_0000 != 0 {
        -((b & 0x7fff_ffff) as int)
    } else {
        (b & 0x7fff_ffff) as int
    }
}

/// `a < b` on two single-precision values (false when either is a NaN).
pub open spec fn f32_lt(a: u32, b: u32) -> bool {
    !f32_is_nan(a) && !f32_is_nan(b) && f32_key(a) < f32_key(b)
}

/// `a.min(b)`: a NaN operand yields the other one.
pub open spec fn f32_min(a: u32, b: u32) -> u32 {
    if f32_is_nan(a) {
        b
    } else if f32_is_nan(b) {
        a
    } else if f32_key(b) < f32_key(a) {
        b
    } else {
        a
    }
}

/// `a.max(b)`: a NaN operand yields the other one.
pub open spec fn f32_max(a: u32, b: u32) -> u32 {
    if f32_is_nan(a) {
        b
    } else if f32_is_nan(b) {
        a
    } else if f32_key(a) < f32_key(b) {
        b
    } else {
        a
    }
}

pub open spec fn f64_is_nan(b: u64) -> bool {
    (b & 0x7fff_ffff_ffff_ffff) > 0x7ff0_0000_0000_0000
}

pub open spec fn f64_key(b: u64) -> int {
    if b & 0x8000_0000_0000_0000 != 0 {
        -((b & 0x7fff_ffff_ffff_ffff) as int)
    } else {
        (b & 0x7fff_ffff_ffff_ffff) as int
    }
}

pub fn is_nan_f32(b: u32) -> (r: bool)
    ensures
        r == f32_is_nan(b),
{
    (b & 0x7fff_ffff) > 0x7f80_0000
}

fn key_f32(b: u32) -> (r: i64)
    ensures
        r == f32_key(b),
{
    let magnitude: u32 = b & 0x7fff_ffff;
    if b & 0x8000_0000 != 0 {
        -(magnitude as i64)
    } else {
        magnitude as i64
    }
}

pub fn lt_f32(a: u32, b: u32) -> (r: bool)
    ensures
        r == f32_lt(a, b),
{
    !is_nan_f32(a) && !is_nan_f32(b) && key_f32(a) < key_f32(b)
}

pub fn min_f32(a: u32, b: u32) -> (r: u32)
    ensures
        r == f32_min(a, b),
{
    if is_nan_f32(a) {
        b
    } else if is_nan_f32(b) {
        a
    } else if key_f32(b) < key_f32(a) {
        b
    } else {
        a
    }
}

pub fn max_f32(a: u32, b: u32) -> (r: u32)
    ensures
        r == f32_max(a, b),
{
    if is_nan_f32(a) {
        b
    } else if is_nan_f32(b) {
        a
    } else if key_f32(a) < key_f32(b) {
        b
    } else {
        a
    }
}

pub fn is_nan_f64(b: u64) -> (r: bool)
    ensures
        r == f64_is_nan(b),
{
    (b & 0x7fff_ffff_ffff_ffff) > 0x7ff0_0000_0000_0000
}

/// The sign of a double-precision value: -1, 0 or 1; `None` for a NaN.
pub fn sign_f64(b: u64) -> (r: Option<i8>)
    ensures
        f64_is_nan(b) <==> r is None,
        !f64_is_nan(b) ==> r == Some(
            if f64_key(b) > 0 { 1i8 } else if f64_key(b) < 0 { -1i8 } else { 0i8 },
        ),
{
    if is_nan_f64(b) {
        return None;
    }
    let magnitude: u64 = b & 0x7fff_ffff_ffff_ffff;
    if magnitude == 0 {
        Some(0)
    } else if b & 0x8000_0000_0000_0000 != 0 {
        Some(-1)
    } else {
        Some(1)
    }
}

} // verus!
