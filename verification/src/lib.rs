//! Hexagonal-grid utilities for roguelike games: a symmetric shadow-casting
//! field-of-view scan over concentric hex rings, terrain-kernel shaping for
//! renderers, coordinate-space projections and small numeric helpers.

use vstd::prelude::*;
use vstd::std_specs::cmp::PartialOrdSpec;

pub mod hex;
pub mod hex_fov;
pub mod intmath;
pub mod kernel;
pub mod rng;
pub mod space;

verus! {

/// Clamp a value to range: below `mn` becomes `mn`, above `mx` becomes
/// `mx`.
pub fn clamp<C: PartialOrd + Copy>(mn: C, mx: C, x: C) -> (r: C)
    ensures
        C::obeys_partial_cmp_spec() ==> r == (if x.partial_cmp_spec(&mn) == Some(
            core::cmp::Ordering::Less,
        ) {
            mn
        } else if x.partial_cmp_spec(&mx) == Some(core::cmp::Ordering::Greater) {
            mx
        } else {
            x
        }),
{
    if x < mn {
        mn
    } else if x > mx {
        mx
    } else {
        x
    }
}

/// The integer heart of the deterministic noise function: a bit-mixing
/// polynomial in wrapping 32-bit arithmetic, masked to 31 bits.
pub open spec fn noise_bits_spec(n: u32) -> u32 {
    let h = vstd::wrapping::u32_specs::wrapping_shl(n, 13) ^ n;
    let m = vstd::wrapping::u32_specs::wrapping_add(
        vstd::wrapping::u32_specs::wrapping_mul(
            h,
            vstd::wrapping::u32_specs::wrapping_add(
                vstd::wrapping::u32_specs::wrapping_mul(
                    vstd::wrapping::u32_specs::wrapping_mul(h, h),
                    15731u32,
                ),
                789221u32,
            ),
        ),
        1376312589u32,
    );
    m & 0x7fff_ffffu32
}

/// Deterministic noise, integer part: scrambles `n` into a value in
/// `[0, 2^31)`.
///
/// The noise value itself is `1 - bits / 2^30`, which lands in
/// `[-1, 1]`; computing that quotient is left to the (floating-point)
/// caller.
pub fn noise_bits(n: i32) -> (m: u32)
    ensures
        m == noise_bits_spec(n as u32),
        m < 0x8000_0000u32,
{
    let u = #[verifier::truncate] (n as u32);
    let h = u.wrapping_shl(13) ^ u;
    let m = h.wrapping_mul(h.wrapping_mul(h).wrapping_mul(15731).wrapping_add(789221))
        .wrapping_add(1376312589);
    let r = m & 0x7fff_ffff;
    proof {
        assert(m & 0x7fff_ffffu32 < 0x8000_0000u32) by (bit_vector);
    }
    r
}

/// Rectangle anchoring points.
#[derive(Copy, Clone, PartialEq, Debug)]
pub enum Anchor {
    TopLeft,
    TopRight,
    BottomLeft,
    BottomRight,
    Top,
    Left,
    Right,
    Bottom,
    Center,
}

} // verus!
