//! Hex direction vectors and hex distance on the cell grid.
//!
//! A hex ring of radius `r` is divided into six sextants; each sextant has
//! a dominant "rod" direction pointing at its first cell and a "tangent"
//! direction, two sextants ahead, along which the sextant's edge runs.

use crate::space::CellVector;
use vstd::prelude::*;

verus! {

/// The unit vector of hex direction `i`, taken modulo six.
///
/// Directions run clockwise from north: north, northeast, southeast,
/// south, southwest, northwest.
pub open spec fn dir6_vec(i: int) -> CellVector {
    let k = i % 6;
    if k == 0 {
        CellVector { x: -1i32, y: -1i32 }
    } else if k == 1 {
        CellVector { x: 0i32, y: -1i32 }
    } else if k == 2 {
        CellVector { x: 1i32, y: 0i32 }
    } else if k == 3 {
        CellVector { x: 1i32, y: 1i32 }
    } else if k == 4 {
        CellVector { x: 0i32, y: 1i32 }
    } else {
        CellVector { x: -1i32, y: 0i32 }
    }
}

/// The unit vector of hex direction `i` (wrapping modulo six).
pub fn dir6_vector(i: i64) -> (v: CellVector)
    ensures
        v == dir6_vec(i as int),
{
    let k = crate::intmath::floor_mod_i64(i, 6);
    if k == 0 {
        CellVector { x: -1, y: -1 }
    } else if k == 1 {
        CellVector { x: 0, y: -1 }
    } else if k == 2 {
        CellVector { x: 1, y: 0 }
    } else if k == 3 {
        CellVector { x: 1, y: 1 }
    } else if k == 4 {
        CellVector { x: 0, y: 1 }
    } else {
        CellVector { x: -1, y: 0 }
    }
}

/// Hex distance of `v` from the origin: when both components point into
/// the same half of the plane the longer one dominates, otherwise the
/// components add up.
pub open spec fn hex_dist_spec(v: CellVector) -> int {
    let x = v.x as int;
    let y = v.y as int;
    if x * y > 0 {
        vstd::math::max(vstd::math::abs(x) as int, vstd::math::abs(y) as int)
    } else {
        vstd::math::abs(x) as int + vstd::math::abs(y) as int
    }
}

/// Hex distance of `v` from the origin.
pub fn hex_dist(v: CellVector) -> (d: i32)
    requires
        -0x3fff_ffff <= v.x <= 0x3fff_ffff,
        -0x3fff_ffff <= v.y <= 0x3fff_ffff,
    ensures
        d == hex_dist_spec(v),
{
    let x = v.x;
    let y = v.y;
    proof {
        assert(-0x1000_0000_0000_0000 <= (x as int) * (y as int) <= 0x1000_0000_0000_0000)
            by (nonlinear_arith)
            requires -0x3fff_ffff <= x <= 0x3fff_ffff && -0x3fff_ffff <= y <= 0x3fff_ffff
        ;
    }
    let same_sign = (x as i64) * (y as i64) > 0;
    let ax = if x < 0 {
        -x
    } else {
        x
    };
    let ay = if y < 0 {
        -y
    } else {
        y
    };
    if same_sign {
        if ax > ay {
            ax
        } else {
            ay
        }
    } else {
        ax + ay
    }
}

} // verus!
