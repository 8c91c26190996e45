//! 3x3 terrain kernels for tile rendering.

use crate::space::CellVector;
use vstd::prelude::*;

verus! {

/// Shaping properties for hex terrain cells.
///
/// The two spec functions name what the executable methods return, so
/// that kernel queries can be stated exactly; an implementation must
/// compute exactly them.
pub trait KernelTerrain: Sized {
    /// The value `is_wall` is required to return.
    spec fn wall_spec(&self) -> bool;

    /// The value `is_block` is required to return.
    spec fn block_spec(&self) -> bool;

    /// Terrain is a wall with thin, shaped pieces along the `(1, 0)` and
    /// `(0, 1)` hex axes.
    fn is_wall(&self) -> (r: bool)
        ensures
            r == self.wall_spec(),
    ;

    /// Terrain is a solid block that fills the entire hex.
    fn is_block(&self) -> (r: bool)
        ensures
            r == self.block_spec(),
    ;

    /// Terrain is either a wall or a block.
    fn is_hull(&self) -> (r: bool)
        ensures
            r == (self.wall_spec() || self.block_spec()),
    {
        self.is_wall() || self.is_block()
    }
}

/// 3x3 grid of terrain cells.
///
/// Use this as the input for terrain tile computation, which will need
/// to consider the immediate vicinity of cells.
pub struct Kernel<C> {
    pub n: C,
    pub ne: C,
    pub e: C,
    pub nw: C,
    pub center: C,
    pub se: C,
    pub w: C,
    pub sw: C,
    pub s: C,
}

impl<C: KernelTerrain> Kernel<C> {
    /// Sample the 3x3 neighborhood of `loc` through `get`.
    ///
    /// Each field holds what `get` returned for the matching neighbor
    /// cell.
    pub fn new<F: Fn(CellVector) -> C>(get: F, loc: CellVector) -> (k: Kernel<C>)
        requires
            -0x4000_0000 <= loc.x <= 0x4000_0000,
            -0x4000_0000 <= loc.y <= 0x4000_0000,
            forall|v: CellVector|
                loc.x - 1 <= v.x <= loc.x + 1 && loc.y - 1 <= v.y <= loc.y + 1 ==> call_requires(
                    get,
                    (v,),
                ),
        ensures
            call_ensures(get, (CellVector { x: (loc.x - 1) as i32, y: (loc.y - 1) as i32 },), k.n),
            call_ensures(get, (CellVector { x: loc.x, y: (loc.y - 1) as i32 },), k.ne),
            call_ensures(get, (CellVector { x: (loc.x + 1) as i32, y: (loc.y - 1) as i32 },), k.e),
            call_ensures(get, (CellVector { x: (loc.x - 1) as i32, y: loc.y },), k.nw),
            call_ensures(get, (loc,), k.center),
            call_ensures(get, (CellVector { x: (loc.x + 1) as i32, y: loc.y },), k.se),
            call_ensures(get, (CellVector { x: (loc.x - 1) as i32, y: (loc.y + 1) as i32 },), k.w),
            call_ensures(get, (CellVector { x: loc.x, y: (loc.y + 1) as i32 },), k.sw),
            call_ensures(get, (CellVector { x: (loc.x + 1) as i32, y: (loc.y + 1) as i32 },), k.s),
    {
        Kernel {
            n: get(CellVector { x: loc.x - 1, y: loc.y - 1 }),
            ne: get(CellVector { x: loc.x, y: loc.y - 1 }),
            e: get(CellVector { x: loc.x + 1, y: loc.y - 1 }),
            nw: get(CellVector { x: loc.x - 1, y: loc.y }),
            center: get(CellVector { x: loc.x, y: loc.y }),
            se: get(CellVector { x: loc.x + 1, y: loc.y }),
            w: get(CellVector { x: loc.x - 1, y: loc.y + 1 }),
            sw: get(CellVector { x: loc.x, y: loc.y + 1 }),
            s: get(CellVector { x: loc.x + 1, y: loc.y + 1 }),
        }
    }

    /// Each flag is true if the matching (left, right) half of a wall
    /// should be extended.
    pub fn wall_extends(&self) -> (r: [bool; 2])
        ensures
            r[0] == self.nw.wall_spec(),
            r[1] == self.ne.wall_spec(),
    {
        [self.nw.is_wall(), self.ne.is_wall()]
    }

    /// Each flag is true if the n/ne/se/s/sw/nw face of a block is
    /// facing open air.
    ///
    /// Because they work a bit differently visually, back-side faces are
    /// not drawn if there is any hull touching; the front is only not
    /// drawn if there is another block.
    pub fn block_faces(&self) -> (r: [bool; 6])
        ensures
            r[0] == !(self.n.wall_spec() || self.n.block_spec()),
            r[1] == !(self.ne.wall_spec() || self.ne.block_spec()),
            r[2] == !self.se.block_spec(),
            r[3] == !self.s.block_spec(),
            r[4] == !self.sw.block_spec(),
            r[5] == !(self.nw.wall_spec() || self.nw.block_spec()),
    {
        [
            !self.n.is_hull(),
            !self.ne.is_hull(),
            !self.se.is_block(),
            !self.s.is_block(),
            !self.sw.is_block(),
            !self.nw.is_hull(),
        ]
    }
}

} // verus!
