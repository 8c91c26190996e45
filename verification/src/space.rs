//! The default cell coordinate space for game maps, and projections
//! between it and user-defined spaces.

use vstd::prelude::*;

verus! {

/// An integer 2D vector in `CellSpace`, the grid's native coordinate space.
///
/// For hex maps the convention is that the positive x-axis points to the
/// southeast neighbor hex and the positive y-axis to the southwest one.
#[derive(Clone, Copy, PartialEq, Eq, Hash, Debug, Structural)]
pub struct CellVector {
    pub x: i32,
    pub y: i32,
}

impl CellVector {
    /// Build the vector `(x, y)`.
    pub fn new(x: i32, y: i32) -> (v: CellVector)
        ensures
            v.x == x,
            v.y == y,
    {
        CellVector { x, y }
    }

    /// Componentwise sum of two vectors.
    pub fn plus(self, other: CellVector) -> (v: CellVector)
        requires
            -0x4000_0000 <= self.x + other.x <= 0x4000_0000,
            -0x4000_0000 <= self.y + other.y <= 0x4000_0000,
        ensures
            v.x == self.x + other.x,
            v.y == self.y + other.y,
    {
        CellVector { x: self.x + other.x, y: self.y + other.y }
    }
}

/// Unit tag for the internal default space that other projections
/// transform to and from.
pub struct CellSpace;

/// A transformation between a user space and `CellSpace`.
///
/// An implementation describes its own projection with the two spec
/// functions and must compute exactly them.
pub trait Transformation {
    type Element;

    /// The value `unproject` is required to return.
    spec fn unproject_spec(v: CellVector) -> [Self::Element; 2];

    /// The value `project` is required to return.
    spec fn project_spec(v: [Self::Element; 2]) -> CellVector;

    /// Transform `CellSpace` coordinates to this space.
    fn unproject(v: CellVector) -> (r: [Self::Element; 2])
        ensures
            r == Self::unproject_spec(v),
    ;

    /// Transform coordinates of this space to `CellSpace`.
    fn project(v: [Self::Element; 2]) -> (r: CellVector)
        ensures
            r == Self::project_spec(v),
    ;
}

impl Transformation for CellSpace {
    type Element = i32;

    open spec fn unproject_spec(v: CellVector) -> [i32; 2] {
        [v.x, v.y]
    }

    open spec fn project_spec(v: [i32; 2]) -> CellVector {
        CellVector { x: v[0], y: v[1] }
    }

    fn unproject(v: CellVector) -> (r: [i32; 2]) {
        [v.x, v.y]
    }

    fn project(v: [i32; 2]) -> (r: CellVector) {
        CellVector { x: v[0], y: v[1] }
    }
}

/// Projection from a different space into `CellSpace`.
pub trait Space: Sized {
    /// Project from local space to `CellSpace`.
    fn to_cell_space(self) -> CellVector;

    /// Project from `CellSpace` to local space.
    fn from_cell_space(cell: CellVector) -> Self;
}

impl Space for CellVector {
    fn to_cell_space(self) -> (r: CellVector) {
        self
    }

    fn from_cell_space(cell: CellVector) -> (r: CellVector) {
        cell
    }
}

} // verus!
