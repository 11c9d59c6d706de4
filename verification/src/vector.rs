//! Integer lattice vectors used by the world-collision generator.
use vstd::prelude::*;

verus! {

/// A point or offset on the integer lattice.
#[derive(Clone, Copy, Debug, PartialEq, Eq, Structural)]
pub struct IVec2 {
    pub x: i32,
    pub y: i32,
}

/// A cell position in a grid.
#[derive(Clone, Copy, Debug, PartialEq, Eq, Structural)]
pub struct UVec2 {
    pub x: u32,
    pub y: u32,
}

impl IVec2 {
    pub fn new(x: i32, y: i32) -> (v: IVec2)
        ensures
            v.x == x,
            v.y == y,
    {
        IVec2 { x, y }
    }
}

impl UVec2 {
    pub fn new(x: u32, y: u32) -> (v: UVec2)
        ensures
            v.x == x,
            v.y == y,
    {
        UVec2 { x, y }
    }
}

/// The lattice point with the given integer coordinates.
pub open spec fn ivec(x: int, y: int) -> IVec2 {
    IVec2 { x: x as i32, y: y as i32 }
}

/// The sequences held by a vector of lattice polygons.
pub open spec fn polys_view(v: Seq<Vec<IVec2>>) -> Seq<Seq<IVec2>> {
    v.map_values(|p: Vec<IVec2>| p@)
}

/// The cell lists held by a vector of cell lists.
pub open spec fn cells_view(v: Seq<Vec<UVec2>>) -> Seq<Seq<UVec2>> {
    v.map_values(|g: Vec<UVec2>| g@)
}

/// The rows held by a vector of byte rows.
pub open spec fn rows_view(v: Seq<Vec<u8>>) -> Seq<Seq<u8>> {
    v.map_values(|r: Vec<u8>| r@)
}

} // verus!
