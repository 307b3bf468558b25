use vstd::prelude::*;

verus! {

/// A grid cell, as its integer coordinates `(x, y)`.
pub type TilePos = (i32, i32);

/// The region of the spritesheet that a cell shows: the four normalized
/// coordinates `u_min, v_min, u_max, v_max`, each held as the bit pattern of
/// its `f32`, so that the value is kept exactly.
#[derive(Clone, Copy, PartialEq, Eq, Structural, Debug)]
pub struct TileRegion {
    pub u_min: u32,
    pub v_min: u32,
    pub u_max: u32,
    pub v_max: u32,
}

impl TileRegion {
    pub fn new(u_min: u32, v_min: u32, u_max: u32, v_max: u32) -> (r: TileRegion)
        ensures
            r == (TileRegion { u_min, v_min, u_max, v_max }),
    {
        TileRegion { u_min, v_min, u_max, v_max }
    }
}

} // verus!
