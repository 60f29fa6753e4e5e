//! Tiles: the 4x4 pixel unit of coverage accumulation.

use vstd::prelude::*;

verus! {

/// Width of a tile in pixels.
pub const TILE_WIDTH: u16 = 4;

/// Height of a tile (and of a strip, a wide tile and a slot) in pixels.
pub const TILE_HEIGHT: u16 = 4;

/// Width of a wide tile in pixels.
pub const WIDE_TILE_WIDTH: u16 = 256;

/// Largest tile coordinate whose pixel origin still fits in 16 bits.
pub const MAX_TILE_COORD: u16 = 16383;

/// A tile: one line segment's passage through one 4x4 pixel cell.
#[derive(Clone, Copy, Debug, PartialEq, Eq, Structural)]
pub struct Tile {
    /// Horizontal position, in tiles.
    pub x: u16,
    /// Vertical position, in tiles.
    pub y: u16,
    /// Index of the line segment this tile belongs to.
    pub line_idx: u32,
    /// Signed crossing of the tile's top edge by the line: -1, 0 or +1.
    pub winding: i8,
}

impl Tile {
    /// Whether the tile can stand in a tile sequence: its pixel origin fits in
    /// 16 bits and its winding is a single signed crossing.
    pub open spec fn wf(self) -> bool {
        &&& self.x <= MAX_TILE_COORD
        &&& self.y <= MAX_TILE_COORD
        &&& -1 <= self.winding <= 1
    }

    /// Whether `self` and `other` lie in the same cell.
    pub open spec fn spec_same_loc(self, other: Tile) -> bool {
        self.x == other.x && self.y == other.y
    }

    /// Whether `self` lies in the cell directly left of `other`.
    pub open spec fn spec_prev_loc(self, other: Tile) -> bool {
        self.y == other.y && self.x + 1 == other.x
    }

    /// Whether `self` and `other` lie in the same row of tiles.
    pub open spec fn spec_same_row(self, other: Tile) -> bool {
        self.y == other.y
    }

    pub fn new(x: u16, y: u16, line_idx: u32, winding: i8) -> (tile: Tile)
        ensures
            tile == (Tile { x, y, line_idx, winding }),
    {
        Tile { x, y, line_idx, winding }
    }

    #[verifier::when_used_as_spec(spec_same_loc)]
    pub fn same_loc(self, other: Tile) -> (same: bool)
        ensures
            same == self.spec_same_loc(other),
    {
        self.x == other.x && self.y == other.y
    }

    #[verifier::when_used_as_spec(spec_prev_loc)]
    pub fn prev_loc(self, other: Tile) -> (prev: bool)
        ensures
            prev == self.spec_prev_loc(other),
    {
        self.y == other.y && self.x < other.x && other.x - self.x == 1
    }

    #[verifier::when_used_as_spec(spec_same_row)]
    pub fn same_row(self, other: Tile) -> (same: bool)
        ensures
            same == self.spec_same_row(other),
    {
        self.y == other.y
    }
}

} // verus!
