//! Locations on the hexagonal grid.

use vstd::prelude::*;
use crate::board::fits_i32;

verus! {

/// A location on the hexagonal grid, in axial coordinates: `q` grows to the
/// right, `r` grows downwards, and the centre is at 0, 0.
#[derive(Debug, Clone, Copy, PartialEq, Eq, PartialOrd, Ord, Hash, Structural)]
pub struct Coord {
    pub q: i32,
    pub r: i32,
}

/// The column within its row at which a point is stored, for a board of the
/// given radius.
pub open spec fn hex_x(p: (int, int), radius: int) -> int {
    p.0 + (if p.1 < 0 {
        p.1
    } else {
        0
    }) + radius
}

/// The row in which a point is stored, for a board of the given radius.
pub open spec fn hex_y(p: (int, int), radius: int) -> int {
    p.1 + radius
}

impl Coord {
    pub open spec fn view(self) -> (int, int) {
        (self.q as int, self.r as int)
    }

    pub fn center() -> (coord: Coord)
        ensures
            coord == (Coord { q: 0, r: 0 }),
    {
        Coord { q: 0, r: 0 }
    }

    pub fn new(q: i32, r: i32) -> (coord: Coord)
        ensures
            coord == (Coord { q, r }),
    {
        Coord { q, r }
    }

    /// The column and row at which the location is stored, for a board of the
    /// given radius; `None` where either would be negative or too large for
    /// an index.
    pub fn to_xy(self, radius: u32) -> (xy: Option<(usize, usize)>)
        ensures
            match xy {
                Some((x, y)) => x == hex_x(self@, radius as int) && y == hex_y(self@, radius as int),
                None => !(0 <= hex_x(self@, radius as int) <= usize::MAX) || !(0 <= hex_y(
                    self@,
                    radius as int,
                ) <= usize::MAX),
            },
    {
        let y: i64 = self.r as i64 + radius as i64;
        let lead: i64 = if self.r < 0 {
            self.r as i64
        } else {
            0
        };
        let x: i64 = self.q as i64 + lead + radius as i64;
        if x < 0 || y < 0 || x as u64 > usize::MAX as u64 || y as u64 > usize::MAX as u64 {
            None
        } else {
            Some((x as usize, y as usize))
        }
    }

    /// The location that is stored at a column and row, for a board of the
    /// given radius.
    pub fn from_xy(x: usize, y: usize, radius: u32) -> (coord: Coord)
        requires
            fits_i32((x - (if y < radius { y - radius } else { 0 }) - radius, y - radius)),
        ensures
            coord@ == (x - (if y < radius { y - radius } else { 0 }) - radius, y - radius),
            hex_x(coord@, radius as int) == x,
            hex_y(coord@, radius as int) == y,
    {
        let r: i128 = y as i128 - radius as i128;
        let lead: i128 = if r < 0 {
            r
        } else {
            0
        };
        let q: i128 = x as i128 - lead - radius as i128;
        Coord { q: q as i32, r: r as i32 }
    }
}

impl Default for Coord {
    fn default() -> (coord: Coord)
        ensures
            coord == (Coord { q: 0, r: 0 }),
    {
        Coord { q: 0, r: 0 }
    }
}

} // verus!
