//! Offsets on the hexagonal grid.

use vstd::prelude::*;
use crate::board::{fits_i32, stride_i32};
use crate::offset::Offset;

verus! {

/// An offset on the hexagonal grid, in axial coordinates.
#[derive(Debug, Clone, Copy, PartialEq, Eq, PartialOrd, Ord, Hash, Structural)]
pub struct Dir {
    pub q: i32,
    pub r: i32,
}

impl Dir {
    pub open spec fn view(self) -> (int, int) {
        (self.q as int, self.r as int)
    }

    pub fn new(q: i32, r: i32) -> (dir: Dir)
        ensures
            dir == (Dir { q, r }),
    {
        Dir { q, r }
    }
}

impl Default for Dir {
    fn default() -> (dir: Dir)
        ensures
            dir == (Dir { q: 0, r: 0 }),
    {
        Dir { q: 0, r: 0 }
    }
}

impl Offset for Dir {
    open spec fn vector(self) -> (int, int) {
        self@
    }

    open spec fn fits(v: (int, int)) -> bool {
        fits_i32(v)
    }

    fn origin() -> (zero: Dir) {
        Dir { q: 0, r: 0 }
    }

    fn same(&self, other: &Dir) -> (equal: bool) {
        self.q == other.q && self.r == other.r
    }

    fn checked_sum(self, other: Dir) -> (sum: Option<Dir>) {
        self.checked_stride(other, 1)
    }

    fn checked_stride(self, step: Dir, k: u32) -> (end: Option<Dir>) {
        let q = stride_i32(self.q, step.q, k);
        let r = stride_i32(self.r, step.r, k);
        match (q, r) {
            (Some(q), Some(r)) => Some(Dir { q, r }),
            _ => None,
        }
    }
}

} // verus!
