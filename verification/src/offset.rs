//! Relative offsets between locations, and the king's path in a castling.

use vstd::prelude::*;

verus! {

/// The componentwise sum of two pairs.
pub open spec fn plus(a: (int, int), b: (int, int)) -> (int, int) {
    (a.0 + b.0, a.1 + b.1)
}

/// The componentwise difference of two pairs.
pub open spec fn minus(a: (int, int), b: (int, int)) -> (int, int) {
    (a.0 - b.0, a.1 - b.1)
}

/// A pair scaled by a factor.
pub open spec fn times(v: (int, int), k: int) -> (int, int) {
    (v.0 * k, v.1 * k)
}

/// Scaling distributes over one more step.
pub proof fn lemma_times_succ(v: (int, int), k: int)
    ensures
        times(v, k + 1) == plus(times(v, k), v),
        times(v, 0) == (0int, 0int),
        times(v, 1) == v,
{
    assert(v.0 * (k + 1) == v.0 * k + v.0) by (nonlinear_arith);
    assert(v.1 * (k + 1) == v.1 * k + v.1) by (nonlinear_arith);
}

/// A relative offset of some board topology.
///
/// An offset stands for a pair of integers, its [`vector`](Offset::vector).
/// The type holds the pairs for which [`fits`](Offset::fits) is true; sums and
/// multiples that leave that range are reported, never wrapped.
pub trait Offset: Copy + Sized {
    /// The pair of integers that the offset stands for.
    spec fn vector(self) -> (int, int);

    /// Whether the type can hold the given pair.
    spec fn fits(v: (int, int)) -> bool;

    /// The offset that moves nothing.
    fn origin() -> (zero: Self)
        ensures
            zero.vector() == (0int, 0int),
    ;

    /// Whether two offsets stand for the same pair.
    fn same(&self, other: &Self) -> (equal: bool)
        ensures
            equal == (self.vector() == other.vector()),
    ;

    /// The sum of two offsets, if the type can hold it.
    fn checked_sum(self, other: Self) -> (sum: Option<Self>)
        ensures
            match sum {
                Some(s) => s.vector() == plus(self.vector(), other.vector()),
                None => !Self::fits(plus(self.vector(), other.vector())),
            },
    ;

    /// The offset `self + k * step`, if the type can hold it.
    fn checked_stride(self, step: Self, k: u32) -> (end: Option<Self>)
        ensures
            match end {
                Some(e) => e.vector() == plus(self.vector(), times(step.vector(), k as int)),
                None => !Self::fits(plus(self.vector(), times(step.vector(), k as int))),
            },
    ;
}

/// A run of offsets: `fuel` steps of `step`, counted from `from`.
///
/// The run yields `from + step`, `from + 2 * step`, up to
/// `from + fuel * step`. A castling holds the king's path as such a run.
#[derive(Copy, Clone, Debug, Hash, PartialEq, Eq)]
pub struct RelIter<R> {
    pub from: R,
    pub fuel: u32,
    pub step: R,
}

/// What a [`RelIter`] stands for, over pairs of integers.
pub struct RunView {
    pub from: (int, int),
    pub fuel: nat,
    pub step: (int, int),
}

impl RunView {
    /// The `i`-th offset of the run, counted from 1.
    pub open spec fn nth(self, i: int) -> (int, int) {
        plus(self.from, times(self.step, i))
    }

    /// The last offset of the run; `from` itself where the run is empty.
    pub open spec fn total(self) -> (int, int) {
        self.nth(self.fuel as int)
    }

    /// The offsets of the run, in order.
    pub open spec fn offsets(self) -> Seq<(int, int)> {
        Seq::new(self.fuel, |i: int| self.nth(i + 1))
    }
}

impl<R: Offset> RelIter<R> {
    pub open spec fn view(self) -> RunView {
        RunView { from: self.from.vector(), fuel: self.fuel as nat, step: self.step.vector() }
    }

    /// A run of `fuel` steps of `start`, counted from the origin.
    pub fn new(start: R, fuel: u32) -> (run: Self)
        ensures
            run@ == (RunView { from: (0int, 0int), fuel: fuel as nat, step: start.vector() }),
            run.step == start,
            run.fuel == fuel,
    {
        RelIter { from: R::origin(), fuel, step: start }
    }

    /// The last offset of the run, or `None` where the offset type cannot
    /// hold it.
    pub fn total(self) -> (end: Option<R>)
        ensures
            match end {
                Some(e) => e.vector() == self@.total(),
                None => !R::fits(self@.total()),
            },
    {
        self.from.checked_stride(self.step, self.fuel)
    }

    /// Whether two runs stand for the same offsets, step by step.
    pub fn same(&self, other: &Self) -> (equal: bool)
        ensures
            equal == (self@ == other@),
    {
        self.from.same(&other.from) && self.fuel == other.fuel && self.step.same(&other.step)
    }

    /// Takes the next offset off the run: `None` once the fuel is spent or
    /// where the next offset does not fit the offset type; the run is then
    /// left as it was.
    pub fn next(&mut self) -> (item: Option<R>)
        ensures
            match item {
                Some(r) => {
                    &&& old(self).fuel > 0
                    &&& r.vector() == old(self)@.nth(1)
                    &&& final(self).from == r
                    &&& final(self).fuel == old(self).fuel - 1
                    &&& final(self).step == old(self).step
                },
                None => {
                    &&& *final(self) == *old(self)
                    &&& old(self).fuel == 0 || !R::fits(old(self)@.nth(1))
                },
            },
    {
        if self.fuel == 0 {
            None
        } else {
            proof {
                lemma_times_succ(self.step.vector(), 0);
            }
            match self.from.checked_sum(self.step) {
                Some(r) => {
                    self.from = r;
                    self.fuel = self.fuel - 1;
                    Some(r)
                },
                None => None,
            }
        }
    }
}

/// The geometry of one castling, relative to the king's square.
///
/// The rook stands at `rook` and goes to `rook_to`, counted from the rook's
/// own square; the king walks along `steps` and stays on its last square.
#[derive(Copy, Clone, Debug, Hash, PartialEq, Eq)]
pub struct Castle<R> {
    pub rook: R,
    pub rook_to: R,
    pub steps: RelIter<R>,
}

/// What a [`Castle`] stands for, over pairs of integers.
pub struct CastleView {
    pub rook: (int, int),
    pub rook_to: (int, int),
    pub steps: RunView,
}

impl<R: Offset> Castle<R> {
    pub open spec fn view(self) -> CastleView {
        CastleView { rook: self.rook.vector(), rook_to: self.rook_to.vector(), steps: self.steps@ }
    }

    /// Whether two castlings have the same geometry.
    pub fn same(&self, other: &Self) -> (equal: bool)
        ensures
            equal == (self@ == other@),
    {
        self.rook.same(&other.rook) && self.rook_to.same(&other.rook_to) && self.steps.same(
            &other.steps,
        )
    }
}

} // verus!
