use vstd::prelude::*;

verus! {

/// Clockwise steps from peg `i` to peg `j` on a ring of `n` pegs. From a peg
/// to itself this is the whole ring.
pub open spec fn cw_steps(n: int, i: int, j: int) -> int {
    if i <= j {
        i + (n - j)
    } else {
        i - j
    }
}

/// Counter-clockwise steps from peg `i` to peg `j` on a ring of `n` pegs.
pub open spec fn ccw_steps(n: int, i: int, j: int) -> int {
    if i <= j {
        j - i
    } else {
        n - (i - j)
    }
}

/// The distance between two pegs: the shorter way round the ring.
pub open spec fn ring_steps(n: int, i: int, j: int) -> int {
    if cw_steps(n, i, j) <= ccw_steps(n, i, j) {
        cw_steps(n, i, j)
    } else {
        ccw_steps(n, i, j)
    }
}

/// Peg distance is symmetric, and a peg is at distance 0 from itself.
pub proof fn lemma_steps_symmetric(n: int, i: int, j: int)
    requires
        0 <= i < n,
        0 <= j < n,
    ensures
        ring_steps(n, i, j) == ring_steps(n, j, i),
        ring_steps(n, i, i) == 0,
{
}

/// Between two distinct pegs, the clockwise and the counter-clockwise ways
/// round add up to the whole ring.
pub proof fn lemma_ways_round_add_up(n: int, i: int, j: int)
    requires
        0 <= i < n,
        0 <= j < n,
        i != j,
    ensures
        cw_steps(n, i, j) + ccw_steps(n, i, j) == n,
{
}

/// Pegs evenly spaced by angle on the ellipse inscribed in an image of the
/// given dimensions, scaled by a radius fraction given in thousandths. Peg `i`
/// sits at angle `2 * pi * i / len`; the positions themselves are a matter of
/// trigonometry and are left to the renderer.
#[derive(Debug, Clone, Copy, Default)]
pub struct PegGroup {
    count: usize,
    dimensions: (u32, u32),
    radius_permille: u32,
}

impl PegGroup {
    /// The number of pegs.
    pub closed spec fn count(&self) -> nat {
        self.count as nat
    }

    /// The image dimensions the ring is inscribed in.
    pub closed spec fn dims(&self) -> (u32, u32) {
        self.dimensions
    }

    /// The radius fraction, in thousandths.
    pub closed spec fn radius(&self) -> u32 {
        self.radius_permille
    }

    /// A ring of `peg_count` pegs centred on an image of `dimensions`, with a
    /// radius of `radius_permille` thousandths of the half dimensions.
    pub fn new_circle_at_center(peg_count: usize, dimensions: (u32, u32), radius_permille: u32) -> (r: PegGroup)
        requires
            0 < radius_permille < 1000,
        ensures
            r.count() == peg_count,
            r.dims() == dimensions,
            r.radius() == radius_permille,
    {
        PegGroup { count: peg_count, dimensions, radius_permille }
    }

    /// The number of pegs.
    pub fn len(&self) -> (r: usize)
        ensures
            r == self.count(),
    {
        self.count
    }

    /// The image dimensions the ring is inscribed in.
    pub fn dimensions(&self) -> (r: (u32, u32))
        ensures
            r == self.dims(),
    {
        self.dimensions
    }

    /// The radius fraction, in thousandths.
    pub fn radius_permille(&self) -> (r: u32)
        ensures
            r == self.radius(),
    {
        self.radius_permille
    }

    /// Clockwise steps from `start_peg_idx` to `end_peg_idx`.
    pub fn clockwise_steps_between(&self, start_peg_idx: usize, end_peg_idx: usize) -> (r: usize)
        requires
            start_peg_idx < self.count(),
            end_peg_idx < self.count(),
        ensures
            r == cw_steps(self.count() as int, start_peg_idx as int, end_peg_idx as int),
    {
        if start_peg_idx <= end_peg_idx {
            start_peg_idx + (self.count - end_peg_idx)
        } else {
            start_peg_idx - end_peg_idx
        }
    }

    /// Counter-clockwise steps from `start_peg_idx` to `end_peg_idx`.
    pub fn cclockwise_steps_between(&self, start_peg_idx: usize, end_peg_idx: usize) -> (r: usize)
        requires
            start_peg_idx < self.count(),
            end_peg_idx < self.count(),
        ensures
            r == ccw_steps(self.count() as int, start_peg_idx as int, end_peg_idx as int),
    {
        if start_peg_idx <= end_peg_idx {
            end_peg_idx - start_peg_idx
        } else {
            self.count - (start_peg_idx - end_peg_idx)
        }
    }

    /// The distance between two pegs: the shorter way round.
    pub fn steps_between(&self, peg_a_idx: usize, peg_b_idx: usize) -> (r: usize)
        requires
            peg_a_idx < self.count(),
            peg_b_idx < self.count(),
        ensures
            r == ring_steps(self.count() as int, peg_a_idx as int, peg_b_idx as int),
    {
        let cw = self.clockwise_steps_between(peg_a_idx, peg_b_idx);
        let ccw = self.cclockwise_steps_between(peg_a_idx, peg_b_idx);
        if cw <= ccw {
            cw
        } else {
            ccw
        }
    }
}

} // verus!
