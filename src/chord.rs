use vstd::prelude::*;
use crate::tri_vec::{hi, lo, same_pair};

verus! {

/// How two chords of the peg ring meet, in the vocabulary of a segment
/// intersection test: not at all, at one point (proper when it lies inside
/// both segments), or along a shared stretch.
#[derive(Debug, Clone, Copy, PartialEq, Eq, Structural)]
pub enum ChordIntersection {
    Disjoint,
    SinglePoint { is_proper: bool },
    Collinear,
}

/// Peg `k` lies strictly inside the arc from the smaller to the greater end
/// of chord `{a0, a1}`.
pub open spec fn inside_arc(a0: int, a1: int, k: int) -> bool {
    lo(a0, a1) < k < hi(a0, a1)
}

/// The two chords share a peg.
pub open spec fn share_peg(a0: int, a1: int, b0: int, b1: int) -> bool {
    a0 == b0 || a0 == b1 || a1 == b0 || a1 == b1
}

/// How chords `{a0, a1}` and `{b0, b1}` meet. The pegs sit in index order on
/// a convex ring, so two distinct chords with four distinct ends cross
/// exactly when their ends interleave round the ring; chords that share a
/// peg touch there; a chord meets itself along its whole length. A chord
/// from a peg to itself is a single point.
pub open spec fn chord_intersection(a0: int, a1: int, b0: int, b1: int) -> ChordIntersection {
    if a0 == a1 || b0 == b1 {
        if share_peg(a0, a1, b0, b1) {
            ChordIntersection::SinglePoint { is_proper: false }
        } else {
            ChordIntersection::Disjoint
        }
    } else if same_pair(a0, a1, b0, b1) {
        ChordIntersection::Collinear
    } else if share_peg(a0, a1, b0, b1) {
        ChordIntersection::SinglePoint { is_proper: false }
    } else if inside_arc(a0, a1, b0) != inside_arc(a0, a1, b1) {
        ChordIntersection::SinglePoint { is_proper: true }
    } else {
        ChordIntersection::Disjoint
    }
}

/// A drawn chord along `{a0, a1}` spoils the score of chord `{b0, b1}`: they
/// cross at a proper point or overlap.
pub open spec fn chords_cross(a0: int, a1: int, b0: int, b1: int) -> bool {
    match chord_intersection(a0, a1, b0, b1) {
        ChordIntersection::SinglePoint { is_proper } => is_proper,
        ChordIntersection::Collinear => true,
        ChordIntersection::Disjoint => false,
    }
}

/// How chords `a` and `b` meet.
pub fn classify_chords(a: (usize, usize), b: (usize, usize)) -> (r: ChordIntersection)
    ensures
        r == chord_intersection(a.0 as int, a.1 as int, b.0 as int, b.1 as int),
{
    let shared = a.0 == b.0 || a.0 == b.1 || a.1 == b.0 || a.1 == b.1;
    if a.0 == a.1 || b.0 == b.1 {
        if shared {
            ChordIntersection::SinglePoint { is_proper: false }
        } else {
            ChordIntersection::Disjoint
        }
    } else {
        let (a_hi, a_lo) = if a.0 > a.1 { (a.0, a.1) } else { (a.1, a.0) };
        let (b_hi, b_lo) = if b.0 > b.1 { (b.0, b.1) } else { (b.1, b.0) };
        if a_hi == b_hi && a_lo == b_lo {
            ChordIntersection::Collinear
        } else if shared {
            ChordIntersection::SinglePoint { is_proper: false }
        } else {
            let in_0 = a_lo < b.0 && b.0 < a_hi;
            let in_1 = a_lo < b.1 && b.1 < a_hi;
            if in_0 != in_1 {
                ChordIntersection::SinglePoint { is_proper: true }
            } else {
                ChordIntersection::Disjoint
            }
        }
    }
}

/// Whether a chord drawn along `a` spoils the score of chord `b`: a proper
/// crossing or an overlap.
pub fn do_intersect(a: (usize, usize), b: (usize, usize)) -> (r: bool)
    ensures
        r == chords_cross(a.0 as int, a.1 as int, b.0 as int, b.1 as int),
{
    match classify_chords(a, b) {
        ChordIntersection::SinglePoint { is_proper } => is_proper,
        ChordIntersection::Collinear => true,
        ChordIntersection::Disjoint => false,
    }
}

} // verus!
