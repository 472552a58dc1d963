use vstd::prelude::*;
use crate::chord::{chords_cross, do_intersect};
use crate::peg::ring_steps;
use crate::tri_vec::{hi, lo, same_pair, TriVec};

verus! {

/// The state of one chord for one color.
#[derive(Debug, Clone, Copy, PartialEq, Eq, Structural)]
pub enum StringCombo {
    /// The chord may be drawn in this color; the score, in millionths, is
    /// cached once known.
    Allowed(Option<i64>),
    /// The chord has been drawn in this color.
    Filled,
    /// The chord may never be drawn in this color: too short, or consumed.
    Banned,
}

/// The per-color chord states of every unordered pair of pegs.
pub struct ComboCache {
    peg_count: usize,
    color_count: usize,
    combos: TriVec<Vec<StringCombo>>,
}

/// Every cell holds `s`.
pub open spec fn all_cells(s: StringCombo, n: nat) -> Seq<StringCombo> {
    Seq::new(n, |_i: int| s)
}

/// The state a pair starts in: banned when its pegs are at most
/// `ban_threshold` steps apart round the ring, allowed and unscored otherwise.
pub open spec fn initial_state(n: int, x: int, y: int, ban_threshold: int) -> StringCombo {
    if ring_steps(n, x, y) > ban_threshold {
        StringCombo::Allowed(None)
    } else {
        StringCombo::Banned
    }
}

/// The chord state that a drawn chord along `{f, t}` in color `k` leaves in
/// cell `(x, y, c)` of a cache that held `s` there: the chord itself is filled
/// for `k` and consumed for every other color; every allowed chord that it
/// crosses loses its score; the rest stays.
pub open spec fn after_commit(s: StringCombo, f: int, t: int, k: int, x: int, y: int, c: int) -> StringCombo {
    if same_pair(x, y, f, t) {
        if c == k {
            StringCombo::Filled
        } else {
            StringCombo::Banned
        }
    } else if s is Allowed && chords_cross(f, t, x, y) {
        StringCombo::Allowed(None)
    } else {
        s
    }
}

impl ComboCache {
    pub closed spec fn pegs(&self) -> nat {
        self.peg_count as nat
    }

    pub closed spec fn colors(&self) -> nat {
        self.color_count as nat
    }

    /// The state of chord `{x, y}` for color `c`.
    pub closed spec fn state(&self, x: int, y: int, c: int) -> StringCombo {
        self.combos.get(x, y)@[c]
    }

    pub closed spec fn shape(&self) -> bool {
        &&& self.combos.wf()
        &&& self.combos.dim() == self.peg_count
        &&& forall|x: int, y: int|
            self.combos.in_range(x, y) ==> (#[trigger] self.combos.get(x, y))@.len() == self.color_count
    }

    /// Both pegs and the color are in range.
    pub open spec fn valid(&self, x: int, y: int, c: int) -> bool {
        0 <= x < self.pegs() && 0 <= y < self.pegs() && 0 <= c < self.colors()
    }

    /// A chord is filled for at most one color, and is banned for every other.
    pub open spec fn filled_once(&self) -> bool {
        forall|x: int, y: int, c: int, d: int|
            self.valid(x, y, c) && self.valid(x, y, d) && c != d && #[trigger] self.state(x, y, c)
                is Filled ==> #[trigger] self.state(x, y, d) is Banned
    }

    /// A peg paired with itself is no chord: banned in every color.
    pub open spec fn diagonal_banned(&self) -> bool {
        forall|x: int, c: int| self.valid(x, x, c) ==> #[trigger] self.state(x, x, c) is Banned
    }

    pub open spec fn wf(&self) -> bool {
        &&& self.shape()
        &&& self.filled_once()
        &&& self.diagonal_banned()
    }

    /// Two namings of one unordered pair share their states.
    pub proof fn lemma_same_pair(&self, x: int, y: int, u: int, v: int, c: int)
        requires
            same_pair(x, y, u, v),
        ensures
            self.state(x, y, c) == self.state(u, v, c),
    {
        self.combos.lemma_same_pair(x, y, u, v);
    }

    /// Turning an allowed cell into another allowed state keeps every filled
    /// chord consumed for the other colors.
    proof fn lemma_allowed_update(&self, other: &ComboCache, x: int, y: int, c: int, s: StringCombo)
        requires
            self.wf(),
            self.valid(x, y, c),
            self.state(x, y, c) is Allowed,
            s is Allowed,
            self.updated(other, x, y, c, s),
        ensures
            other.filled_once(),
            other.diagonal_banned(),
    {
        assert forall|u: int, d: int| other.valid(u, u, d) implies #[trigger] other.state(u, u, d) is Banned by {
            if same_pair(u, u, x, y) && d == c {
                self.lemma_same_pair(u, u, x, y, c);
            }
        }
        assert forall|u: int, v: int, c1: int, d1: int|
            other.valid(u, v, c1) && other.valid(u, v, d1) && c1 != d1 && #[trigger] other.state(u, v, c1)
                is Filled implies #[trigger] other.state(u, v, d1) is Banned by {
            if same_pair(u, v, x, y) {
                self.lemma_same_pair(u, v, x, y, c1);
                self.lemma_same_pair(u, v, x, y, d1);
            }
        }
    }

    /// `other` has this cache's dimensions and agrees with it on every cell
    /// but `(x, y, c)`, which holds `s`.
    pub open spec fn updated(&self, other: &ComboCache, x: int, y: int, c: int, s: StringCombo) -> bool {
        &&& other.pegs() == self.pegs()
        &&& other.colors() == self.colors()
        &&& forall|u: int, v: int, d: int|
            #![trigger other.state(u, v, d)]
            self.valid(u, v, d) ==> other.state(u, v, d) == if same_pair(u, v, x, y) && d == c {
                s
            } else {
                self.state(u, v, d)
            }
    }

    /// `n` pegs, `colors` colors, each pair in its initial state.
    pub fn new(n: usize, colors: usize, ban_threshold: usize) -> (r: ComboCache)
        ensures
            r.wf(),
            r.pegs() == n,
            r.colors() == colors,
            forall|x: int, y: int, c: int|
                r.valid(x, y, c) ==> #[trigger] r.state(x, y, c) == initial_state(
                    n as int,
                    x,
                    y,
                    ban_threshold as int,
                ),
    {
        let mut combos: TriVec<Vec<StringCombo>> = TriVec::new(n, &Vec::new());
        let mut cache = ComboCache { peg_count: n, color_count: colors, combos };
        cache.populate_allowed_combos(ban_threshold);
        cache
    }

    /// Sets every pair to its initial state.
    fn populate_allowed_combos(&mut self, ban_threshold: usize)
        requires
            old(self).combos.wf(),
            old(self).combos.dim() == old(self).peg_count,
        ensures
            final(self).wf(),
            final(self).pegs() == old(self).pegs(),
            final(self).colors() == old(self).colors(),
            forall|x: int, y: int, c: int|
                final(self).valid(x, y, c) ==> #[trigger] final(self).state(x, y, c) == initial_state(
                    final(self).pegs() as int,
                    x,
                    y,
                    ban_threshold as int,
                ),
    {
        let n = self.peg_count;
        let ghost n_i = n as int;
        for x in 0..n
            invariant
                n == self.peg_count,
                n_i == n as int,
                self.color_count == old(self).color_count,
                self.combos.wf(),
                self.combos.dim() == n,
                forall|u: int, v: int|
                    0 <= v <= u < x ==> (#[trigger] self.combos.get(u, v))@ == all_cells(
                        initial_state(n_i, u, v, ban_threshold as int),
                        self.color_count as nat,
                    ),
        {
            for y in 0..x + 1
                invariant
                    n == self.peg_count,
                    n_i == n as int,
                    self.color_count == old(self).color_count,
                    x < n,
                    self.combos.wf(),
                    self.combos.dim() == n,
                    forall|u: int, v: int|
                        (0 <= v <= u < x || (u == x && 0 <= v < y)) ==> (#[trigger] self.combos.get(
                            u,
                            v,
                        ))@ == all_cells(
                            initial_state(n_i, u, v, ban_threshold as int),
                            self.color_count as nat,
                        ),
            {
                let d_cw = if x <= y { x + (n - y) } else { x - y };
                let d_ccw = if x <= y { y - x } else { n - (x - y) };
                let d = if d_cw <= d_ccw { d_cw } else { d_ccw };
                let state = if d > ban_threshold {
                    StringCombo::Allowed(None)
                } else {
                    StringCombo::Banned
                };
                assert(state == initial_state(n_i, x as int, y as int, ban_threshold as int));
                let row = uniform_cell(self.color_count, state);
                let ghost before = self.combos;
                self.combos.set(x, y, row);
                assert forall|u: int, v: int|
                    (0 <= v <= u < x || (u == x && 0 <= v <= y)) implies (#[trigger] self.combos.get(
                        u,
                        v,
                    ))@ == all_cells(
                        initial_state(n_i, u, v, ban_threshold as int),
                        self.color_count as nat,
                    ) by {
                    if u == x && v == y {
                    } else {
                        assert(!same_pair(u, v, x as int, y as int));
                        assert(self.combos.get(u, v) == before.get(u, v));
                    }
                }
            }
        }
        assert forall|x: int, y: int, c: int| self.valid(x, y, c) implies #[trigger] self.state(x, y, c)
            == initial_state(n_i, x, y, ban_threshold as int) by {
            self.combos.lemma_same_pair(x, y, hi(x, y), lo(x, y));
            crate::peg::lemma_steps_symmetric(n_i, x, y);
        }
        assert forall|x: int, y: int| self.combos.in_range(x, y) implies (#[trigger] self.combos.get(
            x,
            y,
        ))@.len() == self.color_count by {
            self.combos.lemma_same_pair(x, y, hi(x, y), lo(x, y));
        }
    }

    /// The number of pegs.
    pub fn peg_count(&self) -> (r: usize)
        ensures
            r == self.pegs(),
    {
        self.peg_count
    }

    /// The number of colors.
    pub fn color_count(&self) -> (r: usize)
        ensures
            r == self.colors(),
    {
        self.color_count
    }

    /// The state of chord `{x, y}` for color `c`.
    pub fn state_at(&self, x: usize, y: usize, c: usize) -> (r: StringCombo)
        requires
            self.wf(),
            self.valid(x as int, y as int, c as int),
        ensures
            r == self.state(x as int, y as int, c as int),
    {
        self.combos.at(x, y)[c]
    }

    /// Puts `s` in cell `(x, y, c)`.
    fn put(&mut self, x: usize, y: usize, c: usize, s: StringCombo)
        requires
            old(self).shape(),
            old(self).valid(x as int, y as int, c as int),
        ensures
            final(self).shape(),
            old(self).updated(final(self), x as int, y as int, c as int, s),
    {
        let ghost before = self.combos;
        let mut row: Vec<StringCombo> = Vec::new();
        std::mem::swap(self.combos.at_mut(x, y), &mut row);
        assert(row@ == before.get(x as int, y as int)@);
        row.set(c, s);
        self.combos.set(x, y, row);
        assert forall|u: int, v: int, d: int|
            #![trigger self.state(u, v, d)]
            old(self).valid(u, v, d) implies self.state(u, v, d) == if same_pair(u, v, x as int, y as int)
            && d == c {
            s
        } else {
            old(self).state(u, v, d)
        } by {
            if same_pair(u, v, x as int, y as int) {
                before.lemma_same_pair(u, v, x as int, y as int);
            }
        }
    }

    /// The score of chord `{x, y}` for color `c`. A cached score is returned
    /// as it is. An allowed chord without one is scored by `score_of`, called
    /// with the greater peg first; a score it gives is cached, and when it gives
    /// none the chord stays unscored, to be tried again later. A filled or
    /// banned chord has no score.
    pub fn calculate_current_score<F: Fn(usize, usize, usize) -> Option<i64>>(
        &mut self,
        c: usize,
        x: usize,
        y: usize,
        score_of: &F,
    ) -> (r: Option<i64>)
        requires
            old(self).wf(),
            old(self).valid(x as int, y as int, c as int),
            forall|u: usize, v: usize, d: usize| score_of.requires((u, v, d)),
        ensures
            final(self).wf(),
            match old(self).state(x as int, y as int, c as int) {
                StringCombo::Allowed(Some(s)) => r == Some(s) && *final(self) == *old(self),
                StringCombo::Allowed(None) => {
                    &&& score_of.ensures((hi(x as int, y as int) as usize, lo(x as int, y as int) as usize, c), r)
                    &&& old(self).updated(final(self), x as int, y as int, c as int, StringCombo::Allowed(r))
                },
                _ => r is None && *final(self) == *old(self),
            },
    {
        match self.state_at(x, y, c) {
            StringCombo::Allowed(Some(s)) => Some(s),
            StringCombo::Allowed(None) => {
                let (a, b) = if x > y { (x, y) } else { (y, x) };
                let r = score_of(a, b, c);
                if r.is_some() {
                    self.put(x, y, c, StringCombo::Allowed(r));
                    proof {
                        old(self).lemma_allowed_update(self, x as int, y as int, c as int, StringCombo::Allowed(r));
                    }
                } else {
                    assert forall|u: int, v: int, d: int|
                        #![trigger self.state(u, v, d)]
                        old(self).valid(u, v, d) && same_pair(u, v, x as int, y as int) && d == c implies self.state(
                            u,
                            v,
                            d,
                        ) == StringCombo::Allowed(r) by {
                        self.lemma_same_pair(u, v, x as int, y as int, d);
                    }
                }
                r
            },
            _ => None,
        }
    }

    /// Marks chord `{x, y}` as drawn in color `k`: filled for `k`, consumed
    /// (banned) for every other color.
    pub fn set_combo_to_filled(&mut self, x: usize, y: usize, k: usize)
        requires
            old(self).wf(),
            old(self).valid(x as int, y as int, k as int),
            old(self).state(x as int, y as int, k as int) is Allowed,
        ensures
            final(self).wf(),
            final(self).pegs() == old(self).pegs(),
            final(self).colors() == old(self).colors(),
            forall|u: int, v: int, d: int|
                #![trigger final(self).state(u, v, d)]
                old(self).valid(u, v, d) ==> final(self).state(u, v, d) == if same_pair(u, v, x as int, y as int) {
                    if d == k {
                        StringCombo::Filled
                    } else {
                        StringCombo::Banned
                    }
                } else {
                    old(self).state(u, v, d)
                },
    {
        let n_colors = self.color_count;
        for d in 0..n_colors
            invariant
                self.shape(),
                n_colors == self.color_count,
                self.pegs() == old(self).pegs(),
                self.colors() == old(self).colors(),
                old(self).valid(x as int, y as int, k as int),
                forall|u: int, v: int, e: int|
                    #![trigger self.state(u, v, e)]
                    old(self).valid(u, v, e) ==> self.state(u, v, e) == if same_pair(u, v, x as int, y as int)
                        && e < d {
                        if e == k {
                            StringCombo::Filled
                        } else {
                            StringCombo::Banned
                        }
                    } else {
                        old(self).state(u, v, e)
                    },
        {
            let s = if d == k {
                StringCombo::Filled
            } else {
                StringCombo::Banned
            };
            self.put(x, y, d, s);
        }
        assert forall|u: int, v: int, c: int, d: int|
            self.valid(u, v, c) && self.valid(u, v, d) && c != d && #[trigger] self.state(u, v, c)
                is Filled implies #[trigger] self.state(u, v, d) is Banned by {
            if !same_pair(u, v, x as int, y as int) {
                assert(old(self).state(u, v, c) is Filled);
            }
        }
    }

    /// Drops the cached score of every allowed chord, in every color, that
    /// a chord drawn along `{f, t}` crosses or overlaps. Filled and banned
    /// chords are skipped without a test.
    pub fn unscore_intersected(&mut self, f: usize, t: usize)
        requires
            old(self).wf(),
            f < old(self).pegs(),
            t < old(self).pegs(),
        ensures
            final(self).wf(),
            final(self).pegs() == old(self).pegs(),
            final(self).colors() == old(self).colors(),
            forall|u: int, v: int, d: int|
                #![trigger final(self).state(u, v, d)]
                old(self).valid(u, v, d) ==> final(self).state(u, v, d) == if old(self).state(u, v, d) is Allowed
                    && chords_cross(f as int, t as int, u, v) {
                    StringCombo::Allowed(None)
                } else {
                    old(self).state(u, v, d)
                },
    {
        let n = self.peg_count;
        let n_colors = self.color_count;
        for c in 0..n_colors
            invariant
                self.wf(),
                n == self.peg_count,
                n_colors == self.color_count,
                self.pegs() == old(self).pegs(),
                self.colors() == old(self).colors(),
                f < n,
                t < n,
                forall|u: int, v: int, d: int|
                    #![trigger self.state(u, v, d)]
                    old(self).valid(u, v, d) ==> self.state(u, v, d) == if d < c && old(self).state(u, v, d) is Allowed
                        && chords_cross(f as int, t as int, u, v) {
                        StringCombo::Allowed(None)
                    } else {
                        old(self).state(u, v, d)
                    },
        {
            for x in 0..n
                invariant
                    self.wf(),
                    n == self.peg_count,
                    n_colors == self.color_count,
                    self.pegs() == old(self).pegs(),
                    self.colors() == old(self).colors(),
                    f < n,
                    t < n,
                    c < n_colors,
                    forall|u: int, v: int, d: int|
                        #![trigger self.state(u, v, d)]
                        old(self).valid(u, v, d) ==> self.state(u, v, d) == if (d < c || (d == c && lo(u, v) < x))
                            && old(self).state(u, v, d) is Allowed && chords_cross(f as int, t as int, u, v) {
                            StringCombo::Allowed(None)
                        } else {
                            old(self).state(u, v, d)
                        },
            {
                for y in x + 1..n
                    invariant
                        self.wf(),
                        n == self.peg_count,
                        n_colors == self.color_count,
                        self.pegs() == old(self).pegs(),
                        self.colors() == old(self).colors(),
                        f < n,
                        t < n,
                        c < n_colors,
                        x < n,
                        forall|u: int, v: int, d: int|
                            #![trigger self.state(u, v, d)]
                            old(self).valid(u, v, d) ==> self.state(u, v, d) == if (d < c || (d == c && (lo(u, v)
                                < x || (lo(u, v) == x && hi(u, v) < y && hi(u, v) > x))))
                                && old(self).state(u, v, d) is Allowed && chords_cross(f as int, t as int, u, v) {
                                StringCombo::Allowed(None)
                            } else {
                                old(self).state(u, v, d)
                            },
                {
                    let ghost before = *self;
                    if matches!(self.state_at(x, y, c), StringCombo::Allowed(_)) && do_intersect((f, t), (x, y)) {
                        self.put(x, y, c, StringCombo::Allowed(None));
                        proof {
                            before.lemma_allowed_update(self, x as int, y as int, c as int, StringCombo::Allowed(None));
                        }
                    }
                    assert forall|u: int, v: int, d: int|
                        #![trigger self.state(u, v, d)]
                        old(self).valid(u, v, d) && same_pair(u, v, x as int, y as int) implies self.state(u, v, d)
                        == if d == c && old(self).state(u, v, d) is Allowed && chords_cross(f as int, t as int, u, v) {
                        StringCombo::Allowed(None)
                    } else {
                        before.state(u, v, d)
                    } by {
                        before.lemma_same_pair(u, v, x as int, y as int, d);
                        old(self).lemma_same_pair(u, v, x as int, y as int, d);
                    }
                }
            }
        }
    }

    /// Chord `{x, y}` may still be drawn in some color.
    pub open spec fn live(&self, x: int, y: int) -> bool {
        exists|c: int| 0 <= c < self.colors() && !(#[trigger] self.state(x, y, c) is Banned)
    }

    /// Whether chord `{x, y}` may still be drawn in some color.
    pub fn is_live(&self, x: usize, y: usize) -> (r: bool)
        requires
            self.wf(),
            x < self.pegs(),
            y < self.pegs(),
        ensures
            r == self.live(x as int, y as int),
    {
        let n_colors = self.color_count;
        for c in 0..n_colors
            invariant
                self.wf(),
                n_colors == self.colors(),
                x < self.pegs(),
                y < self.pegs(),
                forall|d: int| 0 <= d < c ==> #[trigger] self.state(x as int, y as int, d) is Banned,
        {
            if !matches!(self.state_at(x, y, c), StringCombo::Banned) {
                return true;
            }
        }
        false
    }

    /// Every live chord once, as `(greater peg, smaller peg)`, ordered by the
    /// greater peg and then by the smaller one.
    pub fn live_chords(&self) -> (r: Vec<(usize, usize)>)
        requires
            self.wf(),
        ensures
            forall|k: int|
                0 <= k < r@.len() ==> {
                    let (a, b) = #[trigger] r@[k];
                    b < a < self.pegs() && self.live(a as int, b as int)
                },
            forall|a: usize, b: usize|
                b < a < self.pegs() && self.live(a as int, b as int) ==> r@.contains((a, b)),
            forall|i: int, j: int|
                0 <= i < j < r@.len() ==> pair_before(#[trigger] r@[i], #[trigger] r@[j]),
    {
        let n = self.peg_count;
        let mut r: Vec<(usize, usize)> = Vec::new();
        for a in 0..n
            invariant
                self.wf(),
                n == self.pegs(),
                forall|k: int|
                    0 <= k < r@.len() ==> {
                        let (a1, b1) = #[trigger] r@[k];
                        b1 < a1 < a && self.live(a1 as int, b1 as int)
                    },
                forall|a1: usize, b1: usize|
                    b1 < a1 < a && self.live(a1 as int, b1 as int) ==> r@.contains((a1, b1)),
                forall|i: int, j: int|
                    0 <= i < j < r@.len() ==> pair_before(#[trigger] r@[i], #[trigger] r@[j]),
        {
            for b in 0..a
                invariant
                    self.wf(),
                    n == self.pegs(),
                    a < n,
                    forall|k: int|
                        0 <= k < r@.len() ==> {
                            let (a1, b1) = #[trigger] r@[k];
                            b1 < a1 <= a && (a1 == a ==> b1 < b) && self.live(a1 as int, b1 as int)
                        },
                    forall|a1: usize, b1: usize|
                        b1 < a1 <= a && (a1 == a ==> b1 < b) && self.live(a1 as int, b1 as int) ==> r@.contains(
                            (a1, b1),
                        ),
                    forall|i: int, j: int|
                        0 <= i < j < r@.len() ==> pair_before(#[trigger] r@[i], #[trigger] r@[j]),
            {
                if self.is_live(a, b) {
                    let ghost before = r@;
                    r.push((a, b));
                    assert forall|a1: usize, b1: usize|
                        b1 < a1 <= a && (a1 == a ==> b1 < b + 1) && self.live(a1 as int, b1 as int) implies r@.contains(
                        (a1, b1),
                    ) by {
                        if a1 == a && b1 == b {
                            assert(r@[r@.len() - 1] == (a1, b1));
                        } else {
                            let k = choose|k: int| 0 <= k < before.len() && before[k] == (a1, b1);
                            assert(r@[k] == (a1, b1));
                        }
                    }
                }
            }
        }
        r
    }
}

/// Pair `p` comes before pair `q`: by the first index, then by the second.
pub open spec fn pair_before(p: (usize, usize), q: (usize, usize)) -> bool {
    p.0 < q.0 || (p.0 == q.0 && p.1 < q.1)
}

/// A cell of `n` colors, each in state `s`.
fn uniform_cell(n: usize, s: StringCombo) -> (r: Vec<StringCombo>)
    ensures
        r@ == all_cells(s, n as nat),
{
    let mut v: Vec<StringCombo> = Vec::new();
    for i in 0..n
        invariant
            v@ == all_cells(s, i as nat),
    {
        v.push(s);
    }
    v
}

} // verus!
