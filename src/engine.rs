use vstd::prelude::*;
use crate::cache::{ComboCache, StringCombo, after_commit, initial_state};
use crate::draw::{draw_weighted_index, weight_total};
use crate::peg::{ring_steps, PegGroup};
use crate::chord::chords_cross;
use crate::tri_vec::{hi, lo, same_pair};

verus! {

/// A score of one: the most a chord can gain in similarity, in millionths.
pub const SCORE_SCALE: i64 = 1_000_000;

/// The score recorded for a miss step, and the floor that every real score
/// must beat.
pub const MISS_SCORE: i64 = -1_000_000;

/// One entry of the path: a chord from one peg to another in one color, with
/// its score in millionths.
#[derive(Debug, Clone, Copy, PartialEq, Eq, Structural)]
pub struct PathStep {
    pub from_idx: usize,
    pub to_idx: usize,
    pub color_idx: usize,
    pub score: i64,
}

/// Why an engine cannot be set up.
#[derive(Debug, Clone, Copy, PartialEq, Eq, Structural)]
pub enum ConfigError {
    /// Fewer than three pegs.
    TooFewPegs,
    /// An empty palette.
    NoColors,
    /// A path of no steps.
    ZeroPathLength,
    /// A peg ring radius outside the open range from 0 to 1000 thousandths.
    RadiusOutOfRange,
    /// A score radius outside the open range from 0 to 1000 thousandths.
    ScoreRadiusOutOfRange,
    /// An edge weight above 1000 thousandths.
    EdgeWeightOutOfRange,
}

/// Checks the fractions that only the scorer reads: the score radius must
/// lie strictly between 0 and 1000 thousandths, the edge weight at most at
/// 1000.
pub fn check_scoring_fractions(score_radius_permille: u32, edge_weight_permille: u32) -> (r: Result<(), ConfigError>)
    ensures
        !(0 < score_radius_permille < 1000) <==> r == Err::<(), ConfigError>(ConfigError::ScoreRadiusOutOfRange),
        0 < score_radius_permille < 1000 && edge_weight_permille > 1000 <==> r == Err::<(), ConfigError>(
            ConfigError::EdgeWeightOutOfRange,
        ),
        r is Ok <==> 0 < score_radius_permille < 1000 && edge_weight_permille <= 1000,
{
    if score_radius_permille == 0 || score_radius_permille >= 1000 {
        Err(ConfigError::ScoreRadiusOutOfRange)
    } else if edge_weight_permille > 1000 {
        Err(ConfigError::EdgeWeightOutOfRange)
    } else {
        Ok(())
    }
}

/// The score a cell holds, or the miss score when it holds none.
pub open spec fn cell_score(s: StringCombo) -> int {
    match s {
        StringCombo::Allowed(Some(v)) => v as int,
        _ => MISS_SCORE as int,
    }
}

/// Score of chord `{f, t}` in color `c`, the miss score standing for none.
pub open spec fn pair_score(cache: ComboCache, f: int, t: int, c: int) -> int {
    cell_score(cache.state(f, t, c))
}

/// Color `c` is the best color for chord `{f, t}`: its score beats the miss
/// score, every earlier color scores strictly less and no later color scores
/// more.
pub open spec fn wins_pair(cache: ComboCache, f: int, t: int, c: int) -> bool {
    &&& 0 <= c < cache.colors()
    &&& pair_score(cache, f, t, c) > MISS_SCORE
    &&& forall|d: int| 0 <= d < c ==> #[trigger] pair_score(cache, f, t, d) < pair_score(cache, f, t, c)
    &&& forall|d: int|
        c < d < cache.colors() ==> #[trigger] pair_score(cache, f, t, d) <= pair_score(cache, f, t, c)
}

/// Peg `t` is a destination for color `c` from peg `f`: `c` is the best color
/// of the chord.
pub open spec fn candidate(cache: ComboCache, f: int, t: int, c: int) -> bool {
    0 <= t < cache.pegs() && wins_pair(cache, f, t, c)
}

/// Peg `t` is the best destination for color `c` from peg `f`: the first
/// candidate with the highest score.
pub open spec fn best_destination(cache: ComboCache, f: int, t: int, c: int) -> bool {
    &&& candidate(cache, f, t, c)
    &&& forall|u: int|
        0 <= u < t && candidate(cache, f, u, c) ==> #[trigger] pair_score(cache, f, u, c) < pair_score(
            cache,
            f,
            t,
            c,
        )
    &&& forall|u: int|
        t < u < cache.pegs() && candidate(cache, f, u, c) ==> #[trigger] pair_score(cache, f, u, c)
            <= pair_score(cache, f, t, c)
}

/// `p` is what color `c`, standing at peg `f`, proposes: its best destination
/// with its score, or nothing when it has no candidate.
pub open spec fn is_proposal(cache: ComboCache, f: int, c: int, p: Option<PathStep>) -> bool {
    match p {
        Some(s) => {
            &&& s.from_idx == f
            &&& s.to_idx != f
            &&& s.color_idx == c
            &&& best_destination(cache, f, s.to_idx as int, c)
            &&& s.score == pair_score(cache, f, s.to_idx as int, c)
        },
        None => forall|t: int| !candidate(cache, f, t, c),
    }
}

/// `props` holds, for each color standing at its cursor in `curs`, what it
/// proposes in `cache`.
pub open spec fn proposals_for(cache: ComboCache, curs: Seq<usize>, props: Seq<Option<PathStep>>) -> bool {
    &&& props.len() == cache.colors()
    &&& forall|c: int| 0 <= c < cache.colors() ==> is_proposal(cache, curs[c] as int, c, #[trigger] props[c])
}

/// The proposal enters the weighted draw: its score is positive.
pub open spec fn positive(p: Option<PathStep>) -> bool {
    p matches Some(s) && s.score > 0
}

/// A proposal's weight in the draw: its score, at most one, when positive.
pub open spec fn weight(p: Option<PathStep>) -> int {
    match p {
        Some(s) => if s.score <= 0 {
            0
        } else if s.score > SCORE_SCALE {
            SCORE_SCALE as int
        } else {
            s.score as int
        },
        None => 0,
    }
}

/// The forced advance of a color with nothing positive to propose: one peg
/// onward, with the miss score.
pub open spec fn miss_step(cur: usize, n: nat, c: int) -> PathStep {
    PathStep { from_idx: cur, to_idx: ((cur + 1) % (n as int)) as usize, color_idx: c as usize, score: MISS_SCORE }
}

/// The miss steps of the first `k` colors of a round, in color order.
pub open spec fn round_misses(props: Seq<Option<PathStep>>, curs: Seq<usize>, n: nat, k: int) -> Seq<PathStep>
    decreases k,
{
    if k <= 0 {
        seq![]
    } else if positive(props[k - 1]) {
        round_misses(props, curs, n, k - 1)
    } else {
        round_misses(props, curs, n, k - 1).push(miss_step(curs[k - 1], n, k - 1))
    }
}

/// `choice` is a possible outcome of the draw: nothing when no proposal is
/// positive, else a color whose proposal is.
pub open spec fn valid_choice(props: Seq<Option<PathStep>>, choice: Option<usize>) -> bool {
    match choice {
        Some(k) => k < props.len() && positive(props[k as int]),
        None => forall|c: int| 0 <= c < props.len() ==> !positive(#[trigger] props[c]),
    }
}

/// `new` differs from `old` only where an unscored chord got a score from
/// `score_of`.
pub open spec fn rescored<F: Fn(usize, usize, usize) -> Option<i64>>(
    old: ComboCache,
    new: ComboCache,
    score_of: F,
) -> bool {
    &&& new.wf()
    &&& new.pegs() == old.pegs()
    &&& new.colors() == old.colors()
    &&& forall|x: int, y: int, c: int|
        #![trigger new.state(x, y, c)]
        old.valid(x, y, c) ==> new.state(x, y, c) == old.state(x, y, c) || (old.state(x, y, c)
            == StringCombo::Allowed(None) && scored_by(new.state(x, y, c), x, y, c, score_of))
}

/// `s` holds a score that `score_of` gives chord `{x, y}` in color `c`.
pub open spec fn scored_by<F: Fn(usize, usize, usize) -> Option<i64>>(
    s: StringCombo,
    x: int,
    y: int,
    c: int,
    score_of: F,
) -> bool {
    s matches StringCombo::Allowed(Some(v)) && score_of.ensures(
        (hi(x, y) as usize, lo(x, y) as usize, c as usize),
        Some(v),
    )
}

/// Chord `{x, y}` has a state other than unscored in color `c`, or
/// `score_of` found nothing to score it on.
pub open spec fn resolved<F: Fn(usize, usize, usize) -> Option<i64>>(
    cache: ComboCache,
    x: int,
    y: int,
    c: int,
    score_of: F,
) -> bool {
    cache.state(x, y, c) != StringCombo::Allowed(None) || score_of.ensures(
        (hi(x, y) as usize, lo(x, y) as usize, c as usize),
        None,
    )
}

proof fn lemma_rescored_step<F: Fn(usize, usize, usize) -> Option<i64>>(
    a: ComboCache,
    b: ComboCache,
    c: ComboCache,
    f: int,
    t: int,
    d: int,
    r: Option<i64>,
    score_of: F,
)
    requires
        rescored(a, b, score_of),
        b.valid(f, t, d),
        c.wf(),
        match b.state(f, t, d) {
            StringCombo::Allowed(Some(s)) => r == Some(s) && c == b,
            StringCombo::Allowed(None) => {
                &&& score_of.ensures((hi(f, t) as usize, lo(f, t) as usize, d as usize), r)
                &&& b.updated(&c, f, t, d, StringCombo::Allowed(r))
            },
            _ => r is None && c == b,
        },
    ensures
        rescored(a, c, score_of),
        resolved(c, f, t, d, score_of),
        forall|x: int, y: int, e: int|
            #![trigger c.state(x, y, e)]
            b.valid(x, y, e) && resolved(b, x, y, e, score_of) ==> resolved(c, x, y, e, score_of),
{
    if b.state(f, t, d) == StringCombo::Allowed(None) {
        assert forall|x: int, y: int, e: int|
            #![trigger c.state(x, y, e)]
            a.valid(x, y, e) implies c.state(x, y, e) == a.state(x, y, e) || (a.state(x, y, e)
            == StringCombo::Allowed(None) && scored_by(c.state(x, y, e), x, y, e, score_of)) by {
            assert(b.state(x, y, e) == b.state(x, y, e));
            if crate::tri_vec::same_pair(x, y, f, t) && e == d {
                b.lemma_same_pair(x, y, f, t, d);
            }
        }
        assert forall|x: int, y: int, e: int|
            #![trigger c.state(x, y, e)]
            b.valid(x, y, e) && resolved(b, x, y, e, score_of) implies resolved(c, x, y, e, score_of) by {
            if crate::tri_vec::same_pair(x, y, f, t) && e == d {
                b.lemma_same_pair(x, y, f, t, d);
            }
        }
    }
}

/// Where color `c`'s cursor goes after a round: a positive proposal moves
/// it only when drawn; a color without one advances by a miss step.
pub open spec fn next_cursor(props: Seq<Option<PathStep>>, choice: Option<usize>, cur: usize, n: nat, c: int) -> usize {
    if positive(props[c]) {
        if choice == Some(c as usize) {
            props[c]->Some_0.to_idx
        } else {
            cur
        }
    } else {
        miss_step(cur, n, c).to_idx
    }
}

/// The score a proposal reports, if any.
pub open spec fn proposal_score(p: Option<PathStep>) -> Option<i64> {
    match p {
        Some(s) => Some(s.score),
        None => None,
    }
}

/// The chord a round draws: the chosen color's proposal.
pub open spec fn round_drawn(props: Seq<Option<PathStep>>, choice: Option<usize>) -> Seq<PathStep> {
    match choice {
        Some(k) => seq![props[k as int]->Some_0],
        None => seq![],
    }
}

/// `new` is `old` after drawing `s` in color `k`.
pub open spec fn committed(old: ComboCache, new: ComboCache, s: PathStep, k: int) -> bool {
    &&& new.pegs() == old.pegs()
    &&& new.colors() == old.colors()
    &&& forall|x: int, y: int, c: int|
        #![trigger new.state(x, y, c)]
        old.valid(x, y, c) ==> new.state(x, y, c) == after_commit(
            old.state(x, y, c),
            s.from_idx as int,
            s.to_idx as int,
            k,
            x,
            y,
            c,
        )
}

/// `new` is the engine `old` after a round on proposals `props` with draw
/// outcome `choice`: the misses and the drawn chord appended to the path,
/// the cursors and scores moved on, the drawn chord committed to the cache,
/// one more step counted.
pub open spec fn round_outcome(old: StringPath, new: StringPath, props: Seq<Option<PathStep>>, choice: Option<usize>) -> bool {
    &&& new.ring() == old.ring()
    &&& new.length() == old.length()
    &&& new.step_count() == old.step_count() + 1
    &&& new.steps() == old.steps() + round_misses(props, old.cursors(), old.n(), old.colors() as int) + round_drawn(
        props,
        choice,
    )
    &&& new.cursors().len() == old.cursors().len()
    &&& forall|c: int|
        0 <= c < old.colors() ==> #[trigger] new.cursors()[c] == next_cursor(props, choice, old.cursors()[c], old.n(), c)
    &&& new.scores().len() == old.scores().len()
    &&& forall|c: int| 0 <= c < old.colors() ==> #[trigger] new.scores()[c] == proposal_score(props[c])
    &&& new.drawn() == match choice {
        Some(k) => props[k as int],
        None => None,
    }
    &&& match choice {
        Some(k) => committed(old.combos(), new.combos(), props[k as int]->Some_0, k as int),
        None => new.combos() == old.combos(),
    }
}

/// A miss step: one peg onward, with the miss score.
pub open spec fn is_miss(s: PathStep, n: nat) -> bool {
    s.score == MISS_SCORE && s.to_idx == (s.from_idx + 1) % (n as int)
}

proof fn lemma_round_misses(props: Seq<Option<PathStep>>, curs: Seq<usize>, n: nat, k: int)
    requires
        0 <= k <= props.len(),
        0 < n <= usize::MAX,
    ensures
        round_misses(props, curs, n, k).len() <= k,
        (forall|j: int| 0 <= j < k ==> !positive(#[trigger] props[j])) ==> round_misses(props, curs, n, k).len()
            == k,
        (exists|j: int| 0 <= j < k && positive(#[trigger] props[j])) ==> round_misses(props, curs, n, k).len()
            < k,
        forall|i: int|
            0 <= i < round_misses(props, curs, n, k).len() ==> is_miss(
                #[trigger] round_misses(props, curs, n, k)[i],
                n,
            ),
    decreases k,
{
    if k > 0 {
        lemma_round_misses(props, curs, n, k - 1);
        if exists|j: int| 0 <= j < k && positive(#[trigger] props[j]) {
            let j = choose|j: int| 0 <= j < k && positive(#[trigger] props[j]);
            if j < k - 1 {
                assert(exists|j: int| 0 <= j < k - 1 && positive(#[trigger] props[j]));
            }
        }
        let m = miss_step(curs[k - 1], n, k - 1);
        assert(is_miss(m, n));
    }
}

proof fn lemma_total_bound(w: Seq<u128>)
    requires
        forall|i: int| 0 <= i < w.len() ==> #[trigger] w[i] <= SCORE_SCALE,
    ensures
        0 <= weight_total(w) <= w.len() * SCORE_SCALE,
    decreases w.len(),
{
    if w.len() > 0 {
        lemma_total_bound(w.drop_last());
    }
}

/// The path with its single-peg hops collapsed, over the first `k` entries,
/// and where each color stands in it. An entry that spans more than one peg
/// is kept. A shorter one becomes a jump from where its color stands to the
/// entry's end, unless that chord is banned for the color; then it is
/// dropped.
pub open spec fn clean_upto(path: Seq<PathStep>, cache: ComboCache, n: nat, k: int) -> (
    Seq<PathStep>,
    Seq<Option<usize>>,
)
    decreases k,
{
    if k <= 0 {
        (seq![], Seq::new(cache.colors(), |_c: int| None::<usize>))
    } else {
        let (out, curs) = clean_upto(path, cache, n, k - 1);
        let st = path[k - 1];
        let cur: usize = match curs[st.color_idx as int] {
            Some(i) => i,
            None => st.from_idx,
        };
        if ring_steps(n as int, st.from_idx as int, st.to_idx as int) > 1 {
            (out.push(st), curs.update(st.color_idx as int, Some(st.to_idx)))
        } else if !(cache.state(cur as int, st.to_idx as int, st.color_idx as int) is Banned) {
            (
                out.push(PathStep { from_idx: cur, to_idx: st.to_idx, color_idx: st.color_idx, score: 0 }),
                curs.update(st.color_idx as int, Some(st.to_idx)),
            )
        } else {
            (out, curs.update(st.color_idx as int, Some(cur)))
        }
    }
}

/// The path generation engine: per color a cursor peg, a pairwise cache of
/// chord states, and the path drawn so far.
pub struct StringPath {
    pegs: PegGroup,
    path_length: usize,
    cache: ComboCache,
    path: Vec<PathStep>,
    cur_step: usize,
    cur_idxs: Vec<usize>,
    cur_scores: Vec<Option<i64>>,
    last_drawn: Option<PathStep>,
}

impl StringPath {
    pub closed spec fn ring(&self) -> PegGroup {
        self.pegs
    }

    pub closed spec fn combos(&self) -> ComboCache {
        self.cache
    }

    pub closed spec fn steps(&self) -> Seq<PathStep> {
        self.path@
    }

    pub closed spec fn cursors(&self) -> Seq<usize> {
        self.cur_idxs@
    }

    pub closed spec fn scores(&self) -> Seq<Option<i64>> {
        self.cur_scores@
    }

    pub closed spec fn step_count(&self) -> nat {
        self.cur_step as nat
    }

    pub closed spec fn length(&self) -> nat {
        self.path_length as nat
    }

    pub closed spec fn drawn(&self) -> Option<PathStep> {
        self.last_drawn
    }

    /// The number of pegs.
    pub open spec fn n(&self) -> nat {
        self.ring().count()
    }

    /// The number of colors.
    pub open spec fn colors(&self) -> nat {
        self.combos().colors()
    }

    /// A path entry names pegs of the ring and a color of the palette.
    pub open spec fn step_ok(&self, s: PathStep) -> bool {
        s.from_idx < self.n() && s.to_idx < self.n() && s.color_idx < self.colors()
    }

    pub open spec fn wf(&self) -> bool {
        &&& self.core_wf()
        &&& self.colors() == 1 ==> self.steps().len() == self.step_count()
    }

    /// The invariant but for the tie between the path and the step count.
    pub open spec fn core_wf(&self) -> bool {
        &&& self.combos().wf()
        &&& self.combos().pegs() == self.n()
        &&& 3 <= self.n() <= usize::MAX
        &&& self.colors() >= 1
        &&& self.cursors().len() == self.colors()
        &&& self.scores().len() == self.colors()
        &&& forall|c: int| 0 <= c < self.colors() ==> #[trigger] self.cursors()[c] < self.n()
        &&& forall|i: int| 0 <= i < self.steps().len() ==> self.step_ok(#[trigger] self.steps()[i])
        &&& self.step_count() <= self.length()
    }

    /// What every color proposes in the current cache.
    pub open spec fn proposals_ok(&self, props: Seq<Option<PathStep>>) -> bool {
        proposals_for(self.combos(), self.cursors(), props)
    }
}

impl StringPath {
    /// An engine over a ring of `pin_count` pegs inscribed in an image of
    /// `dimensions` at `pin_radius_permille` thousandths, drawing `path_length`
    /// steps in `color_count` colors. Every pair whose pegs are at most
    /// `ban_threshold` steps apart is banned; every cursor starts at peg 0.
    pub fn new(
        pin_count: usize,
        dimensions: (u32, u32),
        pin_radius_permille: u32,
        color_count: usize,
        path_length: usize,
        ban_threshold: usize,
    ) -> (r: Result<StringPath, ConfigError>)
        ensures
            pin_count < 3 <==> r == Err::<StringPath, ConfigError>(ConfigError::TooFewPegs),
            pin_count >= 3 && color_count == 0 <==> r == Err::<StringPath, ConfigError>(ConfigError::NoColors),
            pin_count >= 3 && color_count > 0 && path_length == 0 <==> r == Err::<StringPath, ConfigError>(
                ConfigError::ZeroPathLength,
            ),
            pin_count >= 3 && color_count > 0 && path_length > 0 && !(0 < pin_radius_permille < 1000) <==> r
                == Err::<StringPath, ConfigError>(ConfigError::RadiusOutOfRange),
            r is Ok <==> pin_count >= 3 && color_count > 0 && path_length > 0 && 0 < pin_radius_permille < 1000,
            r matches Ok(sp) ==> {
                &&& sp.wf()
                &&& sp.n() == pin_count
                &&& sp.ring().dims() == dimensions
                &&& sp.ring().radius() == pin_radius_permille
                &&& sp.colors() == color_count
                &&& sp.length() == path_length
                &&& sp.step_count() == 0
                &&& sp.steps().len() == 0
                &&& sp.drawn() is None
                &&& forall|c: int| 0 <= c < color_count ==> #[trigger] sp.cursors()[c] == 0
                &&& forall|c: int| 0 <= c < color_count ==> #[trigger] sp.scores()[c] is None
                &&& forall|x: int, y: int, c: int|
                    sp.combos().valid(x, y, c) ==> #[trigger] sp.combos().state(x, y, c) == initial_state(
                        pin_count as int,
                        x,
                        y,
                        ban_threshold as int,
                    )
            },
    {
        if pin_count < 3 {
            return Err(ConfigError::TooFewPegs);
        }
        if color_count == 0 {
            return Err(ConfigError::NoColors);
        }
        if path_length == 0 {
            return Err(ConfigError::ZeroPathLength);
        }
        if pin_radius_permille == 0 || pin_radius_permille >= 1000 {
            return Err(ConfigError::RadiusOutOfRange);
        }
        let pegs = PegGroup::new_circle_at_center(pin_count, dimensions, pin_radius_permille);
        let cache = ComboCache::new(pin_count, color_count, ban_threshold);
        let mut cur_idxs: Vec<usize> = Vec::new();
        let mut cur_scores: Vec<Option<i64>> = Vec::new();
        for c in 0..color_count
            invariant
                cur_idxs@.len() == c,
                cur_scores@.len() == c,
                forall|d: int| 0 <= d < c ==> #[trigger] cur_idxs@[d] == 0,
                forall|d: int| 0 <= d < c ==> #[trigger] cur_scores@[d] is None,
        {
            cur_idxs.push(0);
            cur_scores.push(None);
        }
        Ok(StringPath {
            pegs,
            path_length,
            cache,
            path: Vec::new(),
            cur_step: 0,
            cur_idxs,
            cur_scores,
            last_drawn: None,
        })
    }

    /// The path so far, misses included.
    pub fn path(&self) -> (r: &Vec<PathStep>)
        ensures
            r@ == self.steps(),
    {
        &self.path
    }

    /// The number of steps taken.
    pub fn cur_step(&self) -> (r: usize)
        ensures
            r == self.step_count(),
    {
        self.cur_step
    }

    /// The number of steps to take.
    pub fn path_length(&self) -> (r: usize)
        ensures
            r == self.length(),
    {
        self.path_length
    }

    /// The peg each color stands at.
    pub fn cur_idxs(&self) -> (r: &Vec<usize>)
        ensures
            r@ == self.cursors(),
    {
        &self.cur_idxs
    }

    /// Each color's last proposed score, if it had one.
    pub fn cur_scores(&self) -> (r: &Vec<Option<i64>>)
        ensures
            r@ == self.scores(),
    {
        &self.cur_scores
    }

    /// The chord drawn by the last step, if it drew one.
    pub fn last_drawn(&self) -> (r: Option<PathStep>)
        ensures
            r == self.drawn(),
    {
        self.last_drawn
    }

    /// The peg ring.
    pub fn pegs(&self) -> (r: &PegGroup)
        ensures
            *r == self.ring(),
    {
        &self.pegs
    }

    /// The chord states.
    pub fn combo_scores(&self) -> (r: &ComboCache)
        ensures
            *r == self.combos(),
    {
        &self.cache
    }

    /// The number of colors.
    pub fn color_count(&self) -> (r: usize)
        requires
            self.wf(),
        ensures
            r == self.colors(),
    {
        self.cache.color_count()
    }

    /// The score chord `{f, t}` holds in color `c`, the miss score standing
    /// for none.
    fn score_in_cache(&self, f: usize, t: usize, c: usize) -> (r: i64)
        requires
            self.wf(),
            self.combos().valid(f as int, t as int, c as int),
        ensures
            r == pair_score(self.combos(), f as int, t as int, c as int),
    {
        match self.cache.state_at(f, t, c) {
            StringCombo::Allowed(Some(v)) => v,
            _ => MISS_SCORE,
        }
    }

    /// The best color of chord `{f, t}` with its score, or nothing with the
    /// miss score when no color scores above it.
    fn best_color_for_pair(&self, f: usize, t: usize) -> (r: (Option<usize>, i64))
        requires
            self.wf(),
            f < self.n(),
            t < self.n(),
        ensures
            forall|c: int| wins_pair(self.combos(), f as int, t as int, c) <==> (r.0 matches Some(b) && b == c),
            r.0 matches Some(c) ==> r.1 == pair_score(self.combos(), f as int, t as int, c as int),
    {
        let ghost cache = self.combos();
        let n_colors = self.color_count();
        let mut best: Option<usize> = None;
        let mut best_score: i64 = MISS_SCORE;
        for c in 0..n_colors
            invariant
                self.wf(),
                n_colors == self.colors(),
                cache == self.combos(),
                f < self.n(),
                t < self.n(),
                best_score == match best {
                    Some(b) => pair_score(cache, f as int, t as int, b as int),
                    None => MISS_SCORE as int,
                },
                forall|d: int| 0 <= d < c ==> #[trigger] pair_score(cache, f as int, t as int, d) <= best_score,
                match best {
                    Some(b) => {
                        &&& b < c
                        &&& best_score > MISS_SCORE
                        &&& forall|d: int|
                            0 <= d < b ==> #[trigger] pair_score(cache, f as int, t as int, d) < best_score
                    },
                    None => true,
                },
        {
            let s = self.score_in_cache(f, t, c);
            if s > best_score {
                best = Some(c);
                best_score = s;
            }
        }
        assert forall|c: int| wins_pair(cache, f as int, t as int, c) <==> (best matches Some(b) && b == c) by {
            if wins_pair(cache, f as int, t as int, c) {
                if let Some(b) = best {
                    if c < b {
                        assert(pair_score(cache, f as int, t as int, b as int) <= pair_score(cache, f as int, t as int, c));
                    } else if c > b {
                        assert(pair_score(cache, f as int, t as int, b as int) < pair_score(cache, f as int, t as int, c));
                    }
                }
            }
        }
        (best, best_score)
    }

    /// What color `color_idx` proposes from its cursor, as the cache stands.
    pub fn get_best_step(&self, color_idx: usize) -> (r: Option<PathStep>)
        requires
            self.wf(),
            color_idx < self.colors(),
        ensures
            is_proposal(self.combos(), self.cursors()[color_idx as int] as int, color_idx as int, r),
    {
        let ghost cache = self.combos();
        let from_idx = self.cur_idxs[color_idx];
        let n = self.pegs.len();
        let ghost fi = from_idx as int;
        let ghost ci = color_idx as int;
        let mut found: Option<usize> = None;
        let mut best_score: i64 = MISS_SCORE;
        for to_idx in 0..n
            invariant
                self.wf(),
                n == self.n(),
                cache == self.combos(),
                from_idx < n,
                fi == from_idx,
                ci == color_idx,
                color_idx < self.colors(),
                best_score == match found {
                    Some(b) => pair_score(cache, fi, b as int, ci),
                    None => MISS_SCORE as int,
                },
                forall|u: int|
                    0 <= u < to_idx && candidate(cache, fi, u, ci) ==> #[trigger] pair_score(cache, fi, u, ci)
                        <= best_score,
                match found {
                    Some(b) => {
                        &&& b < to_idx
                        &&& candidate(cache, fi, b as int, ci)
                        &&& forall|u: int|
                            0 <= u < b && candidate(cache, fi, u, ci) ==> #[trigger] pair_score(cache, fi, u, ci)
                                < best_score
                    },
                    None => forall|u: int| 0 <= u < to_idx ==> !candidate(cache, fi, u, ci),
                },
        {
            let (winner, s) = self.best_color_for_pair(from_idx, to_idx);
            if winner == Some(color_idx) && s > best_score {
                found = Some(to_idx);
                best_score = s;
            }
        }
        match found {
            Some(t) => Some(PathStep { from_idx, to_idx: t, color_idx, score: best_score }),
            None => {
                assert forall|t: int| !candidate(cache, fi, t, ci) by {
                    if 0 <= t < n {
                    }
                }
                None
            },
        }
    }
}

impl StringPath {
    /// Scores, through the cache, every chord from a color's cursor in every
    /// color, so that the proposals can be read off the cache.
    fn score_candidates<F: Fn(usize, usize, usize) -> Option<i64>>(&mut self, score_of: &F)
        requires
            old(self).wf(),
            forall|u: usize, v: usize, d: usize| score_of.requires((u, v, d)),
        ensures
            final(self).wf(),
            rescored(old(self).combos(), final(self).combos(), *score_of),
            final(self).ring() == old(self).ring(),
            final(self).steps() == old(self).steps(),
            final(self).cursors() == old(self).cursors(),
            final(self).scores() == old(self).scores(),
            final(self).step_count() == old(self).step_count(),
            final(self).length() == old(self).length(),
            final(self).drawn() == old(self).drawn(),
            forall|c: int, t: int, d: int|
                0 <= c < final(self).colors() && 0 <= t < final(self).n() && 0 <= d < final(self).colors()
                    ==> resolved(final(self).combos(), final(self).cursors()[c] as int, t, d, *score_of),
    {
        let n = self.pegs.len();
        let n_colors = self.cache.color_count();
        assert forall|x: int, y: int, c: int|
            #![trigger self.combos().state(x, y, c)]
            old(self).combos().valid(x, y, c) implies self.combos().state(x, y, c) == old(self).combos().state(x, y, c) by {}
        for c in 0..n_colors
            invariant
                self.wf(),
                n == self.n(),
                n_colors == self.colors(),
                forall|u: usize, v: usize, d: usize| score_of.requires((u, v, d)),
                rescored(old(self).combos(), self.combos(), *score_of),
                self.ring() == old(self).ring(),
                self.steps() == old(self).steps(),
                self.cursors() == old(self).cursors(),
                self.scores() == old(self).scores(),
                self.step_count() == old(self).step_count(),
                self.length() == old(self).length(),
                self.drawn() == old(self).drawn(),
                forall|c1: int, t: int, d: int|
                    0 <= c1 < c && 0 <= t < n && 0 <= d < n_colors ==> resolved(self.combos(), self.cursors()[c1] as int, t, d, *score_of),
        {
            let f = self.cur_idxs[c];
            for t in 0..n
                invariant
                    self.wf(),
                    n == self.n(),
                    n_colors == self.colors(),
                    c < n_colors,
                    f == self.cursors()[c as int],
                    forall|u: usize, v: usize, d: usize| score_of.requires((u, v, d)),
                    rescored(old(self).combos(), self.combos(), *score_of),
                    self.ring() == old(self).ring(),
                    self.steps() == old(self).steps(),
                    self.cursors() == old(self).cursors(),
                    self.scores() == old(self).scores(),
                    self.step_count() == old(self).step_count(),
                    self.length() == old(self).length(),
                    self.drawn() == old(self).drawn(),
                    forall|c1: int, t1: int, d: int|
                        (0 <= c1 < c && 0 <= t1 < n && 0 <= d < n_colors) || (c1 == c && 0 <= t1 < t && 0 <= d < n_colors)
                            ==> resolved(self.combos(), self.cursors()[c1] as int, t1, d, *score_of),
            {
                for d in 0..n_colors
                    invariant
                        self.wf(),
                        n == self.n(),
                        n_colors == self.colors(),
                        c < n_colors,
                        t < n,
                        f == self.cursors()[c as int],
                        forall|u: usize, v: usize, d: usize| score_of.requires((u, v, d)),
                        rescored(old(self).combos(), self.combos(), *score_of),
                        self.ring() == old(self).ring(),
                        self.steps() == old(self).steps(),
                        self.cursors() == old(self).cursors(),
                        self.scores() == old(self).scores(),
                        self.step_count() == old(self).step_count(),
                        self.length() == old(self).length(),
                        self.drawn() == old(self).drawn(),
                        forall|c1: int, t1: int, d1: int|
                            (0 <= c1 < c && 0 <= t1 < n && 0 <= d1 < n_colors) || (c1 == c && 0 <= t1 < t && 0 <= d1
                                < n_colors) || (c1 == c && t1 == t && 0 <= d1 < d) ==> resolved(
                                self.combos(),
                                self.cursors()[c1] as int,
                                t1,
                                d1,
                                *score_of,
                            ),
                {
                    let ghost before = self.combos();
                    let r = self.cache.calculate_current_score(d, f, t, score_of);
                    proof {
                        lemma_rescored_step(
                            old(self).combos(),
                            before,
                            self.combos(),
                            f as int,
                            t as int,
                            d as int,
                            r,
                            *score_of,
                        );
                        assert forall|c1: int, t1: int, d1: int|
                            (0 <= c1 < c && 0 <= t1 < n && 0 <= d1 < n_colors) || (c1 == c && 0 <= t1 < t && 0 <= d1
                                < n_colors) || (c1 == c && t1 == t && 0 <= d1 < d + 1) implies resolved(
                            self.combos(),
                            self.cursors()[c1] as int,
                            t1,
                            d1,
                            *score_of,
                        ) by {
                            assert(self.combos().state(self.cursors()[c1] as int, t1, d1) == self.combos().state(
                                self.cursors()[c1] as int,
                                t1,
                                d1,
                            ));
                        }
                    }
                }
            }
        }
    }

    /// Scores the chords from every color's cursor through the cache, calling
    /// `score_of` on those not scored yet, then returns what each color
    /// proposes.
    pub fn get_best_steps<F: Fn(usize, usize, usize) -> Option<i64>>(&mut self, score_of: &F) -> (r: Vec<
        Option<PathStep>,
    >)
        requires
            old(self).wf(),
            forall|u: usize, v: usize, d: usize| score_of.requires((u, v, d)),
        ensures
            final(self).wf(),
            rescored(old(self).combos(), final(self).combos(), *score_of),
            final(self).ring() == old(self).ring(),
            final(self).steps() == old(self).steps(),
            final(self).cursors() == old(self).cursors(),
            final(self).scores() == old(self).scores(),
            final(self).step_count() == old(self).step_count(),
            final(self).length() == old(self).length(),
            final(self).drawn() == old(self).drawn(),
            forall|c: int, t: int, d: int|
                0 <= c < final(self).colors() && 0 <= t < final(self).n() && 0 <= d < final(self).colors()
                    ==> resolved(final(self).combos(), final(self).cursors()[c] as int, t, d, *score_of),
            final(self).proposals_ok(r@),
    {
        self.score_candidates(score_of);
        let n_colors = self.cache.color_count();
        let mut best_steps: Vec<Option<PathStep>> = Vec::new();
        for c in 0..n_colors
            invariant
                self.wf(),
                n_colors == self.colors(),
                best_steps@.len() == c,
                forall|d: int|
                    0 <= d < c ==> is_proposal(self.combos(), self.cursors()[d] as int, d, #[trigger] best_steps@[d]),
        {
            let best_step = self.get_best_step(c);
            best_steps.push(best_step);
        }
        best_steps
    }
}

impl StringPath {
    /// Ends a round on the proposals of every color and the outcome of the
    /// draw among the positive ones. Each color without a positive proposal
    /// takes a miss step one peg onward; then the chosen proposal, if any, is
    /// drawn: its color moves to its end, the chord is filled for that color
    /// and consumed for the others, and every allowed chord it crosses loses
    /// its score.
    pub fn commit_round(&mut self, proposals: &Vec<Option<PathStep>>, choice: Option<usize>)
        requires
            old(self).wf(),
            old(self).proposals_ok(proposals@),
            valid_choice(proposals@, choice),
            old(self).step_count() < old(self).length(),
        ensures
            final(self).wf(),
            round_outcome(*old(self), *final(self), proposals@, choice),
    {
        let n = self.pegs.len();
        let n_colors = self.cache.color_count();
        let ghost curs = self.cursors();
        for c in 0..n_colors
            invariant
                self.core_wf(),
                old(self).wf(),
                n == self.n(),
                n_colors == self.colors(),
                self.ring() == old(self).ring(),
                self.combos() == old(self).combos(),
                self.length() == old(self).length(),
                self.step_count() == old(self).step_count(),
                self.drawn() == old(self).drawn(),
                curs == old(self).cursors(),
                proposals@.len() == n_colors,
                old(self).proposals_ok(proposals@),
                self.steps() == old(self).steps() + round_misses(proposals@, curs, n as nat, c as int),
                forall|d: int|
                    0 <= d < n_colors ==> #[trigger] self.cursors()[d] == if d < c {
                        next_cursor(proposals@, None, curs[d], n as nat, d)
                    } else {
                        curs[d]
                    },
                forall|d: int|
                    0 <= d < n_colors ==> #[trigger] self.scores()[d] == if d < c {
                        proposal_score(proposals@[d])
                    } else {
                        old(self).scores()[d]
                    },
        {
            let p = proposals[c];
            let is_positive = match p {
                Some(st) => st.score > 0,
                None => false,
            };
            if is_positive {
                self.cur_scores.set(c, proposal_score_of(p));
            } else {
                let from_idx = self.cur_idxs[c];
                let to_idx = (from_idx + 1) % n;
                let miss = PathStep { from_idx, to_idx, color_idx: c, score: MISS_SCORE };
                self.path.push(miss);
                self.cur_idxs.set(c, to_idx);
                self.cur_scores.set(c, proposal_score_of(p));
            }
        }
        match choice {
            Some(k) => {
                let st = proposals[k].unwrap();
                let ghost before = self.combos();
                let ghost path_before = self.steps();
                self.cur_idxs.set(k, st.to_idx);
                self.path.push(st);
                self.cache.set_combo_to_filled(st.from_idx, st.to_idx, k);
                let ghost filled = self.combos();
                self.cache.unscore_intersected(st.from_idx, st.to_idx);
                self.last_drawn = Some(st);
                proof {
                    assert forall|x: int, y: int, c: int|
                        #![trigger self.combos().state(x, y, c)]
                        before.valid(x, y, c) implies self.combos().state(x, y, c) == after_commit(
                            before.state(x, y, c),
                            st.from_idx as int,
                            st.to_idx as int,
                            k as int,
                            x,
                            y,
                            c,
                        ) by {
                        assert(filled.state(x, y, c) == filled.state(x, y, c));
                    }
                    assert(self.steps() == path_before.push(st));
                }
            },
            None => {
                self.last_drawn = None;
            },
        }
        self.cur_step = self.cur_step + 1;
        proof {
            lemma_round_misses(proposals@, old(self).cursors(), old(self).n(), old(self).colors() as int);
            if old(self).colors() == 1 {
                if positive(proposals@[0]) {
                    assert(exists|j: int| 0 <= j < 1 && positive(#[trigger] proposals@[j]));
                }
            }
        }
        assert(self.steps() == old(self).steps() + round_misses(
            proposals@,
            old(self).cursors(),
            old(self).n(),
            old(self).colors() as int,
        ) + round_drawn(proposals@, choice));
        assert(forall|c: int|
            0 <= c < old(self).colors() ==> #[trigger] self.cursors()[c] == next_cursor(
                proposals@,
                choice,
                old(self).cursors()[c],
                old(self).n(),
                c,
            ));
        assert(forall|c: int|
            0 <= c < old(self).colors() ==> #[trigger] self.scores()[c] == proposal_score(proposals@[c]));
        assert(match choice {
            Some(k) => committed(old(self).combos(), self.combos(), proposals@[k as int]->Some_0, k as int),
            None => self.combos() == old(self).combos(),
        });
    }
}

/// The score a proposal reports, if any.
fn proposal_score_of(p: Option<PathStep>) -> (r: Option<i64>)
    ensures
        r == proposal_score(p),
{
    match p {
        Some(s) => Some(s.score),
        None => None,
    }
}

/// Each proposal's weight in the draw.
fn pool_weights(proposals: &Vec<Option<PathStep>>) -> (r: Vec<u128>)
    ensures
        r@.len() == proposals@.len(),
        forall|c: int| 0 <= c < r@.len() ==> #[trigger] r@[c] == weight(proposals@[c]),
{
    let mut weights: Vec<u128> = Vec::new();
    for c in 0..proposals.len()
        invariant
            weights@.len() == c,
            forall|d: int| 0 <= d < c ==> #[trigger] weights@[d] == weight(proposals@[d]),
    {
        let w: u128 = match proposals[c] {
            Some(st) => if st.score <= 0 {
                0
            } else if st.score > SCORE_SCALE {
                SCORE_SCALE as u128
            } else {
                st.score as u128
            },
            None => 0,
        };
        weights.push(w);
    }
    weights
}

impl StringPath {
    /// Takes one step, unless all `path_length` have been taken: scores what
    /// is needed through `score_of`, draws one color among those with a
    /// positive proposal (weighted by score, at most one), and ends the round
    /// as `commit_round` does. Returns whether a step was taken.
    pub fn step<F: Fn(usize, usize, usize) -> Option<i64>>(&mut self, score_of: &F) -> (r: bool)
        requires
            old(self).wf(),
            forall|u: usize, v: usize, d: usize| score_of.requires((u, v, d)),
        ensures
            r == (old(self).step_count() < old(self).length()),
            !r ==> *final(self) == *old(self),
            r ==> final(self).wf(),
            r ==> exists|mid: StringPath, props: Seq<Option<PathStep>>, choice: Option<usize>|
                #![trigger round_outcome(mid, *final(self), props, choice)]
                {
                    &&& rescored(old(self).combos(), mid.combos(), *score_of)
                    &&& mid.ring() == old(self).ring()
                    &&& mid.steps() == old(self).steps()
                    &&& mid.cursors() == old(self).cursors()
                    &&& mid.scores() == old(self).scores()
                    &&& mid.step_count() == old(self).step_count()
                    &&& mid.length() == old(self).length()
                    &&& forall|c: int, t: int, d: int|
                        0 <= c < old(self).colors() && 0 <= t < old(self).n() && 0 <= d < old(self).colors()
                            ==> resolved(mid.combos(), mid.cursors()[c] as int, t, d, *score_of)
                    &&& mid.proposals_ok(props)
                    &&& valid_choice(props, choice)
                    &&& round_outcome(mid, *final(self), props, choice)
                },
            r ==> final(self).step_count() == old(self).step_count() + 1,
            r ==> final(self).length() == old(self).length(),
            r ==> final(self).ring() == old(self).ring(),
            r ==> final(self).colors() == old(self).colors(),
            r ==> final(self).steps().subrange(0, old(self).steps().len() as int) == old(self).steps(),
            r ==> old(self).steps().len() < final(self).steps().len() <= old(self).steps().len()
                + old(self).colors(),
            r && old(self).colors() == 1 ==> final(self).steps().len() == old(self).steps().len() + 1,
            r ==> forall|i: int|
                old(self).steps().len() <= i < final(self).steps().len() ==> {
                    let s = #[trigger] final(self).steps()[i];
                    is_miss(s, final(self).n()) || (final(self).drawn() == Some(s) && final(self).combos().state(
                        s.from_idx as int,
                        s.to_idx as int,
                        s.color_idx as int,
                    ) is Filled)
                },
    {
        if self.cur_step >= self.path_length {
            return false;
        }
        let proposals = self.get_best_steps(score_of);
        let weights = pool_weights(&proposals);
        let mut any_positive = false;
        for c in 0..weights.len()
            invariant
                any_positive <==> exists|d: int| 0 <= d < c && #[trigger] weights@[d] > 0,
        {
            if weights[c] > 0 {
                any_positive = true;
            }
        }
        let choice = if any_positive {
            proof {
                lemma_total_bound(weights@);
                assert(weights@.len() * SCORE_SCALE <= u128::MAX) by (nonlinear_arith)
                    requires
                        weights@.len() <= usize::MAX,
                ;
            }
            let k = draw_weighted_index(&weights);
            Some(k)
        } else {
            assert forall|c: int| 0 <= c < proposals@.len() implies !positive(#[trigger] proposals@[c]) by {
                assert(weights@[c] == weight(proposals@[c]));
            }
            None
        };
        let ghost mid = *self;
        self.commit_round(&proposals, choice);
        proof {
            assert(round_outcome(mid, *self, proposals@, choice));
            let misses = round_misses(proposals@, mid.cursors(), mid.n(), mid.colors() as int);
            lemma_round_misses(proposals@, mid.cursors(), mid.n(), mid.colors() as int);
            if let Some(k) = choice {
                assert(positive(proposals@[k as int]));
                let st = proposals@[k as int]->Some_0;
                assert(self.combos().state(st.from_idx as int, st.to_idx as int, k as int) is Filled);
            }
            assert(self.steps().subrange(0, old(self).steps().len() as int) == old(self).steps());
            assert forall|i: int|
                old(self).steps().len() <= i < self.steps().len() implies {
                    let s = #[trigger] self.steps()[i];
                    is_miss(s, self.n()) || (self.drawn() == Some(s) && self.combos().state(
                        s.from_idx as int,
                        s.to_idx as int,
                        s.color_idx as int,
                    ) is Filled)
                } by {
                if i < old(self).steps().len() + misses.len() {
                    assert(self.steps()[i] == misses[i - old(self).steps().len()]);
                }
            }
        }
        true
    }
}

impl StringPath {
    /// The path with each color's single-peg hops collapsed into jumps from
    /// where the color last stood, so that a plot shows fewer stray hops.
    /// The canvas is not touched.
    pub fn cleaned_path(&self) -> (r: Vec<PathStep>)
        requires
            self.wf(),
        ensures
            r@ == clean_upto(self.steps(), self.combos(), self.n(), self.steps().len() as int).0,
    {
        let n_colors = self.cache.color_count();
        let mut cur_idxs: Vec<Option<usize>> = Vec::new();
        for c in 0..n_colors
            invariant
                cur_idxs@.len() == c,
                forall|d: int| 0 <= d < c ==> #[trigger] cur_idxs@[d] is None,
        {
            cur_idxs.push(None);
        }
        let mut cpath: Vec<PathStep> = Vec::new();
        assert(cur_idxs@ == clean_upto(self.steps(), self.combos(), self.n(), 0).1);
        for i in 0..self.path.len()
            invariant
                self.wf(),
                n_colors == self.colors(),
                (cpath@, cur_idxs@) == clean_upto(self.steps(), self.combos(), self.n(), i as int),
                cur_idxs@.len() == n_colors,
                forall|c: int| 0 <= c < n_colors ==> (#[trigger] cur_idxs@[c] matches Some(v) ==> v < self.n()),
        {
            let step = self.path[i];
            let cur_idx = match cur_idxs[step.color_idx] {
                Some(v) => v,
                None => step.from_idx,
            };
            let d_step = self.pegs.steps_between(step.from_idx, step.to_idx);
            if d_step > 1 {
                cpath.push(step);
                cur_idxs.set(step.color_idx, Some(step.to_idx));
            } else if !matches!(self.cache.state_at(cur_idx, step.to_idx, step.color_idx), StringCombo::Banned) {
                cpath.push(PathStep { from_idx: cur_idx, to_idx: step.to_idx, color_idx: step.color_idx, score: 0 });
                cur_idxs.set(step.color_idx, Some(step.to_idx));
            } else {
                cur_idxs.set(step.color_idx, Some(cur_idx));
            }
        }
        cpath
    }
}

/// A chord filled in some color is a candidate for no color: every color
/// reads it as filled or banned, with no score.
pub proof fn lemma_filled_never_candidate(cache: ComboCache, f: int, t: int, c: int, d: int)
    requires
        cache.wf(),
        cache.valid(f, t, c),
        cache.valid(f, t, d),
        cache.state(f, t, c) is Filled,
    ensures
        !candidate(cache, f, t, d),
{
    if c != d {
        assert(cache.state(f, t, d) is Banned);
    }
}

/// Scoring the cache never takes a chord out of the filled state.
pub proof fn lemma_filled_survives_rescoring<F: Fn(usize, usize, usize) -> Option<i64>>(
    old: ComboCache,
    new: ComboCache,
    score_of: F,
    x: int,
    y: int,
    c: int,
)
    requires
        rescored(old, new, score_of),
        old.valid(x, y, c),
        old.state(x, y, c) is Filled,
    ensures
        new.state(x, y, c) is Filled,
{
    assert(new.state(x, y, c) == new.state(x, y, c));
}

/// Drawing an allowed chord never takes another chord out of the filled
/// state, so a filled chord never again becomes a candidate.
pub proof fn lemma_filled_survives_commit(old: ComboCache, new: ComboCache, s: PathStep, k: int, x: int, y: int, c: int)
    requires
        old.wf(),
        committed(old, new, s, k),
        old.valid(s.from_idx as int, s.to_idx as int, k),
        old.state(s.from_idx as int, s.to_idx as int, k) is Allowed,
        old.valid(x, y, c),
        old.state(x, y, c) is Filled,
    ensures
        new.state(x, y, c) is Filled,
{
    assert(new.state(x, y, c) == new.state(x, y, c));
    if same_pair(x, y, s.from_idx as int, s.to_idx as int) {
        old.lemma_same_pair(x, y, s.from_idx as int, s.to_idx as int, c);
        old.lemma_same_pair(x, y, s.from_idx as int, s.to_idx as int, k);
        if c != k {
            assert(old.state(x, y, k) is Banned);
        }
    }
}

/// An allowed chord that a drawn chord crosses is left unscored, so the next
/// query of its score goes back to the scorer instead of reusing the stale
/// value.
pub proof fn lemma_crossed_chord_unscored(old: ComboCache, new: ComboCache, s: PathStep, k: int, x: int, y: int, c: int)
    requires
        committed(old, new, s, k),
        old.valid(x, y, c),
        old.state(x, y, c) is Allowed,
        !same_pair(x, y, s.from_idx as int, s.to_idx as int),
        chords_cross(s.from_idx as int, s.to_idx as int, x, y),
    ensures
        new.state(x, y, c) == StringCombo::Allowed(None),
{
    assert(new.state(x, y, c) == new.state(x, y, c));
}

/// With a single color every step adds exactly one entry to the path, a miss
/// or a drawn chord, so the path never grows past the path length.
pub proof fn lemma_single_color_path_length(sp: StringPath)
    requires
        sp.wf(),
        sp.colors() == 1,
    ensures
        sp.steps().len() == sp.step_count(),
        sp.steps().len() <= sp.length(),
{
}

} // verus!
