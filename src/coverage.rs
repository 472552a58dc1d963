use vstd::prelude::*;

verus! {

/// The most chords a pixel's count records.
pub const COVERAGE_CAP: u16 = 10;

/// How many times pixel `(x, y)` occurs in `pixels`.
pub open spec fn occurrences(pixels: Seq<(i32, i32)>, x: int, y: int) -> nat
    decreases pixels.len(),
{
    if pixels.len() == 0 {
        0
    } else {
        occurrences(pixels.drop_last(), x, y) + if pixels.last().0 == x && pixels.last().1 == y {
            1nat
        } else {
            0nat
        }
    }
}

/// `a + k`, but no more than the cap.
pub open spec fn capped_add(a: int, k: int) -> int {
    if a + k <= COVERAGE_CAP as int {
        a + k
    } else {
        COVERAGE_CAP as int
    }
}

/// `a - k`, but no less than zero.
pub open spec fn floored_sub(a: int, k: int) -> int {
    if a - k >= 0 {
        a - k
    } else {
        0
    }
}

/// Pixel `(x, y)` lies within `radius_permille` thousandths of half the
/// smaller dimension from the centre of a `width` by `height` image.
pub open spec fn within_radius(width: int, height: int, radius_permille: int, x: int, y: int) -> bool {
    let m = (if width <= height { width } else { height }) / 2;
    let dx = x - width / 2;
    let dy = y - height / 2;
    1_000_000 * (dx * dx + dy * dy) <= radius_permille * radius_permille * m * m
}

/// Per pixel, how many still viable chords pass over it near the centre of
/// the image, saturating at the cap. A chord is scored only on the pixels
/// whose count equals the contested level.
pub struct CoverageMap {
    width: u32,
    height: u32,
    score_radius_permille: u32,
    contested: u16,
    counts: Vec<u16>,
}

proof fn lemma_index(w: int, h: int, x: int, y: int)
    requires
        0 <= x < w,
        0 <= y < h,
    ensures
        0 <= y * w + x < w * h,
{
    assert(y * w + x < w * h) by (nonlinear_arith)
        requires
            0 <= x < w,
            0 <= y < h,
    ;
    assert(0 <= y * w) by (nonlinear_arith)
        requires
            0 <= x < w,
            0 <= y,
    ;
}

proof fn lemma_index_injective(w: int, x1: int, y1: int, x2: int, y2: int)
    requires
        0 <= x1 < w,
        0 <= x2 < w,
        0 <= y1,
        0 <= y2,
        y1 * w + x1 == y2 * w + x2,
    ensures
        x1 == x2 && y1 == y2,
{
    if y1 < y2 {
        assert(y1 * w + w <= y2 * w) by (nonlinear_arith)
            requires
                y1 < y2,
                0 <= w,
        ;
    } else if y2 < y1 {
        assert(y2 * w + w <= y1 * w) by (nonlinear_arith)
            requires
                y2 < y1,
                0 <= w,
        ;
    }
}

impl CoverageMap {
    pub closed spec fn w(&self) -> int {
        self.width as int
    }

    pub closed spec fn h(&self) -> int {
        self.height as int
    }

    /// The score radius, in thousandths of half the smaller dimension.
    pub closed spec fn radius(&self) -> int {
        self.score_radius_permille as int
    }

    /// The count at which a pixel is contested.
    pub closed spec fn contested_level(&self) -> int {
        self.contested as int
    }

    /// `(x, y)` is a pixel of the image.
    pub open spec fn in_bounds(&self, x: int, y: int) -> bool {
        0 <= x < self.w() && 0 <= y < self.h()
    }

    /// The count of pixel `(x, y)`; zero off the image.
    pub closed spec fn count(&self, x: int, y: int) -> int {
        if self.in_bounds(x, y) {
            self.counts@[y * self.w() + x] as int
        } else {
            0
        }
    }

    /// The storage matches the dimensions and no count passes the cap.
    pub closed spec fn wf(&self) -> bool {
        &&& self.counts@.len() == self.w() * self.h()
        &&& forall|i: int| 0 <= i < self.counts@.len() ==> #[trigger] self.counts@[i] <= COVERAGE_CAP
    }

    /// Pixel `(x, y)` counts toward a chord's coverage.
    pub open spec fn counts_pixel(&self, x: int, y: int) -> bool {
        self.in_bounds(x, y) && within_radius(self.w(), self.h(), self.radius(), x, y)
    }

    /// Counters never go below zero and never pass the cap.
    pub proof fn lemma_counts_within_cap(&self, x: int, y: int)
        requires
            self.wf(),
        ensures
            0 <= self.count(x, y) <= COVERAGE_CAP,
    {
        if self.in_bounds(x, y) {
            lemma_index(self.w(), self.h(), x, y);
        }
    }

    /// An empty map for a `width` by `height` image: every count is zero.
    pub fn new(width: u32, height: u32, score_radius_permille: u32, contested: u16) -> (r: CoverageMap)
        requires
            width as int * height as int <= usize::MAX,
            score_radius_permille <= 1000,
        ensures
            r.wf(),
            r.w() == width,
            r.h() == height,
            r.radius() == score_radius_permille,
            r.contested_level() == contested,
            forall|x: int, y: int| #[trigger] r.count(x, y) == 0,
    {
        let len = (width as usize) * (height as usize);
        let mut counts: Vec<u16> = Vec::new();
        for i in 0..len
            invariant
                counts@.len() == i,
                forall|j: int| 0 <= j < i ==> #[trigger] counts@[j] == 0,
        {
            counts.push(0);
        }
        let r = CoverageMap { width, height, score_radius_permille, contested, counts };
        assert forall|x: int, y: int| #[trigger] r.count(x, y) == 0 by {
            if r.in_bounds(x, y) {
                lemma_index(r.w(), r.h(), x, y);
            }
        }
        r
    }

    /// The image width.
    pub fn width(&self) -> (r: u32)
        ensures
            r == self.w(),
    {
        self.width
    }

    /// The image height.
    pub fn height(&self) -> (r: u32)
        ensures
            r == self.h(),
    {
        self.height
    }

    /// The slot of in-bounds pixel `(x, y)`, or `None` off the image.
    fn slot(&self, x: i32, y: i32) -> (r: Option<usize>)
        requires
            self.wf(),
        ensures
            match r {
                Some(i) => self.in_bounds(x as int, y as int) && i == y as int * self.w() + x as int && i
                    < self.counts@.len(),
                None => !self.in_bounds(x as int, y as int),
            },
    {
        if x < 0 || y < 0 || x as u32 >= self.width || y as u32 >= self.height {
            None
        } else {
            let len = self.counts.len();
            proof {
                lemma_index(self.w(), self.h(), x as int, y as int);
                assert(0 <= (y as int) * self.w() <= (y as int) * self.w() + x as int);
            }
            Some((y as usize) * (self.width as usize) + (x as usize))
        }
    }

    /// The count of pixel `(x, y)`; zero off the image.
    pub fn count_at(&self, x: i32, y: i32) -> (r: u16)
        requires
            self.wf(),
        ensures
            r == self.count(x as int, y as int),
    {
        match self.slot(x, y) {
            Some(i) => self.counts[i],
            None => 0,
        }
    }

    /// Whether pixel `(x, y)` is contested: its count is exactly the
    /// contested level.
    pub fn is_contested(&self, x: i32, y: i32) -> (r: bool)
        requires
            self.wf(),
        ensures
            r == (self.count(x as int, y as int) == self.contested_level()),
    {
        self.count_at(x, y) == self.contested
    }

    /// How a coverage snapshot shows pixel `(x, y)`: black below the
    /// contested level, red at it, white above it.
    pub fn shade_at(&self, x: i32, y: i32) -> (r: (u8, u8, u8))
        requires
            self.wf(),
        ensures
            r == if self.count(x as int, y as int) > self.contested_level() {
                (255u8, 255u8, 255u8)
            } else if self.count(x as int, y as int) == self.contested_level() {
                (255u8, 0u8, 0u8)
            } else {
                (0u8, 0u8, 0u8)
            },
    {
        let p = self.count_at(x, y);
        let red: u8 = if p >= self.contested {
            255
        } else {
            0
        };
        let rest: u8 = if p > self.contested {
            255
        } else {
            0
        };
        (red, rest, rest)
    }

    /// Whether pixel `(x, y)` lies within the score radius.
    fn in_radius(&self, x: i32, y: i32) -> (r: bool)
        requires
            self.wf(),
            self.radius() <= 1000,
        ensures
            r == within_radius(self.w(), self.h(), self.radius(), x as int, y as int),
    {
        let m: i128 = (if self.width <= self.height { self.width } else { self.height } / 2) as i128;
        let dx: i128 = x as i128 - (self.width / 2) as i128;
        let dy: i128 = y as i128 - (self.height / 2) as i128;
        let rad: i128 = self.score_radius_permille as i128;
        assert(dx * dx <= 0x1_0000_0000_0000_0000) by (nonlinear_arith)
            requires
                -0x1_0000_0000 <= dx <= 0x1_0000_0000,
        ;
        assert(dy * dy <= 0x1_0000_0000_0000_0000) by (nonlinear_arith)
            requires
                -0x1_0000_0000 <= dy <= 0x1_0000_0000,
        ;
        assert(0 <= dx * dx && 0 <= dy * dy) by (nonlinear_arith);
        let d2: i128 = dx * dx + dy * dy;
        assert(rad * rad <= 1_000_000) by (nonlinear_arith)
            requires
                0 <= rad <= 1000,
        ;
        assert(0 <= rad * rad) by (nonlinear_arith);
        assert(m * m <= 0x1_0000_0000_0000_0000) by (nonlinear_arith)
            requires
                0 <= m <= 0x1_0000_0000,
        ;
        assert(0 <= m * m) by (nonlinear_arith);
        let r2: i128 = rad * rad;
        let m2: i128 = m * m;
        assert(r2 * m2 <= 1_000_000 * 0x1_0000_0000_0000_0000) by (nonlinear_arith)
            requires
                0 <= r2 <= 1_000_000,
                0 <= m2 <= 0x1_0000_0000_0000_0000,
        ;
        assert(0 <= r2 * m2) by (nonlinear_arith)
            requires
                0 <= r2,
                0 <= m2,
        ;
        assert(rad * rad * m * m == r2 * m2) by (nonlinear_arith)
            requires
                r2 == rad * rad,
                m2 == m * m,
        ;
        1_000_000 * d2 <= r2 * m2
    }

    /// Records a chord that passes over `pixels`: each occurrence of a pixel
    /// of the image within the score radius raises its count by one, up to
    /// the cap. Other pixels are ignored.
    pub fn add_chord(&mut self, pixels: &Vec<(i32, i32)>)
        requires
            old(self).wf(),
            old(self).radius() <= 1000,
        ensures
            final(self).wf(),
            final(self).w() == old(self).w(),
            final(self).h() == old(self).h(),
            final(self).radius() == old(self).radius(),
            final(self).contested_level() == old(self).contested_level(),
            forall|x: int, y: int| 0 <= #[trigger] final(self).count(x, y) <= COVERAGE_CAP,
            forall|x: int, y: int|
                #[trigger] final(self).count(x, y) == if old(self).counts_pixel(x, y) {
                    capped_add(old(self).count(x, y), occurrences(pixels@, x, y) as int)
                } else {
                    old(self).count(x, y)
                },
    {
        assert forall|x: int, y: int| #[trigger] self.count(x, y) == capped_add(self.count(x, y), 0) by {
            self.lemma_counts_within_cap(x, y);
        }
        for k in 0..pixels.len()
            invariant
                self.wf(),
                self.w() == old(self).w(),
                self.h() == old(self).h(),
                self.radius() == old(self).radius(),
                self.contested_level() == old(self).contested_level(),
                old(self).radius() <= 1000,
                old(self).wf(),
                forall|x: int, y: int|
                    #[trigger] self.count(x, y) == if old(self).counts_pixel(x, y) {
                        capped_add(old(self).count(x, y), occurrences(pixels@.subrange(0, k as int), x, y) as int)
                    } else {
                        old(self).count(x, y)
                    },
        {
            let (px, py) = pixels[k];
            let ghost before = *self;
            proof {
                assert(pixels@.subrange(0, k + 1).drop_last() == pixels@.subrange(0, k as int));
            }
            let slot = self.slot(px, py);
            let mut raised = false;
            match slot {
                Some(i) => {
                    if self.in_radius(px, py) && self.counts[i] < COVERAGE_CAP {
                        let c = self.counts[i];
                        self.counts.set(i, c + 1);
                        raised = true;
                    }
                },
                None => {},
            }
            assert forall|x: int, y: int|
                #[trigger] self.count(x, y) == if old(self).counts_pixel(x, y) {
                    capped_add(old(self).count(x, y), occurrences(pixels@.subrange(0, k + 1), x, y) as int)
                } else {
                    old(self).count(x, y)
                } by {
                assert(before.count(x, y) == before.count(x, y));
                assert(pixels@.subrange(0, k + 1).last() == (px, py));
                assert(occurrences(pixels@.subrange(0, k + 1), x, y) == occurrences(
                    pixels@.subrange(0, k as int),
                    x,
                    y,
                ) + if px as int == x && py as int == y {
                    1nat
                } else {
                    0nat
                });
                old(self).lemma_counts_within_cap(x, y);
                if self.in_bounds(x, y) {
                    lemma_index(self.w(), self.h(), x, y);
                    if px as int == x && py as int == y {
                        if !raised {
                            assert(self.counts@ == before.counts@);
                            assert(self.count(x, y) == before.count(x, y));
                        } else {
                            assert(self.count(x, y) == before.count(x, y) + 1);
                            assert(old(self).counts_pixel(x, y));
                        }
                    } else {
                        if let Some(i) = slot {
                            if y * self.w() + x == i {
                                lemma_index_injective(self.w(), x, y, px as int, py as int);
                            }
                            assert(self.counts@[y * self.w() + x] == before.counts@[y * self.w() + x]);
                        }
                        assert(self.count(x, y) == before.count(x, y));
                    }
                }
            }
        }
        assert(pixels@.subrange(0, pixels@.len() as int) == pixels@);
        assert forall|x: int, y: int| 0 <= #[trigger] self.count(x, y) <= COVERAGE_CAP by {
            self.lemma_counts_within_cap(x, y);
        }
    }

    /// Forgets a chord that passed over `pixels`: each occurrence of a pixel
    /// of the image lowers its count by one, down to zero. Other pixels are
    /// ignored.
    pub fn remove_chord(&mut self, pixels: &Vec<(i32, i32)>)
        requires
            old(self).wf(),
        ensures
            final(self).wf(),
            final(self).w() == old(self).w(),
            final(self).h() == old(self).h(),
            final(self).radius() == old(self).radius(),
            final(self).contested_level() == old(self).contested_level(),
            forall|x: int, y: int| 0 <= #[trigger] final(self).count(x, y) <= COVERAGE_CAP,
            forall|x: int, y: int|
                #[trigger] final(self).count(x, y) == floored_sub(
                    old(self).count(x, y),
                    occurrences(pixels@, x, y) as int,
                ),
    {
        for k in 0..pixels.len()
            invariant
                self.wf(),
                self.w() == old(self).w(),
                self.h() == old(self).h(),
                self.radius() == old(self).radius(),
                self.contested_level() == old(self).contested_level(),
                old(self).wf(),
                forall|x: int, y: int|
                    #[trigger] self.count(x, y) == floored_sub(
                        old(self).count(x, y),
                        occurrences(pixels@.subrange(0, k as int), x, y) as int,
                    ),
        {
            let (px, py) = pixels[k];
            let ghost before = *self;
            proof {
                assert(pixels@.subrange(0, k + 1).drop_last() == pixels@.subrange(0, k as int));
            }
            let slot = self.slot(px, py);
            let mut lowered = false;
            match slot {
                Some(i) => {
                    if self.counts[i] > 0 {
                        let c = self.counts[i];
                        self.counts.set(i, c - 1);
                        lowered = true;
                    }
                },
                None => {},
            }
            assert forall|x: int, y: int|
                #[trigger] self.count(x, y) == floored_sub(
                    old(self).count(x, y),
                    occurrences(pixels@.subrange(0, k + 1), x, y) as int,
                ) by {
                assert(before.count(x, y) == before.count(x, y));
                assert(pixels@.subrange(0, k + 1).last() == (px, py));
                assert(occurrences(pixels@.subrange(0, k + 1), x, y) == occurrences(
                    pixels@.subrange(0, k as int),
                    x,
                    y,
                ) + if px as int == x && py as int == y {
                    1nat
                } else {
                    0nat
                });
                old(self).lemma_counts_within_cap(x, y);
                if self.in_bounds(x, y) {
                    lemma_index(self.w(), self.h(), x, y);
                    if px as int == x && py as int == y {
                        if !lowered {
                            assert(self.counts@ == before.counts@);
                            assert(self.count(x, y) == before.count(x, y));
                        } else {
                            assert(self.count(x, y) == before.count(x, y) - 1);
                        }
                    } else {
                        if let Some(i) = slot {
                            if y * self.w() + x == i {
                                lemma_index_injective(self.w(), x, y, px as int, py as int);
                            }
                            assert(self.counts@[y * self.w() + x] == before.counts@[y * self.w() + x]);
                        }
                        assert(self.count(x, y) == before.count(x, y));
                    }
                } else {
                    assert(self.count(x, y) == 0);
                }
            }
        }
        assert(pixels@.subrange(0, pixels@.len() as int) == pixels@);
        assert forall|x: int, y: int| 0 <= #[trigger] self.count(x, y) <= COVERAGE_CAP by {
            self.lemma_counts_within_cap(x, y);
        }
    }
}

} // verus!
