use vstd::prelude::*;

verus! {

/// Symmetric storage with one cell per unordered pair of indices below its
/// size (the diagonal included). Row `i` holds the cells `(i, 0) ..= (i, i)`;
/// a lookup always puts the greater index first.
#[derive(Debug, Clone, Default)]
pub struct TriVec<T> {
    size: usize,
    data: Vec<Vec<T>>,
}

/// The greater of the two indices.
pub open spec fn hi(x: int, y: int) -> int {
    if x > y { x } else { y }
}

/// The smaller of the two indices.
pub open spec fn lo(x: int, y: int) -> int {
    if x > y { y } else { x }
}

/// `{x, y}` and `{u, v}` are the same unordered pair.
pub open spec fn same_pair(x: int, y: int, u: int, v: int) -> bool {
    hi(x, y) == hi(u, v) && lo(x, y) == lo(u, v)
}

impl<T> TriVec<T> {
    /// The number of indices.
    pub closed spec fn dim(&self) -> nat {
        self.size as nat
    }

    /// The rows, each as a sequence of cells.
    closed spec fn rows(&self) -> Seq<Seq<T>> {
        self.data@.map_values(|r: Vec<T>| r@)
    }

    /// Each row `i` exists and holds exactly `i + 1` cells.
    pub closed spec fn wf(&self) -> bool {
        &&& self.data@.len() == self.size
        &&& forall|i: int| 0 <= i < self.size ==> #[trigger] self.data@[i]@.len() == i + 1
    }

    /// The cell of the unordered pair `{x, y}`.
    pub closed spec fn get(&self, x: int, y: int) -> T {
        self.rows()[hi(x, y)][lo(x, y)]
    }

    /// Both indices name a cell.
    pub open spec fn in_range(&self, x: int, y: int) -> bool {
        0 <= x < self.dim() && 0 <= y < self.dim()
    }

    /// Two pairs that are the same unordered pair share their cell.
    pub proof fn lemma_same_pair(&self, x: int, y: int, u: int, v: int)
        requires
            same_pair(x, y, u, v),
        ensures
            self.get(x, y) == self.get(u, v),
    {
    }

    /// The number of indices.
    pub fn size(&self) -> (r: usize)
        ensures
            r == self.dim(),
    {
        self.size
    }
}

impl<T: Clone> TriVec<T> {
    /// A table over `size` indices whose every cell is a clone of `default`.
    pub fn new(size: usize, default: &T) -> (r: TriVec<T>)
        ensures
            r.wf(),
            r.dim() == size,
            forall|x: int, y: int| r.in_range(x, y) ==> cloned(*default, #[trigger] r.get(x, y)),
    {
        let mut data: Vec<Vec<T>> = Vec::new();
        let mut row_idx: usize = 0;
        while row_idx < size
            invariant
                row_idx <= size,
                data@.len() == row_idx,
                forall|i: int| 0 <= i < row_idx ==> #[trigger] data@[i]@.len() == i + 1,
                forall|i: int, j: int|
                    0 <= i < row_idx && 0 <= j <= i ==> cloned(*default, #[trigger] data@[i]@[j]),
            decreases size - row_idx,
        {
            let mut row: Vec<T> = Vec::new();
            let mut col_idx: usize = 0;
            while col_idx <= row_idx
                invariant
                    col_idx <= row_idx + 1,
                    row_idx < size,
                    row@.len() == col_idx,
                    forall|j: int| 0 <= j < col_idx ==> cloned(*default, #[trigger] row@[j]),
                decreases row_idx + 1 - col_idx,
            {
                row.push(default.clone());
                col_idx += 1;
            }
            data.push(row);
            row_idx += 1;
        }
        let r = TriVec { size, data };
        assert forall|x: int, y: int| r.in_range(x, y) implies cloned(
            *default,
            #[trigger] r.get(x, y),
        ) by {
            assert(r.rows()[hi(x, y)] == r.data@[hi(x, y)]@);
        }
        r
    }
}

impl<T> TriVec<T> {
    /// The cell of `{x, y}`.
    pub fn at(&self, x: usize, y: usize) -> (r: &T)
        requires
            self.wf(),
            self.in_range(x as int, y as int),
        ensures
            *r == self.get(x as int, y as int),
    {
        let (i, j) = if x > y { (x, y) } else { (y, x) };
        assert(self.rows()[i as int] == self.data@[i as int]@);
        &self.data[i][j]
    }

    /// A mutable borrow of the cell of `{x, y}`; every other cell stays as it is.
    pub fn at_mut(&mut self, x: usize, y: usize) -> (r: &mut T)
        requires
            old(self).wf(),
            old(self).in_range(x as int, y as int),
        ensures
            *r == old(self).get(x as int, y as int),
            final(self).wf(),
            final(self).dim() == old(self).dim(),
            forall|u: int, v: int|
                #![trigger final(self).get(u, v)]
                old(self).in_range(u, v) ==> final(self).get(u, v) == if same_pair(
                    u,
                    v,
                    x as int,
                    y as int,
                ) {
                    *final(r)
                } else {
                    old(self).get(u, v)
                },
    {
        let (i, j) = if x > y { (x, y) } else { (y, x) };
        assert(self.rows()[i as int] == self.data@[i as int]@);
        &mut self.data[i][j]
    }

    /// Puts `value` in the cell of `{x, y}`; every other cell stays as it is.
    pub fn set(&mut self, x: usize, y: usize, value: T)
        requires
            old(self).wf(),
            old(self).in_range(x as int, y as int),
        ensures
            final(self).wf(),
            final(self).dim() == old(self).dim(),
            forall|u: int, v: int|
                #![trigger final(self).get(u, v)]
                old(self).in_range(u, v) ==> final(self).get(u, v) == if same_pair(
                    u,
                    v,
                    x as int,
                    y as int,
                ) {
                    value
                } else {
                    old(self).get(u, v)
                },
    {
        *self.at_mut(x, y) = value;
    }

    /// Row `x`: the cells `(x, 0) ..= (x, x)`.
    pub fn all_at(&self, x: usize) -> (r: &Vec<T>)
        requires
            self.wf(),
            x < self.dim(),
        ensures
            r@.len() == x + 1,
            forall|j: int| 0 <= j <= x ==> #[trigger] r@[j] == self.get(x as int, j),
    {
        assert(self.rows()[x as int] == self.data@[x as int]@);
        &self.data[x]
    }
}

} // verus!
