//! Dense rectangular matrices of `i64` affinity scores.
//!
//! The engine reads scores, extracts row and column vectors, computes the
//! global extrema, and can invert a matrix around its maximum so that a
//! minimization problem becomes a maximization problem.  A matrix is a
//! sequence of rows of equal length; its mathematical view is a
//! `Seq<Seq<i64>>` of those rows.

use vstd::prelude::*;

use crate::vecops::{min_val_vec, seq_min_val};

verus! {

/// All rows have the same length.
pub open spec fn grid_wf(m: Seq<Seq<i64>>) -> bool {
    forall|r: int| 0 <= r < m.len() ==> #[trigger] m[r].len() == m[0].len()
}

pub open spec fn grid_rows(m: Seq<Seq<i64>>) -> int {
    m.len() as int
}

pub open spec fn grid_cols(m: Seq<Seq<i64>>) -> int {
    if m.len() == 0 {
        0
    } else {
        m[0].len() as int
    }
}

/// The matrix holds at least one score.
pub open spec fn grid_nonempty(m: Seq<Seq<i64>>) -> bool {
    grid_rows(m) > 0 && grid_cols(m) > 0
}

/// The smallest score anywhere in the matrix.
pub open spec fn grid_min(m: Seq<Seq<i64>>) -> i64
    decreases m.len(),
{
    if m.len() <= 1 {
        seq_min_val(m[0])
    } else {
        let rest = grid_min(m.drop_last());
        let lm = seq_min_val(m.last());
        if lm < rest {
            lm
        } else {
            rest
        }
    }
}

/// The largest score anywhere in the matrix.
pub open spec fn grid_max(m: Seq<Seq<i64>>) -> i64
    decreases m.len(),
{
    if m.len() <= 1 {
        seq_max_val(m[0])
    } else {
        let rest = grid_max(m.drop_last());
        let lm = seq_max_val(m.last());
        if lm > rest {
            lm
        } else {
            rest
        }
    }
}

/// The maximum value of `s`.
pub open spec fn seq_max_val(s: Seq<i64>) -> i64
    decreases s.len(),
{
    if s.len() <= 1 {
        s[0]
    } else {
        let m = seq_max_val(s.drop_last());
        if s.last() > m {
            s.last()
        } else {
            m
        }
    }
}

/// The matrix inverted around its maximum: every score `x` becomes
/// `grid_max(m) - x`, so the smallest score becomes the largest.
pub open spec fn inverted(m: Seq<Seq<i64>>) -> Seq<Seq<i64>> {
    Seq::new(
        m.len(),
        |r: int| Seq::new(m[r].len(), |c: int| (grid_max(m) - m[r][c]) as i64),
    )
}

/// No score is larger than the grid maximum.
pub proof fn lemma_grid_max_ge(m: Seq<Seq<i64>>)
    requires
        grid_nonempty(m),
        grid_wf(m),
    ensures
        forall|r: int, c: int|
            0 <= r < m.len() && 0 <= c < m[r].len() ==> #[trigger] m[r][c] <= grid_max(m),
    decreases m.len(),
{
    lemma_seq_max_val_props(m[m.len() - 1]);
    if m.len() > 1 {
        lemma_grid_max_ge(m.drop_last());
        assert(forall|r: int| 0 <= r < m.len() - 1 ==> #[trigger] m[r] == m.drop_last()[r]);
        assert(m.last() == m[m.len() - 1]);
    }
}

pub proof fn lemma_seq_max_val_props(s: Seq<i64>)
    requires
        s.len() >= 1,
    ensures
        forall|t: int| 0 <= t < s.len() ==> #[trigger] s[t] <= seq_max_val(s),
        exists|t: int| 0 <= t < s.len() && seq_max_val(s) == s[t],
    decreases s.len(),
{
    if s.len() == 1 {
        assert(seq_max_val(s) == s[0]);
    } else {
        lemma_seq_max_val_props(s.drop_last());
        assert(forall|t: int| 0 <= t < s.len() - 1 ==> #[trigger] s[t] == s.drop_last()[t]);
        if s.last() > seq_max_val(s.drop_last()) {
            assert(seq_max_val(s) == s[s.len() - 1]);
        } else {
            let w = choose|t: int|
                0 <= t < s.drop_last().len() && seq_max_val(s.drop_last()) == s.drop_last()[t];
            assert(seq_max_val(s) == s[w]);
        }
    }
}

/// A dense matrix of scores, stored as rows of equal length.
pub struct Matrix {
    cols: usize,
    data: Vec<Vec<i64>>,
}

impl View for Matrix {
    type V = Seq<Seq<i64>>;

    closed spec fn view(&self) -> Seq<Seq<i64>> {
        Seq::new(self.data@.len(), |r: int| self.data@[r]@)
    }
}

impl Matrix {
    /// Every stored row has the column count recorded in `cols`.
    pub closed spec fn wf(&self) -> bool {
        forall|r: int| 0 <= r < self.data@.len() ==> (#[trigger] self.data@[r]@).len() == self.cols
    }

    /// Builds a matrix from its rows; every row must have the same length.
    pub fn from_rows(data: Vec<Vec<i64>>) -> (r: Option<Matrix>)
        ensures
            (r matches Some(mm) ==> mm.wf() && grid_wf(mm@) && mm@.len() == data@.len()
                && (forall|i: int| 0 <= i < data@.len() ==> mm@[i] == #[trigger] data@[i]@)),
            (r is Some <==> (forall|i: int|
                0 <= i < data@.len() ==> (#[trigger] data@[i]@).len() == data@[0]@.len())),
    {
        let cols: usize = if data.len() == 0 {
            0
        } else {
            data[0].len()
        };
        let mut i: usize = 0;
        while i < data.len()
            invariant
                0 <= i <= data@.len(),
                data@.len() > 0 ==> cols == data@[0]@.len(),
                data@.len() == 0 ==> cols == 0,
                forall|k: int| 0 <= k < i ==> (#[trigger] data@[k]@).len() == cols,
            decreases data@.len() - i,
        {
            if data[i].len() != cols {
                return None;
            }
            i = i + 1;
        }
        let m = Matrix { cols, data };
        proof {
            assert(forall|k: int| 0 <= k < m@.len() ==> m@[k] == m.data@[k]@);
        }
        Some(m)
    }

    /// Number of rows.
    pub fn rows(&self) -> (r: usize)
        ensures
            r == self@.len(),
    {
        self.data.len()
    }

    /// Number of columns.
    pub fn cols(&self) -> (r: usize)
        requires
            self.wf(),
        ensures
            self@.len() > 0 ==> r == grid_cols(self@),
            r == self.spec_cols(),
    {
        self.cols
    }

    pub closed spec fn spec_cols(&self) -> usize {
        self.cols
    }

    /// The score in row `r`, column `c`.
    pub fn get(&self, r: usize, c: usize) -> (v: i64)
        requires
            self.wf(),
            r < self@.len(),
            c < self@[r as int].len(),
        ensures
            v == self@[r as int][c as int],
    {
        self.data[r][c]
    }

    /// An independent copy with the same scores.
    pub fn duplicate(&self) -> (r: Matrix)
        requires
            self.wf(),
        ensures
            r.wf(),
            r@ == self@,
    {
        let mut data: Vec<Vec<i64>> = Vec::new();
        let mut i: usize = 0;
        while i < self.data.len()
            invariant
                0 <= i <= self.data@.len(),
                data@.len() == i,
                self.wf(),
                forall|k: int| 0 <= k < i ==> #[trigger] data@[k]@ == self@[k],
            decreases self.data@.len() - i,
        {
            let mut row: Vec<i64> = Vec::new();
            let mut j: usize = 0;
            let n = self.data[i].len();
            while j < n
                invariant
                    0 <= j <= n,
                    i < self.data@.len(),
                    n == self.data@[i as int]@.len(),
                    row@.len() == j,
                    forall|k: int| 0 <= k < j ==> #[trigger] row@[k] == self.data@[i as int]@[k],
                decreases n - j,
            {
                row.push(self.data[i][j]);
                j = j + 1;
            }
            proof {
                assert(row@ =~= self@[i as int]);
            }
            data.push(row);
            i = i + 1;
        }
        let m = Matrix { cols: self.cols, data };
        proof {
            assert(m@ =~= self@);
        }
        m
    }

    /// The smallest score in the matrix.
    pub fn min_entry(&self) -> (r: i64)
        requires
            self.wf(),
            grid_nonempty(self@),
        ensures
            r == grid_min(self@),
    {
        let mut m: i64 = min_val_vec(&self.data[0]);
        proof {
            assert(self@.take(1) =~= seq![self@[0]]);
            assert(self@.take(1)[0] == self@[0]);
        }
        let mut i: usize = 1;
        while i < self.data.len()
            invariant
                1 <= i <= self.data@.len(),
                self.wf(),
                grid_nonempty(self@),
                m == grid_min(self@.take(i as int)),
            decreases self.data@.len() - i,
        {
            proof {
                assert(self@.take(i + 1).drop_last() =~= self@.take(i as int));
                assert(self@.take(i + 1).last() == self@[i as int]);
                assert(self@[i as int].len() == self@[0].len());
            }
            let rm = min_val_vec(&self.data[i]);
            if rm < m {
                m = rm;
            }
            i = i + 1;
        }
        proof {
            assert(self@.take(self@.len() as int) =~= self@);
        }
        m
    }

    /// The largest score in the matrix.
    pub fn max_entry(&self) -> (r: i64)
        requires
            self.wf(),
            grid_nonempty(self@),
        ensures
            r == grid_max(self@),
    {
        let mut m: i64 = max_val_vec(&self.data[0]);
        proof {
            assert(self@.take(1) =~= seq![self@[0]]);
            assert(self@.take(1)[0] == self@[0]);
        }
        let mut i: usize = 1;
        while i < self.data.len()
            invariant
                1 <= i <= self.data@.len(),
                self.wf(),
                grid_nonempty(self@),
                m == grid_max(self@.take(i as int)),
            decreases self.data@.len() - i,
        {
            proof {
                assert(self@.take(i + 1).drop_last() =~= self@.take(i as int));
                assert(self@.take(i + 1).last() == self@[i as int]);
                assert(self@[i as int].len() == self@[0].len());
            }
            let rm = max_val_vec(&self.data[i]);
            if rm > m {
                m = rm;
            }
            i = i + 1;
        }
        proof {
            assert(self@.take(self@.len() as int) =~= self@);
        }
        m
    }

    /// Inverts the matrix around its maximum, in place: every score `x`
    /// becomes `max - x`, so that minimization becomes maximization.
    pub fn invert(&mut self)
        requires
            old(self).wf(),
            grid_nonempty(old(self)@),
            forall|r: int, c: int|
                0 <= r < old(self)@.len() && 0 <= c < old(self)@[r].len()
                    ==> grid_max(old(self)@) - #[trigger] old(self)@[r][c] <= i64::MAX,
        ensures
            final(self).wf(),
            final(self)@ == inverted(old(self)@),
            grid_wf(old(self)@) ==> grid_wf(final(self)@),
    {
        let ghost m0 = self@;
        let mx = self.max_entry();
        proof {
            lemma_grid_max_ge(m0);
        }
        let mut i: usize = 0;
        let rows = self.data.len();
        while i < rows
            invariant
                0 <= i <= rows,
                rows == self.data@.len(),
                self@.len() == m0.len(),
                self.wf(),
                mx == grid_max(m0),
                grid_nonempty(m0),
                forall|r: int, c: int|
                    0 <= r < m0.len() && 0 <= c < m0[r].len()
                        ==> #[trigger] m0[r][c] <= grid_max(m0),
                forall|r: int, c: int|
                    0 <= r < m0.len() && 0 <= c < m0[r].len()
                        ==> grid_max(m0) - #[trigger] m0[r][c] <= i64::MAX,
                forall|k: int| 0 <= k < i ==> #[trigger] self@[k] == inverted(m0)[k],
                forall|k: int| i <= k < m0.len() ==> #[trigger] self@[k] == m0[k],
            decreases rows - i,
        {
            let mut row: Vec<i64> = Vec::new();
            let n = self.data[i].len();
            proof {
                assert(self@[i as int] == self.data@[i as int]@);
                assert(self@[i as int] == m0[i as int]);
            }
            let mut j: usize = 0;
            while j < n
                invariant
                    0 <= j <= n,
                    i < self.data@.len(),
                    i < m0.len(),
                    self@[i as int] == m0[i as int],
                    self@[i as int] == self.data@[i as int]@,
                    n == m0[i as int].len(),
                    mx == grid_max(m0),
                    forall|r: int, c: int|
                        0 <= r < m0.len() && 0 <= c < m0[r].len()
                            ==> #[trigger] m0[r][c] <= grid_max(m0),
                    forall|r: int, c: int|
                        0 <= r < m0.len() && 0 <= c < m0[r].len()
                            ==> grid_max(m0) - #[trigger] m0[r][c] <= i64::MAX,
                    row@.len() == j,
                    forall|k: int| 0 <= k < j ==> #[trigger] row@[k] == (mx - m0[i as int][k]) as i64,
                decreases n - j,
            {
                let v = self.data[i][j];
                row.push(mx - v);
                j = j + 1;
            }
            proof {
                assert(row@ =~= inverted(m0)[i as int]);
            }
            let ghost snap = self@;
            self.data.set(i, row);
            proof {
                assert(forall|k: int|
                    0 <= k < m0.len() ==> #[trigger] self@[k] == (if k == i {
                        inverted(m0)[i as int]
                    } else {
                        snap[k]
                    }));
            }
            i = i + 1;
        }
        proof {
            assert(self@ =~= inverted(m0));
        }
    }
}

/// The maximum value of a non-empty vector.
pub(crate) fn max_val_vec(v: &Vec<i64>) -> (r: i64)
    requires
        v@.len() >= 1,
    ensures
        r == seq_max_val(v@),
{
    let mut m: i64 = v[0];
    let mut k: usize = 1;
    while k < v.len()
        invariant
            1 <= k <= v@.len(),
            m == seq_max_val(v@.take(k as int)),
        decreases v@.len() - k,
    {
        proof {
            assert(v@.take(k + 1).drop_last() =~= v@.take(k as int));
            assert(v@.take(k + 1).last() == v@[k as int]);
        }
        if v[k] > m {
            m = v[k];
        }
        k = k + 1;
    }
    proof {
        assert(v@.take(v@.len() as int) =~= v@);
    }
    m
}

} // verus!
