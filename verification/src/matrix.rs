//! Dense row-major matrices over an arbitrary element type.

use vstd::prelude::*;
use vstd::arithmetic::div_mod::{
    lemma_fundamental_div_mod, lemma_fundamental_div_mod_converse, lemma_mod_pos_bound,
    lemma_multiply_divide_lt,
};
use vstd::arithmetic::mul::lemma_mul_is_commutative;

verus! {

/// A dense matrix stored as a vector of rows.
pub struct Mat<T> {
    rows: usize,
    cols: usize,
    data: Vec<Vec<T>>,
}

impl<T> View for Mat<T> {
    type V = Seq<Seq<T>>;

    closed spec fn view(&self) -> Seq<Seq<T>> {
        self.data@.map_values(|r: Vec<T>| r@)
    }
}

impl<T> Mat<T> {
    /// `self` is the transpose of `m`.
    pub open spec fn is_transpose_of(&self, m: &Mat<T>) -> bool {
        &&& self.wf()
        &&& self.num_rows() == m.num_cols()
        &&& self.num_cols() == m.num_rows()
        &&& forall|i: int, j: int|
            0 <= i < m.num_cols() && 0 <= j < m.num_rows() ==> #[trigger] self.at(i, j) == m.at(
                j,
                i,
            )
    }

    /// `self` is the `blocks`, each `rows` x `block_cols`, placed side by side.
    pub open spec fn is_hstack_of(&self, blocks: Seq<Mat<T>>, rows: nat, block_cols: nat) -> bool {
        &&& self.wf()
        &&& self.num_rows() == rows
        &&& self.num_cols() == blocks.len() * block_cols
        &&& forall|i: int, c: int|
            0 <= i < rows && 0 <= c < blocks.len() * block_cols ==> #[trigger] self.at(i, c)
                == blocks[c / block_cols as int].at(i, c % block_cols as int)
    }

    /// `self` is the `blocks`, each `block_rows` x `cols`, placed one above the other.
    pub open spec fn is_vstack_of(&self, blocks: Seq<Mat<T>>, block_rows: nat, cols: nat) -> bool {
        &&& self.wf()
        &&& self.num_rows() == blocks.len() * block_rows
        &&& self.num_cols() == cols
        &&& forall|i: int, j: int|
            0 <= i < blocks.len() * block_rows && 0 <= j < cols ==> #[trigger] self.at(i, j)
                == blocks[i / block_rows as int].at(i % block_rows as int, j)
    }

    /// `v` lists the entries of `self` row by row.
    pub open spec fn is_row_major(&self, v: Seq<T>) -> bool {
        &&& v.len() == self.num_rows() * self.num_cols()
        &&& forall|p: int|
            0 <= p < self.num_rows() * self.num_cols() ==> #[trigger] v[p] == self.at(
                p / self.num_cols() as int,
                p % self.num_cols() as int,
            )
    }

    /// `self` is the `rows` x `cols` matrix whose entry `(i, j)` is `v[i * cols + j]`.
    pub open spec fn is_read_from(&self, v: Seq<T>, rows: nat, cols: nat) -> bool {
        &&& self.wf()
        &&& self.num_rows() == rows
        &&& self.num_cols() == cols
        &&& forall|i: int, j: int|
            0 <= i < rows && 0 <= j < cols ==> #[trigger] self.at(i, j) == v[i * cols + j]
    }

    /// `self` is `I (x) a` for the square `a`, with `zero` off the diagonal blocks.
    pub open spec fn is_identity_kron_of(&self, a: &Mat<T>, zero: T) -> bool {
        &&& self.wf()
        &&& self.num_rows() == a.num_rows() * a.num_rows()
        &&& self.num_cols() == a.num_rows() * a.num_rows()
        &&& forall|i: int, j: int|
            0 <= i < self.num_rows() && 0 <= j < self.num_cols() ==> #[trigger] self.at(i, j)
                == identity_kron_entry(a, zero, i, j)
    }

    /// `self` is `a (x) I` for the square `a`, with `zero` where the identity is zero.
    pub open spec fn is_kron_identity_of(&self, a: &Mat<T>, zero: T) -> bool {
        &&& self.wf()
        &&& self.num_rows() == a.num_rows() * a.num_rows()
        &&& self.num_cols() == a.num_rows() * a.num_rows()
        &&& forall|i: int, j: int|
            0 <= i < self.num_rows() && 0 <= j < self.num_cols() ==> #[trigger] self.at(i, j)
                == kron_identity_entry(a, zero, i, j)
    }

    /// Number of rows.
    pub closed spec fn num_rows(&self) -> nat {
        self.rows as nat
    }

    /// Number of columns.
    pub closed spec fn num_cols(&self) -> nat {
        self.cols as nat
    }

    /// Entry in row `i`, column `j`.
    pub open spec fn at(&self, i: int, j: int) -> T {
        self@[i][j]
    }

    /// Every row has exactly `num_cols` entries and there are `num_rows` rows.
    pub open spec fn wf(&self) -> bool {
        &&& self@.len() == self.num_rows()
        &&& forall|i: int| 0 <= i < self.num_rows() ==> (#[trigger] self@[i]).len() == self.num_cols()
    }

    /// Same shape and same entries.
    pub open spec fn same(&self, other: &Mat<T>) -> bool {
        &&& self.num_rows() == other.num_rows()
        &&& self.num_cols() == other.num_cols()
        &&& forall|i: int, j: int|
            0 <= i < self.num_rows() && 0 <= j < self.num_cols() ==> #[trigger] self.at(i, j)
                == other.at(i, j)
    }

    pub fn nrows(&self) -> (r: usize)
        ensures
            r == self.num_rows(),
    {
        self.rows
    }

    pub fn ncols(&self) -> (r: usize)
        ensures
            r == self.num_cols(),
    {
        self.cols
    }
}

impl<T: Copy> Mat<T> {
    /// The entry at row `i`, column `j`.
    pub fn get(&self, i: usize, j: usize) -> (r: T)
        requires
            self.wf(),
            i < self.num_rows(),
            j < self.num_cols(),
        ensures
            r == self.at(i as int, j as int),
    {
        assert(self.data@[i as int]@ == self@[i as int]);
        self.data[i][j]
    }

    /// A `rows` x `cols` matrix with every entry equal to `value`.
    pub fn filled(rows: usize, cols: usize, value: T) -> (r: Mat<T>)
        ensures
            r.wf(),
            r.num_rows() == rows,
            r.num_cols() == cols,
            forall|i: int, j: int| 0 <= i < rows && 0 <= j < cols ==> #[trigger] r.at(i, j) == value,
    {
        let mut data: Vec<Vec<T>> = Vec::new();
        let mut i: usize = 0;
        while i < rows
            invariant
                i <= rows,
                data@.len() == i,
                forall|k: int| 0 <= k < i ==> (#[trigger] data@[k])@.len() == cols,
                forall|k: int, j: int| 0 <= k < i && 0 <= j < cols ==> #[trigger] data@[k]@[j] == value,
            decreases rows - i,
        {
            let mut row: Vec<T> = Vec::new();
            let mut j: usize = 0;
            while j < cols
                invariant
                    j <= cols,
                    row@.len() == j,
                    forall|l: int| 0 <= l < j ==> #[trigger] row@[l] == value,
                decreases cols - j,
            {
                row.push(value);
                j = j + 1;
            }
            data.push(row);
            i = i + 1;
        }
        Mat { rows, cols, data }
    }
}


impl<T: Copy> Mat<T> {
    /// Builds a matrix from its rows; `None` unless every row has `cols` entries.
    pub fn from_rows(data: Vec<Vec<T>>, cols: usize) -> (r: Option<Mat<T>>)
        ensures
            r is Some <==> forall|i: int| 0 <= i < data@.len() ==> (#[trigger] data@[i])@.len() == cols,
            r matches Some(m) ==> {
                &&& m.wf()
                &&& m.num_rows() == data@.len()
                &&& m.num_cols() == cols
                &&& forall|i: int, j: int|
                    0 <= i < data@.len() && 0 <= j < cols ==> #[trigger] m.at(i, j) == data@[i]@[j]
            },
    {
        let mut i: usize = 0;
        while i < data.len()
            invariant
                i <= data@.len(),
                forall|k: int| 0 <= k < i ==> (#[trigger] data@[k])@.len() == cols,
            decreases data@.len() - i,
        {
            if data[i].len() != cols {
                return None;
            }
            i = i + 1;
        }
        let rows = data.len();
        let m = Mat { rows, cols, data };
        assert(forall|k: int| 0 <= k < rows ==> #[trigger] m@[k] == m.data@[k]@);
        Some(m)
    }

    /// The rows of the matrix, in order.
    pub fn to_rows(&self) -> (r: Vec<Vec<T>>)
        requires
            self.wf(),
        ensures
            r@.len() == self.num_rows(),
            forall|i: int| 0 <= i < self.num_rows() ==> (#[trigger] r@[i])@ == self@[i],
    {
        let mut out: Vec<Vec<T>> = Vec::new();
        let mut i: usize = 0;
        while i < self.rows
            invariant
                self.wf(),
                i <= self.num_rows(),
                out@.len() == i,
                forall|k: int| 0 <= k < i ==> (#[trigger] out@[k])@ == self@[k],
            decreases self.num_rows() - i,
        {
            let mut row: Vec<T> = Vec::new();
            let mut j: usize = 0;
            while j < self.cols
                invariant
                    self.wf(),
                    i < self.num_rows(),
                    j <= self.num_cols(),
                    row@.len() == j,
                    forall|l: int| 0 <= l < j ==> #[trigger] row@[l] == self.at(i as int, l),
                decreases self.num_cols() - j,
            {
                row.push(self.get(i, j));
                j = j + 1;
            }
            assert(row@ =~= self@[i as int]);
            out.push(row);
            i = i + 1;
        }
        out
    }

    /// The `n` x `n` identity built from the given zero and one.
    pub fn identity(n: usize, zero: T, one: T) -> (r: Mat<T>)
        ensures
            r.wf(),
            r.num_rows() == n,
            r.num_cols() == n,
            forall|i: int, j: int|
                0 <= i < n && 0 <= j < n ==> #[trigger] r.at(i, j) == if i == j {
                    one
                } else {
                    zero
                },
    {
        let mut data: Vec<Vec<T>> = Vec::new();
        let mut i: usize = 0;
        while i < n
            invariant
                i <= n,
                data@.len() == i,
                forall|k: int| 0 <= k < i ==> (#[trigger] data@[k])@.len() == n,
                forall|k: int, j: int|
                    0 <= k < i && 0 <= j < n ==> #[trigger] data@[k]@[j] == if k == j {
                        one
                    } else {
                        zero
                    },
            decreases n - i,
        {
            let mut row: Vec<T> = Vec::new();
            let mut j: usize = 0;
            while j < n
                invariant
                    j <= n,
                    i < n,
                    row@.len() == j,
                    forall|l: int| 0 <= l < j ==> #[trigger] row@[l] == if i == l {
                        one
                    } else {
                        zero
                    },
                decreases n - j,
            {
                if i == j {
                    row.push(one);
                } else {
                    row.push(zero);
                }
                j = j + 1;
            }
            data.push(row);
            i = i + 1;
        }
        Mat { rows: n, cols: n, data }
    }

    /// The transpose: entry `(i, j)` of the result is entry `(j, i)` of `self`.
    pub fn transpose(&self) -> (r: Mat<T>)
        requires
            self.wf(),
        ensures
            r.is_transpose_of(self),
    {
        let mut data: Vec<Vec<T>> = Vec::new();
        let mut i: usize = 0;
        while i < self.cols
            invariant
                self.wf(),
                i <= self.num_cols(),
                data@.len() == i,
                forall|k: int| 0 <= k < i ==> (#[trigger] data@[k])@.len() == self.num_rows(),
                forall|k: int, j: int|
                    0 <= k < i && 0 <= j < self.num_rows() ==> #[trigger] data@[k]@[j] == self.at(
                        j,
                        k,
                    ),
            decreases self.num_cols() - i,
        {
            let mut row: Vec<T> = Vec::new();
            let mut j: usize = 0;
            while j < self.rows
                invariant
                    self.wf(),
                    i < self.num_cols(),
                    j <= self.num_rows(),
                    row@.len() == j,
                    forall|l: int| 0 <= l < j ==> #[trigger] row@[l] == self.at(l, i as int),
                decreases self.num_rows() - j,
            {
                row.push(self.get(j, i));
                j = j + 1;
            }
            data.push(row);
            i = i + 1;
        }
        Mat { rows: self.cols, cols: self.rows, data }
    }
}


/// An index below `q * d` splits into a quotient below `q` and a remainder below `d`.
pub proof fn lemma_split_index(p: int, d: int, q: int)
    requires
        0 <= p,
        0 < d,
        p < q * d,
    ensures
        0 <= p / d < q,
        0 <= p % d < d,
        p == (p / d) * d + p % d,
{
    lemma_mod_pos_bound(p, d);
    lemma_fundamental_div_mod(p, d);
    lemma_mul_is_commutative(q, d);
    lemma_multiply_divide_lt(p, d, q);
    lemma_mul_is_commutative(d, p / d);
    assert(0 <= p / d) by (nonlinear_arith)
        requires
            0 <= p,
            0 < d,
    ;
}

/// Row `i` and column `j` of a `q` x `d` grid, read row by row, sit at index `i * d + j`.
pub proof fn lemma_join_index(i: int, j: int, d: int, q: int)
    requires
        0 <= i < q,
        0 <= j < d,
    ensures
        0 <= i * d + j < q * d,
        (i * d + j) / d == i,
        (i * d + j) % d == j,
{
    lemma_fundamental_div_mod_converse(i * d + j, d, i, j);
    assert(0 <= i * d + j < q * d) by (nonlinear_arith)
        requires
            0 <= i < q,
            0 <= j < d,
    ;
}

impl<T: Copy> Mat<T> {
    /// A copy of row `i`.
    pub fn row(&self, i: usize) -> (r: Vec<T>)
        requires
            self.wf(),
            i < self.num_rows(),
        ensures
            r@ == self@[i as int],
    {
        let mut row: Vec<T> = Vec::new();
        let mut j: usize = 0;
        while j < self.cols
            invariant
                self.wf(),
                i < self.num_rows(),
                j <= self.num_cols(),
                row@.len() == j,
                forall|l: int| 0 <= l < j ==> #[trigger] row@[l] == self.at(i as int, l),
            decreases self.num_cols() - j,
        {
            row.push(self.get(i, j));
            j = j + 1;
        }
        assert(row@ =~= self@[i as int]);
        row
    }

    /// Blocks placed side by side: column `c` of the result is column `c % block_cols`
    /// of block `c / block_cols`.
    pub fn hstack(blocks: &Vec<Mat<T>>, rows: usize, block_cols: usize) -> (r: Mat<T>)
        requires
            forall|k: int|
                0 <= k < blocks@.len() ==> {
                    &&& (#[trigger] blocks@[k]).wf()
                    &&& blocks@[k].num_rows() == rows
                    &&& blocks@[k].num_cols() == block_cols
                },
            blocks@.len() * block_cols <= usize::MAX,
        ensures
            r.is_hstack_of(blocks@, rows as nat, block_cols as nat),
    {
        let total = blocks.len() * block_cols;
        let ghost nb = blocks@.len() as int;
        let mut data: Vec<Vec<T>> = Vec::new();
        let mut i: usize = 0;
        while i < rows
            invariant
                total == nb * block_cols,
                nb == blocks@.len(),
                forall|k: int|
                    0 <= k < nb ==> {
                        &&& (#[trigger] blocks@[k]).wf()
                        &&& blocks@[k].num_rows() == rows
                        &&& blocks@[k].num_cols() == block_cols
                    },
                i <= rows,
                data@.len() == i,
                forall|k: int| 0 <= k < i ==> (#[trigger] data@[k])@.len() == total,
                forall|k: int, c: int|
                    0 <= k < i && 0 <= c < total ==> #[trigger] data@[k]@[c] == blocks@[c
                        / block_cols as int].at(k, c % block_cols as int),
            decreases rows - i,
        {
            let mut row: Vec<T> = Vec::new();
            let mut c: usize = 0;
            while c < total
                invariant
                    total == nb * block_cols,
                    nb == blocks@.len(),
                    forall|k: int|
                        0 <= k < nb ==> {
                            &&& (#[trigger] blocks@[k]).wf()
                            &&& blocks@[k].num_rows() == rows
                            &&& blocks@[k].num_cols() == block_cols
                        },
                    i < rows,
                    c <= total,
                    row@.len() == c,
                    forall|l: int|
                        0 <= l < c ==> #[trigger] row@[l] == blocks@[l / block_cols as int].at(
                            i as int,
                            l % block_cols as int,
                        ),
                decreases total - c,
            {
                assert(block_cols > 0) by (nonlinear_arith)
                    requires
                        c < total,
                        total == nb * block_cols,
                ;
                proof {
                    lemma_split_index(c as int, block_cols as int, nb);
                }
                let k = c / block_cols;
                let j = c % block_cols;
                row.push(blocks[k].get(i, j));
                c = c + 1;
            }
            data.push(row);
            i = i + 1;
        }
        Mat { rows, cols: total, data }
    }

    /// Blocks placed one above the other: row `r` of the result is row `r % block_rows`
    /// of block `r / block_rows`.
    pub fn vstack(blocks: &Vec<Mat<T>>, block_rows: usize, cols: usize) -> (r: Mat<T>)
        requires
            forall|k: int|
                0 <= k < blocks@.len() ==> {
                    &&& (#[trigger] blocks@[k]).wf()
                    &&& blocks@[k].num_rows() == block_rows
                    &&& blocks@[k].num_cols() == cols
                },
            blocks@.len() * block_rows <= usize::MAX,
        ensures
            r.is_vstack_of(blocks@, block_rows as nat, cols as nat),
    {
        let total = blocks.len() * block_rows;
        let ghost nb = blocks@.len() as int;
        let mut data: Vec<Vec<T>> = Vec::new();
        let mut i: usize = 0;
        while i < total
            invariant
                total == nb * block_rows,
                nb == blocks@.len(),
                forall|k: int|
                    0 <= k < nb ==> {
                        &&& (#[trigger] blocks@[k]).wf()
                        &&& blocks@[k].num_rows() == block_rows
                        &&& blocks@[k].num_cols() == cols
                    },
                i <= total,
                data@.len() == i,
                forall|l: int| 0 <= l < i ==> (#[trigger] data@[l])@.len() == cols,
                forall|l: int, j: int|
                    0 <= l < i && 0 <= j < cols ==> #[trigger] data@[l]@[j] == blocks@[l
                        / block_rows as int].at(l % block_rows as int, j),
            decreases total - i,
        {
            assert(block_rows > 0) by (nonlinear_arith)
                requires
                    i < total,
                    total == nb * block_rows,
            ;
            proof {
                lemma_split_index(i as int, block_rows as int, nb);
            }
            let k = i / block_rows;
            let l = i % block_rows;
            let row = blocks[k].row(l);
            data.push(row);
            i = i + 1;
        }
        let r = Mat { rows: total, cols, data };
        assert forall|l: int| 0 <= l < total implies #[trigger] r@[l] == r.data@[l]@ by {}
        r
    }

    /// The entries read row by row: entry `p` is `(p / cols, p % cols)`.
    pub fn vectorize(&self) -> (r: Vec<T>)
        requires
            self.wf(),
            self.num_rows() * self.num_cols() <= usize::MAX,
        ensures
            self.is_row_major(r@),
    {
        let total = self.rows * self.cols;
        let mut out: Vec<T> = Vec::new();
        let mut p: usize = 0;
        while p < total
            invariant
                self.wf(),
                total == self.num_rows() * self.num_cols(),
                p <= total,
                out@.len() == p,
                forall|q: int|
                    0 <= q < p ==> #[trigger] out@[q] == self.at(
                        q / self.num_cols() as int,
                        q % self.num_cols() as int,
                    ),
            decreases total - p,
        {
            assert(self.cols > 0) by (nonlinear_arith)
                requires
                    p < total,
                    total == self.num_rows() * self.num_cols(),
            ;
            proof {
                lemma_mul_is_commutative(self.num_rows() as int, self.num_cols() as int);
                lemma_split_index(p as int, self.cols as int, self.rows as int);
            }
            out.push(self.get(p / self.cols, p % self.cols));
            p = p + 1;
        }
        out
    }

    /// Reads a vector row by row into a `rows` x `cols` matrix: entry `(i, j)` is
    /// element `i * cols + j`.
    pub fn unvectorize(v: &Vec<T>, rows: usize, cols: usize) -> (r: Mat<T>)
        requires
            v@.len() == rows * cols,
        ensures
            r.is_read_from(v@, rows as nat, cols as nat),
    {
        let n_v = v.len();
        let mut data: Vec<Vec<T>> = Vec::new();
        let mut i: usize = 0;
        while i < rows
            invariant
                v@.len() == rows * cols,
                n_v == v@.len(),
                i <= rows,
                data@.len() == i,
                forall|k: int| 0 <= k < i ==> (#[trigger] data@[k])@.len() == cols,
                forall|k: int, j: int|
                    0 <= k < i && 0 <= j < cols ==> #[trigger] data@[k]@[j] == v@[k * cols + j],
            decreases rows - i,
        {
            let mut row: Vec<T> = Vec::new();
            let mut j: usize = 0;
            while j < cols
                invariant
                    v@.len() == rows * cols,
                    n_v == v@.len(),
                    i < rows,
                    j <= cols,
                    row@.len() == j,
                    forall|l: int| 0 <= l < j ==> #[trigger] row@[l] == v@[i * cols + l],
                decreases cols - j,
            {
                proof {
                    lemma_join_index(i as int, j as int, cols as int, rows as int);
                }
                assert(i * cols + j < v@.len());
                let at_i = i * cols;
                row.push(v[at_i + j]);
                j = j + 1;
            }
            data.push(row);
            i = i + 1;
        }
        Mat { rows, cols, data }
    }
}

impl<T: Copy> Mat<T> {
    /// Row `i` of `self` followed by row `i` of `right`.
    fn joined_row(&self, right: &Mat<T>, i: usize) -> (r: Vec<T>)
        requires
            self.wf(),
            right.wf(),
            i < self.num_rows(),
            i < right.num_rows(),
        ensures
            r@ == self@[i as int] + right@[i as int],
    {
        let mut row = self.row(i);
        let ghost start = row@;
        let mut j: usize = 0;
        while j < right.cols
            invariant
                right.wf(),
                i < right.num_rows(),
                j <= right.num_cols(),
                row@ == start + right@[i as int].subrange(0, j as int),
            decreases right.num_cols() - j,
        {
            row.push(right.get(i, j));
            j = j + 1;
            assert(row@ =~= start + right@[i as int].subrange(0, j as int));
        }
        assert(right@[i as int].subrange(0, j as int) =~= right@[i as int]);
        row
    }

    /// The block matrix `[tl, tr; bl, br]`.
    pub fn block2x2(tl: &Mat<T>, tr: &Mat<T>, bl: &Mat<T>, br: &Mat<T>) -> (r: Mat<T>)
        requires
            tl.wf(),
            tr.wf(),
            bl.wf(),
            br.wf(),
            tr.num_rows() == tl.num_rows(),
            br.num_rows() == bl.num_rows(),
            bl.num_cols() == tl.num_cols(),
            br.num_cols() == tr.num_cols(),
            tl.num_rows() + bl.num_rows() <= usize::MAX,
            tl.num_cols() + tr.num_cols() <= usize::MAX,
        ensures
            r.wf(),
            r.num_rows() == tl.num_rows() + bl.num_rows(),
            r.num_cols() == tl.num_cols() + tr.num_cols(),
            forall|i: int, j: int|
                0 <= i < r.num_rows() && 0 <= j < r.num_cols() ==> #[trigger] r.at(i, j)
                    == block_entry(tl, tr, bl, br, i, j),
    {
        let r1 = tl.rows;
        let r2 = bl.rows;
        let c1 = tl.cols;
        let cols = tl.cols + tr.cols;
        let mut data: Vec<Vec<T>> = Vec::new();
        let mut i: usize = 0;
        while i < r1 + r2
            invariant
                tl.wf(),
                tr.wf(),
                bl.wf(),
                br.wf(),
                r1 == tl.num_rows(),
                r1 == tr.num_rows(),
                r2 == bl.num_rows(),
                r2 == br.num_rows(),
                c1 == tl.num_cols(),
                c1 == bl.num_cols(),
                cols == c1 + tr.num_cols(),
                br.num_cols() == tr.num_cols(),
                r1 + r2 <= usize::MAX,
                i <= r1 + r2,
                data@.len() == i,
                forall|k: int| 0 <= k < i ==> (#[trigger] data@[k])@.len() == cols,
                forall|k: int, j: int|
                    0 <= k < i && 0 <= j < cols ==> #[trigger] data@[k]@[j] == block_entry(
                        tl,
                        tr,
                        bl,
                        br,
                        k,
                        j,
                    ),
            decreases r1 + r2 - i,
        {
            let row = if i < r1 {
                tl.joined_row(tr, i)
            } else {
                bl.joined_row(br, i - r1)
            };
            data.push(row);
            i = i + 1;
        }
        Mat { rows: r1 + r2, cols, data }
    }
}

/// Entry `(i, j)` of the block matrix `[tl, tr; bl, br]`.
pub open spec fn block_entry<T>(
    tl: &Mat<T>,
    tr: &Mat<T>,
    bl: &Mat<T>,
    br: &Mat<T>,
    i: int,
    j: int,
) -> T {
    let r1 = tl.num_rows() as int;
    let c1 = tl.num_cols() as int;
    if i < r1 {
        if j < c1 {
            tl.at(i, j)
        } else {
            tr.at(i, j - c1)
        }
    } else {
        if j < c1 {
            bl.at(i - r1, j)
        } else {
            br.at(i - r1, j - c1)
        }
    }
}

impl<T: Copy> Mat<T> {
    /// The Kronecker product `I (x) A` of an `n` x `n` identity with the square matrix `A`
    /// (`self`): block `(r / n, c / n)` is `A` on the diagonal and `zero` elsewhere.
    pub fn kron_identity_left(&self, zero: T) -> (r: Mat<T>)
        requires
            self.wf(),
            self.num_rows() == self.num_cols(),
            self.num_rows() * self.num_rows() <= usize::MAX,
        ensures
            r.is_identity_kron_of(self, zero),
    {
        let n = self.rows;
        let total = n * n;
        let mut data: Vec<Vec<T>> = Vec::new();
        let mut i: usize = 0;
        while i < total
            invariant
                self.wf(),
                n == self.num_rows(),
                n == self.num_cols(),
                total == n * n,
                i <= total,
                data@.len() == i,
                forall|k: int| 0 <= k < i ==> (#[trigger] data@[k])@.len() == total,
                forall|k: int, j: int|
                    0 <= k < i && 0 <= j < total ==> #[trigger] data@[k]@[j] == identity_kron_entry(
                        self,
                        zero,
                        k,
                        j,
                    ),
            decreases total - i,
        {
            assert(n > 0) by (nonlinear_arith)
                requires
                    i < total,
                    total == n * n,
            ;
            proof {
                lemma_split_index(i as int, n as int, n as int);
            }
            let bi = i / n;
            let ri = i % n;
            let mut row: Vec<T> = Vec::new();
            let mut j: usize = 0;
            while j < total
                invariant
                    self.wf(),
                    n == self.num_rows(),
                    n == self.num_cols(),
                    n > 0,
                    total == n * n,
                    i < total,
                    bi == i / n,
                    ri == i % n,
                    ri < n,
                    j <= total,
                    row@.len() == j,
                    forall|l: int|
                        0 <= l < j ==> #[trigger] row@[l] == identity_kron_entry(
                            self,
                            zero,
                            i as int,
                            l,
                        ),
                decreases total - j,
            {
                proof {
                    lemma_split_index(j as int, n as int, n as int);
                }
                if j / n == bi {
                    row.push(self.get(ri, j % n));
                } else {
                    row.push(zero);
                }
                j = j + 1;
            }
            data.push(row);
            i = i + 1;
        }
        Mat { rows: total, cols: total, data }
    }

    /// The Kronecker product `A (x) I` of the square matrix `A` (`self`) with an
    /// `n` x `n` identity: entry `(r, c)` is `A[r / n][c / n]` when `r % n == c % n`
    /// and `zero` otherwise.
    pub fn kron_identity_right(&self, zero: T) -> (r: Mat<T>)
        requires
            self.wf(),
            self.num_rows() == self.num_cols(),
            self.num_rows() * self.num_rows() <= usize::MAX,
        ensures
            r.is_kron_identity_of(self, zero),
    {
        let n = self.rows;
        let total = n * n;
        let mut data: Vec<Vec<T>> = Vec::new();
        let mut i: usize = 0;
        while i < total
            invariant
                self.wf(),
                n == self.num_rows(),
                n == self.num_cols(),
                total == n * n,
                i <= total,
                data@.len() == i,
                forall|k: int| 0 <= k < i ==> (#[trigger] data@[k])@.len() == total,
                forall|k: int, j: int|
                    0 <= k < i && 0 <= j < total ==> #[trigger] data@[k]@[j] == kron_identity_entry(
                        self,
                        zero,
                        k,
                        j,
                    ),
            decreases total - i,
        {
            assert(n > 0) by (nonlinear_arith)
                requires
                    i < total,
                    total == n * n,
            ;
            proof {
                lemma_split_index(i as int, n as int, n as int);
            }
            let bi = i / n;
            let ri = i % n;
            let mut row: Vec<T> = Vec::new();
            let mut j: usize = 0;
            while j < total
                invariant
                    self.wf(),
                    n == self.num_rows(),
                    n == self.num_cols(),
                    n > 0,
                    total == n * n,
                    i < total,
                    bi == i / n,
                    ri == i % n,
                    bi < n,
                    j <= total,
                    row@.len() == j,
                    forall|l: int|
                        0 <= l < j ==> #[trigger] row@[l] == kron_identity_entry(
                            self,
                            zero,
                            i as int,
                            l,
                        ),
                decreases total - j,
            {
                proof {
                    lemma_split_index(j as int, n as int, n as int);
                }
                if j % n == ri {
                    row.push(self.get(bi, j / n));
                } else {
                    row.push(zero);
                }
                j = j + 1;
            }
            data.push(row);
            i = i + 1;
        }
        Mat { rows: total, cols: total, data }
    }
}

/// Entry `(i, j)` of `I (x) A` for a square `A` of size `n`.
pub open spec fn identity_kron_entry<T>(a: &Mat<T>, zero: T, i: int, j: int) -> T {
    let n = a.num_rows() as int;
    if i / n == j / n {
        a.at(i % n, j % n)
    } else {
        zero
    }
}

/// Entry `(i, j)` of `A (x) I` for a square `A` of size `n`.
pub open spec fn kron_identity_entry<T>(a: &Mat<T>, zero: T, i: int, j: int) -> T {
    let n = a.num_rows() as int;
    if i % n == j % n {
        a.at(i / n, j / n)
    } else {
        zero
    }
}

/// Transposing twice gives back the same matrix.
pub proof fn law_transpose_twice<T>(m: Mat<T>, t: Mat<T>, tt: Mat<T>)
    requires
        m.wf(),
        t.is_transpose_of(&m),
        tt.is_transpose_of(&t),
    ensures
        tt.same(&m),
{
}

/// Reading back the row-by-row listing of a matrix gives the same matrix.
pub proof fn law_read_row_major<T>(m: Mat<T>, v: Seq<T>, u: Mat<T>)
    requires
        m.wf(),
        m.is_row_major(v),
        u.is_read_from(v, m.num_rows(), m.num_cols()),
    ensures
        u.same(&m),
{
    let rows = m.num_rows() as int;
    let cols = m.num_cols() as int;
    assert forall|i: int, j: int| 0 <= i < rows && 0 <= j < cols implies #[trigger] u.at(i, j)
        == m.at(i, j) by {
        lemma_join_index(i, j, cols, rows);
        assert(v[i * cols + j] == m.at((i * cols + j) / cols, (i * cols + j) % cols));
    }
}

/// Listing row by row the matrix read from a vector gives back the vector.
pub proof fn law_row_major_of_read<T>(v: Seq<T>, rows: nat, cols: nat, u: Mat<T>, w: Seq<T>)
    requires
        v.len() == rows * cols,
        u.is_read_from(v, rows, cols),
        u.is_row_major(w),
    ensures
        w == v,
{
    assert forall|p: int| 0 <= p < v.len() implies #[trigger] w[p] == v[p] by {
        assert(cols > 0) by (nonlinear_arith)
            requires
                0 <= p < rows * cols,
        ;
        lemma_split_index(p, cols as int, rows as int);
        assert(w[p] == u.at(p / cols as int, p % cols as int));
    }
    assert(w =~= v);
}

/// Stacking blocks vertically is the transpose of placing their transposes side by side.
pub proof fn law_vstack_is_transposed_hstack<T>(
    blocks: Seq<Mat<T>>,
    transposed: Seq<Mat<T>>,
    block_rows: nat,
    cols: nat,
    v: Mat<T>,
    h: Mat<T>,
)
    requires
        transposed.len() == blocks.len(),
        forall|k: int|
            0 <= k < blocks.len() ==> {
                &&& (#[trigger] blocks[k]).wf()
                &&& blocks[k].num_rows() == block_rows
                &&& blocks[k].num_cols() == cols
                &&& transposed[k].is_transpose_of(&blocks[k])
            },
        v.is_vstack_of(blocks, block_rows, cols),
        h.is_hstack_of(transposed, cols, block_rows),
    ensures
        v.is_transpose_of(&h),
{
    let n = blocks.len() as int;
    let br = block_rows as int;
    assert forall|i: int, j: int| 0 <= i < n * br && 0 <= j < cols implies #[trigger] v.at(i, j)
        == h.at(j, i) by {
        assert(br > 0) by (nonlinear_arith)
            requires
                0 <= i < n * br,
                0 <= n,
        ;
        lemma_split_index(i, br, n);
        let k = i / br;
        assert(transposed[k].is_transpose_of(&blocks[k]));
        assert(h.at(j, i) == transposed[k].at(j, i % br));
    }
}

impl<T: Copy> Mat<T> {
    /// `self` with `right` placed to its right.
    pub fn beside(&self, right: &Mat<T>) -> (r: Mat<T>)
        requires
            self.wf(),
            right.wf(),
            right.num_rows() == self.num_rows(),
            self.num_cols() + right.num_cols() <= usize::MAX,
        ensures
            r.wf(),
            r.num_rows() == self.num_rows(),
            r.num_cols() == self.num_cols() + right.num_cols(),
            forall|i: int, j: int|
                0 <= i < r.num_rows() && 0 <= j < r.num_cols() ==> #[trigger] r.at(i, j) == if j
                    < self.num_cols() {
                    self.at(i, j)
                } else {
                    right.at(i, j - self.num_cols())
                },
    {
        let cols = self.cols + right.cols;
        let mut data: Vec<Vec<T>> = Vec::new();
        let mut i: usize = 0;
        while i < self.rows
            invariant
                self.wf(),
                right.wf(),
                right.num_rows() == self.num_rows(),
                cols == self.num_cols() + right.num_cols(),
                i <= self.num_rows(),
                data@.len() == i,
                forall|k: int| 0 <= k < i ==> #[trigger] data@[k]@ == self@[k] + right@[k],
            decreases self.num_rows() - i,
        {
            data.push(self.joined_row(right, i));
            i = i + 1;
        }
        let r = Mat { rows: self.rows, cols, data };
        assert forall|k: int| 0 <= k < r.num_rows() implies #[trigger] r@[k] == self@[k]
            + right@[k] by {
            assert(r@[k] == r.data@[k]@);
        }
        r
    }

    /// `self` with `bottom` placed below it.
    pub fn above(&self, bottom: &Mat<T>) -> (r: Mat<T>)
        requires
            self.wf(),
            bottom.wf(),
            bottom.num_cols() == self.num_cols(),
            self.num_rows() + bottom.num_rows() <= usize::MAX,
        ensures
            r.wf(),
            r.num_rows() == self.num_rows() + bottom.num_rows(),
            r.num_cols() == self.num_cols(),
            forall|i: int, j: int|
                0 <= i < r.num_rows() && 0 <= j < r.num_cols() ==> #[trigger] r.at(i, j) == if i
                    < self.num_rows() {
                    self.at(i, j)
                } else {
                    bottom.at(i - self.num_rows(), j)
                },
    {
        let rows = self.rows + bottom.rows;
        let mut data: Vec<Vec<T>> = Vec::new();
        let mut i: usize = 0;
        while i < rows
            invariant
                self.wf(),
                bottom.wf(),
                bottom.num_cols() == self.num_cols(),
                rows == self.num_rows() + bottom.num_rows(),
                i <= rows,
                data@.len() == i,
                forall|k: int|
                    0 <= k < i ==> #[trigger] data@[k]@ == if k < self.num_rows() {
                        self@[k]
                    } else {
                        bottom@[k - self.num_rows()]
                    },
            decreases rows - i,
        {
            let row = if i < self.rows {
                self.row(i)
            } else {
                bottom.row(i - self.rows)
            };
            data.push(row);
            i = i + 1;
        }
        let r = Mat { rows, cols: self.cols, data };
        assert forall|k: int| 0 <= k < rows implies #[trigger] r@[k] == r.data@[k]@ by {}
        r
    }
}

impl<T: Copy> Mat<T> {
    /// Builds a matrix from rows that all have `cols` entries.
    pub fn from_rows_exact(data: Vec<Vec<T>>, cols: usize) -> (r: Mat<T>)
        requires
            forall|i: int| 0 <= i < data@.len() ==> (#[trigger] data@[i])@.len() == cols,
        ensures
            r.wf(),
            r.num_rows() == data@.len(),
            r.num_cols() == cols,
            forall|i: int, j: int|
                0 <= i < data@.len() && 0 <= j < cols ==> #[trigger] r.at(i, j) == data@[i]@[j],
    {
        let rows = data.len();
        let m = Mat { rows, cols, data };
        assert(forall|k: int| 0 <= k < rows ==> #[trigger] m@[k] == m.data@[k]@);
        m
    }

    /// The `1` x `n` matrix holding `v`.
    pub fn row_vector(v: Vec<T>) -> (r: Mat<T>)
        ensures
            r.wf(),
            r.num_rows() == 1,
            r.num_cols() == v@.len(),
            forall|j: int| 0 <= j < v@.len() ==> #[trigger] r.at(0, j) == v@[j],
    {
        let n = v.len();
        let mut data: Vec<Vec<T>> = Vec::new();
        data.push(v);
        Mat::from_rows_exact(data, n)
    }
}

/// In the side-by-side stack, column `j` of block `k` sits at column `k * block_cols + j`.
pub proof fn law_hstack_block_position<T>(
    h: Mat<T>,
    blocks: Seq<Mat<T>>,
    rows: nat,
    block_cols: nat,
    i: int,
    k: int,
    j: int,
)
    requires
        h.is_hstack_of(blocks, rows, block_cols),
        0 <= i < rows,
        0 <= k < blocks.len(),
        0 <= j < block_cols,
    ensures
        0 <= k * block_cols + j < h.num_cols(),
        h.at(i, k * block_cols + j) == blocks[k].at(i, j),
{
    lemma_join_index(k, j, block_cols as int, blocks.len() as int);
    lemma_mul_is_commutative(blocks.len() as int, block_cols as int);
}

/// In the vertical stack, row `i` of block `k` sits at row `k * block_rows + i`.
pub proof fn law_vstack_block_position<T>(
    v: Mat<T>,
    blocks: Seq<Mat<T>>,
    block_rows: nat,
    cols: nat,
    k: int,
    i: int,
    j: int,
)
    requires
        v.is_vstack_of(blocks, block_rows, cols),
        0 <= k < blocks.len(),
        0 <= i < block_rows,
        0 <= j < cols,
    ensures
        0 <= k * block_rows + i < v.num_rows(),
        v.at(k * block_rows + i, j) == blocks[k].at(i, j),
{
    lemma_join_index(k, i, block_rows as int, blocks.len() as int);
    lemma_mul_is_commutative(blocks.len() as int, block_rows as int);
}

/// The row-by-row listing puts entry `(i, j)` at position `i * cols + j`.
pub proof fn law_row_major_position<T>(m: Mat<T>, v: Seq<T>, i: int, j: int)
    requires
        m.is_row_major(v),
        0 <= i < m.num_rows(),
        0 <= j < m.num_cols(),
    ensures
        0 <= i * m.num_cols() + j < v.len(),
        v[i * m.num_cols() + j] == m.at(i, j),
{
    lemma_join_index(i, j, m.num_cols() as int, m.num_rows() as int);
    lemma_mul_is_commutative(m.num_rows() as int, m.num_cols() as int);
}

/// Transposition moves entry `(i, j)` to `(j, i)` and swaps the sizes.
pub proof fn law_transpose_position<T>(t: Mat<T>, m: Mat<T>, i: int, j: int)
    requires
        t.is_transpose_of(&m),
        0 <= i < m.num_rows(),
        0 <= j < m.num_cols(),
    ensures
        t.num_rows() == m.num_cols(),
        t.num_cols() == m.num_rows(),
        t.at(j, i) == m.at(i, j),
{
}

/// Block `(i, j)` of `I (x) A` is `A` when `i == j` and zero otherwise; block
/// `(i, j)` of `A (x) I` is `A[i][j]` times the identity.
pub proof fn law_kronecker_blocks<T>(
    left: Mat<T>,
    right: Mat<T>,
    a: Mat<T>,
    zero: T,
    i: int,
    j: int,
    k: int,
    l: int,
)
    requires
        a.num_rows() == a.num_cols(),
        left.is_identity_kron_of(&a, zero),
        right.is_kron_identity_of(&a, zero),
        0 <= i < a.num_rows(),
        0 <= j < a.num_rows(),
        0 <= k < a.num_rows(),
        0 <= l < a.num_rows(),
    ensures
        left.at(i * a.num_rows() + k, j * a.num_rows() + l) == if i == j {
            a.at(k, l)
        } else {
            zero
        },
        right.at(i * a.num_rows() + k, j * a.num_rows() + l) == if k == l {
            a.at(i, j)
        } else {
            zero
        },
{
    let n = a.num_rows() as int;
    lemma_join_index(i, k, n, n);
    lemma_join_index(j, l, n, n);
}

} // verus!
