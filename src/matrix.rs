use vstd::prelude::*;

use crate::gf2::Switch;

verus! {

/// The sum over GF(2) of the pairwise products of `a` and `b`: the XOR of the ANDs.
pub open spec fn dot(a: Seq<bool>, b: Seq<bool>) -> bool
    decreases a.len(),
{
    if a.len() == 0 {
        false
    } else {
        dot(a.drop_last(), b.drop_last()) != (a.last() && b.last())
    }
}

/// Column `j` of a matrix given by its rows.
pub open spec fn column(m: Seq<Seq<bool>>, j: int) -> Seq<bool> {
    Seq::new(m.len(), |k: int| m[k][j])
}

/// The matrix product over GF(2) of `a` and `b`, where `b` has `bcols` columns.
pub open spec fn product(a: Seq<Seq<bool>>, b: Seq<Seq<bool>>, bcols: nat) -> Seq<Seq<bool>> {
    Seq::new(a.len(), |i: int| Seq::new(bcols, |j: int| dot(a[i], column(b, j))))
}

/// The elementwise sum over GF(2) (XOR) of two matrices of one shape.
pub open spec fn elementwise_xor(a: Seq<Seq<bool>>, b: Seq<Seq<bool>>) -> Seq<Seq<bool>> {
    Seq::new(a.len(), |i: int| Seq::new(a[i].len(), |j: int| a[i][j] != b[i][j]))
}

/// The all-zero matrix of the given shape.
pub open spec fn zeros(nrows: nat, ncols: nat) -> Seq<Seq<bool>> {
    Seq::new(nrows, |i: int| Seq::new(ncols, |j: int| false))
}

/// Row `k` of `a` and row `r` exchanged.
pub open spec fn swap_rows_spec(a: Seq<Seq<bool>>, k: int, r: int) -> Seq<Seq<bool>> {
    a.update(k, a[r]).update(r, a[k])
}

/// Row `src` of `a` added (XORed) into row `dst`.
pub open spec fn add_row_spec(a: Seq<Seq<bool>>, dst: int, src: int) -> Seq<Seq<bool>> {
    a.update(dst, Seq::new(a[dst].len(), |c: int| a[dst][c] != a[src][c]))
}

proof fn lemma_flat_index(i: int, j: int, nrows: int, ncols: int)
    requires
        0 <= i < nrows,
        0 <= j < ncols,
    ensures
        0 <= i * ncols + j < nrows * ncols,
        i * ncols + ncols <= nrows * ncols,
        0 <= i * ncols,
{
    assert(0 <= i * ncols + j < nrows * ncols) by (nonlinear_arith)
        requires
            0 <= i < nrows,
            0 <= j < ncols,
    ;
    assert(i * ncols + ncols <= nrows * ncols) by (nonlinear_arith)
        requires
            0 <= i < nrows,
            0 <= j < ncols,
    ;
    assert(0 <= i * ncols) by (nonlinear_arith)
        requires
            0 <= i,
            0 <= ncols,
    ;
}

proof fn lemma_flat_index_row(i: int, ncols: int, p: int)
    requires
        0 <= i,
        0 < ncols,
        i * ncols <= p < i * ncols + ncols,
    ensures
        p / ncols == i,
        p % ncols == p - i * ncols,
{
    vstd::arithmetic::div_mod::lemma_fundamental_div_mod_converse(p, ncols, i, p - i * ncols);
}

proof fn lemma_flat_injective(i: int, j: int, a: int, c: int, ncols: int)
    requires
        0 <= i,
        0 <= a,
        0 <= j < ncols,
        0 <= c < ncols,
        i * ncols + j == a * ncols + c,
    ensures
        i == a,
        j == c,
{
    lemma_flat_index_row(i, ncols, i * ncols + j);
    lemma_flat_index_row(a, ncols, a * ncols + c);
}

/// A dense row-major matrix over GF(2): entry `(r, c)` is `data[r * ncols + c]`.
pub struct SimpleBoolMatrix {
    data: Vec<bool>,
    nrows: usize,
    ncols: usize,
}

impl View for SimpleBoolMatrix {
    type V = Seq<Seq<bool>>;

    /// The matrix as the sequence of its rows.
    closed spec fn view(&self) -> Seq<Seq<bool>> {
        Seq::new(
            self.nrows as nat,
            |i: int| Seq::new(self.ncols as nat, |j: int| self.data@[i * self.ncols + j]),
        )
    }
}

impl SimpleBoolMatrix {
    /// The backing buffer holds exactly `nrows * ncols` entries.
    pub closed spec fn wf(&self) -> bool {
        &&& self.data@.len() == self.nrows * self.ncols
        &&& self.nrows * self.ncols <= usize::MAX
    }

    /// The number of rows.
    pub closed spec fn num_rows(&self) -> nat {
        self.nrows as nat
    }

    /// The number of columns.
    pub closed spec fn num_cols(&self) -> nat {
        self.ncols as nat
    }

    /// The view has `num_rows` rows.
    pub broadcast proof fn lemma_shape(m: &SimpleBoolMatrix)
        ensures
            #[trigger] m@.len() == m.num_rows(),
    {
    }

    /// Each row of the view has `num_cols` entries.
    pub broadcast proof fn lemma_row_len(m: &SimpleBoolMatrix, i: int)
        requires
            0 <= i < m.num_rows(),
        ensures
            #[trigger] m@[i].len() == m.num_cols(),
    {
    }

    /// Builds a matrix from its row-major entries.
    pub fn new(data: Vec<bool>, nrows: usize, ncols: usize) -> (m: Self)
        requires
            data@.len() == nrows * ncols,
        ensures
            m.wf(),
            m.num_rows() == nrows,
            m.num_cols() == ncols,
            forall|i: int, j: int|
                0 <= i < nrows && 0 <= j < ncols ==> #[trigger] m@[i][j] == data@[i * ncols + j],
    {
        let len = data.len();
        assert(len == nrows * ncols);
        SimpleBoolMatrix { data, nrows, ncols }
    }

    /// The all-zero matrix of the given shape.
    pub fn zeros(nrows: usize, ncols: usize) -> (m: Self)
        requires
            nrows * ncols <= usize::MAX,
        ensures
            m.wf(),
            m.num_rows() == nrows,
            m.num_cols() == ncols,
            m@ == zeros(nrows as nat, ncols as nat),
    {
        let m = SimpleBoolMatrix { data: vec![false; nrows * ncols], nrows, ncols };
        assert forall|i: int, j: int| 0 <= i < nrows && 0 <= j < ncols implies #[trigger] m@[i][j]
            == false by {
            lemma_flat_index(i, j, nrows as int, ncols as int);
        }
        assert(m@ =~~= zeros(nrows as nat, ncols as nat));
        m
    }

    /// The number of rows.
    pub fn nrows(&self) -> (r: usize)
        ensures
            r == self.num_rows(),
    {
        self.nrows
    }

    /// The number of columns.
    pub fn ncols(&self) -> (r: usize)
        ensures
            r == self.num_cols(),
    {
        self.ncols
    }

    /// Entry `(i, j)`.
    pub fn get(&self, i: usize, j: usize) -> (r: bool)
        requires
            self.wf(),
            i < self.num_rows(),
            j < self.num_cols(),
        ensures
            r == self@[i as int][j as int],
    {
        proof {
            lemma_flat_index(i as int, j as int, self.nrows as int, self.ncols as int);
        }
        self.data[i * self.ncols + j]
    }

    /// Sets entry `(i, j)` to `v`.
    pub fn set(&mut self, i: usize, j: usize, v: bool)
        requires
            old(self).wf(),
            i < old(self).num_rows(),
            j < old(self).num_cols(),
        ensures
            final(self).wf(),
            final(self).num_rows() == old(self).num_rows(),
            final(self).num_cols() == old(self).num_cols(),
            final(self)@ == old(self)@.update(i as int, old(self)@[i as int].update(j as int, v)),
    {
        proof {
            lemma_flat_index(i as int, j as int, self.nrows as int, self.ncols as int);
        }
        let ghost before = self@;
        self.data.set(i * self.ncols + j, v);
        proof {
            assert forall|a: int, c: int|
                0 <= a < self.nrows && 0 <= c < self.ncols implies #[trigger] self@[a][c] == (if a == i
                && c == j {
                v
            } else {
                before[a][c]
            }) by {
                lemma_flat_index(a, c, self.nrows as int, self.ncols as int);
                if a * self.ncols + c == i * self.ncols + j {
                    lemma_flat_injective(a, c, i as int, j as int, self.ncols as int);
                }
            }
            assert(self@ =~~= before.update(i as int, before[i as int].update(j as int, v)));
        }
    }

    /// The row-major entries.
    pub fn into_data(self) -> (r: Vec<bool>)
        requires
            self.wf(),
        ensures
            r@.len() == self.num_rows() * self.num_cols(),
            forall|i: int, j: int|
                0 <= i < self.num_rows() && 0 <= j < self.num_cols() ==> #[trigger] self@[i][j]
                    == r@[i * self.num_cols() + j],
    {
        self.data
    }

    /// The elementwise sum over GF(2); `self` is consumed and `rhs` is left as it is.
    pub fn add(self, rhs: &Self) -> (r: Self)
        requires
            self.wf(),
            rhs.wf(),
            self.num_rows() == rhs.num_rows(),
            self.num_cols() == rhs.num_cols(),
        ensures
            r.wf(),
            r.num_rows() == self.num_rows(),
            r.num_cols() == self.num_cols(),
            r@ == elementwise_xor(self@, rhs@),
    {
        let mut m = self;
        let len = m.data.len();
        let mut p: usize = 0;
        while p < len
            invariant
                m.wf(),
                m.nrows == self.nrows,
                m.ncols == self.ncols,
                len == m.data@.len(),
                rhs.data@.len() == len,
                p <= len,
                forall|q: int| 0 <= q < p ==> #[trigger] m.data@[q] == (self.data@[q] != rhs.data@[q]),
                forall|q: int| p <= q < len ==> #[trigger] m.data@[q] == self.data@[q],
            decreases len - p,
        {
            let v = Switch(m.data[p]).add(Switch(rhs.data[p])).0;
            m.data.set(p, v);
            p = p + 1;
        }
        assert forall|i: int, j: int| 0 <= i < m.nrows && 0 <= j < m.ncols implies #[trigger] m@[i][j]
            == (self@[i][j] != rhs@[i][j]) by {
            lemma_flat_index(i, j, m.nrows as int, m.ncols as int);
        }
        assert(m@ =~~= elementwise_xor(self@, rhs@));
        m
    }

    /// The matrix product over GF(2).
    pub fn mul(&self, rhs: &Self) -> (r: Self)
        requires
            self.wf(),
            rhs.wf(),
            self.num_cols() == rhs.num_rows(),
            self.num_rows() * rhs.num_cols() <= usize::MAX,
        ensures
            r.wf(),
            r.num_rows() == self.num_rows(),
            r.num_cols() == rhs.num_cols(),
            r@ == product(self@, rhs@, rhs.num_cols()),
    {
        let n = self.ncols;
        let mut out: Vec<bool> = Vec::new();
        let mut i: usize = 0;
        while i < self.nrows
            invariant
                self.wf(),
                rhs.wf(),
                n == self.ncols,
                n == rhs.nrows,
                self.nrows * rhs.ncols <= usize::MAX,
                i <= self.nrows,
                out@.len() == i * rhs.ncols,
                forall|a: int, c: int|
                    0 <= a < i && 0 <= c < rhs.ncols ==> #[trigger] out@[a * rhs.ncols + c] == dot(
                        self@[a],
                        column(rhs@, c),
                    ),
            decreases self.nrows - i,
        {
            let mut j: usize = 0;
            while j < rhs.ncols
                invariant
                    self.wf(),
                    rhs.wf(),
                    n == self.ncols,
                    n == rhs.nrows,
                    i < self.nrows,
                    j <= rhs.ncols,
                    out@.len() == i * rhs.ncols + j,
                    forall|a: int, c: int|
                        0 <= a < i && 0 <= c < rhs.ncols ==> #[trigger] out@[a * rhs.ncols + c]
                            == dot(self@[a], column(rhs@, c)),
                    forall|c: int|
                        0 <= c < j ==> #[trigger] out@[i * rhs.ncols + c] == dot(
                            self@[i as int],
                            column(rhs@, c),
                        ),
                decreases rhs.ncols - j,
            {
                proof {
                    lemma_flat_index(i as int, j as int, self.nrows as int, rhs.ncols as int);
                }
                let ghost row = self@[i as int];
                let ghost col = column(rhs@, j as int);
                let mut acc = false;
                let mut k: usize = 0;
                while k < n
                    invariant
                        self.wf(),
                        rhs.wf(),
                        n == self.ncols,
                        n == rhs.nrows,
                        i < self.nrows,
                        j < rhs.ncols,
                        k <= n,
                        row == self@[i as int],
                        col == column(rhs@, j as int),
                        row.len() == n,
                        col.len() == n,
                        acc == dot(row.subrange(0, k as int), col.subrange(0, k as int)),
                    decreases n - k,
                {
                    proof {
                        lemma_flat_index(i as int, k as int, self.nrows as int, n as int);
                        lemma_flat_index(k as int, j as int, n as int, rhs.ncols as int);
                        assert(row.subrange(0, k + 1).drop_last() =~= row.subrange(0, k as int));
                        assert(col.subrange(0, k + 1).drop_last() =~= col.subrange(0, k as int));
                    }
                    let x = self.data[i * n + k];
                    let y = rhs.data[k * rhs.ncols + j];
                    acc = Switch(acc).add(Switch(x).mul(Switch(y))).0;
                    k = k + 1;
                }
                proof {
                    assert(row.subrange(0, n as int) =~= row);
                    assert(col.subrange(0, n as int) =~= col);
                }
                out.push(acc);
                proof {
                    assert forall|a: int, c: int|
                        0 <= a < i && 0 <= c < rhs.ncols implies #[trigger] out@[a * rhs.ncols + c]
                            == dot(self@[a], column(rhs@, c)) by {
                        lemma_flat_index(a, c, i as int, rhs.ncols as int);
                    }
                }
                j = j + 1;
            }
            proof {
                assert((i + 1) * rhs.ncols == i * rhs.ncols + rhs.ncols) by (nonlinear_arith);
                assert forall|a: int, c: int|
                    0 <= a < i + 1 && 0 <= c < rhs.ncols implies #[trigger] out@[a * rhs.ncols + c]
                        == dot(self@[a], column(rhs@, c)) by {
                    if a < i {
                    } else {
                        assert(a == i);
                    }
                }
            }
            i = i + 1;
        }
        let r = SimpleBoolMatrix { data: out, nrows: self.nrows, ncols: rhs.ncols };
        assert(r@ =~~= product(self@, rhs@, rhs.ncols as nat));
        r
    }
}

/// Adding a matrix to itself gives the all-zero matrix of its shape.
pub proof fn lemma_add_self_is_zero(m: SimpleBoolMatrix)
    ensures
        elementwise_xor(m@, m@) == zeros(m.num_rows(), m.num_cols()),
{
    SimpleBoolMatrix::lemma_shape(&m);
    assert forall|i: int| 0 <= i < m.num_rows() implies #[trigger] m@[i].len() == m.num_cols() by {
        SimpleBoolMatrix::lemma_row_len(&m, i);
    }
    assert(elementwise_xor(m@, m@) =~~= zeros(m.num_rows(), m.num_cols()));
}

} // verus!
