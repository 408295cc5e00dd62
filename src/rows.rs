use vstd::prelude::*;

use crate::gf2::Switch;
use crate::matrix::{SimpleBoolMatrix, add_row_spec, swap_rows_spec};

verus! {

broadcast use {SimpleBoolMatrix::lemma_shape, SimpleBoolMatrix::lemma_row_len};

/// No index occurs twice in `s`.
pub open spec fn distinct(s: Seq<usize>) -> bool {
    forall|a: int, b: int| 0 <= a < b < s.len() ==> s[a] != s[b]
}

/// Exclusive access to a chosen list of rows of one matrix, in the order in which they
/// were asked for. Every access goes through the matrix's single buffer by index, so
/// the rows can be swapped, read and combined with one another without any two handles
/// sharing storage.
pub struct MatrixRows {
    matrix: SimpleBoolMatrix,
    selected: Vec<usize>,
}

impl MatrixRows {
    /// The matrix is well formed and the selection holds distinct rows of it.
    pub closed spec fn wf(&self) -> bool {
        &&& self.matrix.wf()
        &&& forall|k: int| 0 <= k < self.selected@.len() ==> #[trigger] self.selected@[k] < self.matrix.num_rows()
        &&& distinct(self.selected@)
    }

    /// The row indices, in the order in which they were asked for.
    pub closed spec fn selection(&self) -> Seq<usize> {
        self.selected@
    }

    /// The whole underlying matrix.
    pub closed spec fn backing(&self) -> SimpleBoolMatrix {
        self.matrix
    }

    /// The `k`-th selected row.
    pub open spec fn row(&self, k: int) -> Seq<bool> {
        self.backing()@[self.selection()[k] as int]
    }

    /// The selected rows, in the order in which they were asked for.
    pub open spec fn rows(&self) -> Seq<Seq<bool>> {
        Seq::new(self.selection().len(), |k: int| self.row(k))
    }

    /// The number of selected rows.
    pub fn len(&self) -> (r: usize)
        ensures
            r == self.selection().len(),
    {
        self.selected.len()
    }

    /// The number of entries in each row.
    pub fn row_len(&self) -> (r: usize)
        ensures
            r == self.backing().num_cols(),
    {
        self.matrix.ncols()
    }

    /// Entry `c` of the `k`-th selected row.
    pub fn get(&self, k: usize, c: usize) -> (r: bool)
        requires
            self.wf(),
            k < self.selection().len(),
            c < self.backing().num_cols(),
        ensures
            r == self.row(k as int)[c as int],
    {
        self.matrix.get(self.selected[k], c)
    }

    /// Writes `v` into entry `c` of the `k`-th selected row. No other selected row
    /// changes.
    pub fn set(&mut self, k: usize, c: usize, v: bool)
        requires
            old(self).wf(),
            k < old(self).selection().len(),
            c < old(self).backing().num_cols(),
        ensures
            final(self).wf(),
            final(self).selection() == old(self).selection(),
            final(self).backing().num_rows() == old(self).backing().num_rows(),
            final(self).backing().num_cols() == old(self).backing().num_cols(),
            final(self).backing()@ == old(self).backing()@.update(
                old(self).selection()[k as int] as int,
                old(self).row(k as int).update(c as int, v),
            ),
            final(self).rows() == old(self).rows().update(k as int, old(self).row(k as int).update(c as int, v)),
    {
        let ghost before = self.rows();
        let r = self.selected[k];
        self.matrix.set(r, c, v);
        assert(self.rows() =~= before.update(k as int, before[k as int].update(c as int, v)));
    }

    /// Exchanges the contents of the `a`-th and `b`-th selected rows.
    pub fn swap(&mut self, a: usize, b: usize)
        requires
            old(self).wf(),
            a < old(self).selection().len(),
            b < old(self).selection().len(),
        ensures
            final(self).wf(),
            final(self).selection() == old(self).selection(),
            final(self).backing().num_rows() == old(self).backing().num_rows(),
            final(self).backing().num_cols() == old(self).backing().num_cols(),
            final(self).backing()@ == swap_rows_spec(
                old(self).backing()@,
                old(self).selection()[a as int] as int,
                old(self).selection()[b as int] as int,
            ),
    {
        let ghost m0 = self.backing()@;
        let ra = self.selected[a];
        let rb = self.selected[b];
        let ncols = self.matrix.ncols();
        let mut c: usize = 0;
        while c < ncols
            invariant
                self.wf(),
                self.selected@ == old(self).selected@,
                ra == self.selected@[a as int],
                rb == self.selected@[b as int],
                a < self.selected@.len(),
                b < self.selected@.len(),
                ncols == self.matrix.num_cols(),
                self.matrix.num_rows() == old(self).matrix.num_rows(),
                m0 == old(self).matrix@,
                c <= ncols,
                self.matrix@.len() == m0.len(),
                forall|i: int| 0 <= i < m0.len() && i != ra && i != rb ==> #[trigger] self.matrix@[i] == m0[i],
                forall|j: int| 0 <= j < ncols ==> #[trigger] self.matrix@[ra as int][j] == if j < c {
                    m0[rb as int][j]
                } else {
                    m0[ra as int][j]
                },
                forall|j: int| 0 <= j < ncols ==> #[trigger] self.matrix@[rb as int][j] == if j < c {
                    m0[ra as int][j]
                } else {
                    m0[rb as int][j]
                },
            decreases ncols - c,
        {
            let x = self.matrix.get(ra, c);
            let y = self.matrix.get(rb, c);
            self.matrix.set(ra, c, y);
            self.matrix.set(rb, c, x);
            c = c + 1;
        }
        assert(self.matrix@ =~~= swap_rows_spec(m0, ra as int, rb as int));
    }

    /// Adds (XORs) the `src`-th selected row into the `dst`-th one.
    pub fn add_row_into(&mut self, dst: usize, src: usize)
        requires
            old(self).wf(),
            dst < old(self).selection().len(),
            src < old(self).selection().len(),
            dst != src,
        ensures
            final(self).wf(),
            final(self).selection() == old(self).selection(),
            final(self).backing().num_rows() == old(self).backing().num_rows(),
            final(self).backing().num_cols() == old(self).backing().num_cols(),
            final(self).backing()@ == add_row_spec(
                old(self).backing()@,
                old(self).selection()[dst as int] as int,
                old(self).selection()[src as int] as int,
            ),
    {
        let ghost m0 = self.backing()@;
        let rd = self.selected[dst];
        let rs = self.selected[src];
        let ncols = self.matrix.ncols();
        let mut c: usize = 0;
        while c < ncols
            invariant
                self.wf(),
                self.selected@ == old(self).selected@,
                rd == self.selected@[dst as int],
                rs == self.selected@[src as int],
                rd != rs,
                dst < self.selected@.len(),
                src < self.selected@.len(),
                ncols == self.matrix.num_cols(),
                self.matrix.num_rows() == old(self).matrix.num_rows(),
                m0 == old(self).matrix@,
                c <= ncols,
                self.matrix@.len() == m0.len(),
                forall|i: int| 0 <= i < m0.len() && i != rd ==> #[trigger] self.matrix@[i] == m0[i],
                forall|j: int| 0 <= j < ncols ==> #[trigger] self.matrix@[rd as int][j] == if j < c {
                    m0[rd as int][j] != m0[rs as int][j]
                } else {
                    m0[rd as int][j]
                },
            decreases ncols - c,
        {
            let x = self.matrix.get(rd, c);
            let y = self.matrix.get(rs, c);
            self.matrix.set(rd, c, Switch(x).sub(Switch(y)).0);
            c = c + 1;
        }
        assert(self.matrix@ =~~= add_row_spec(m0, rd as int, rs as int));
    }

    /// Gives the matrix back.
    pub fn into_matrix(self) -> (m: SimpleBoolMatrix)
        requires
            self.wf(),
        ensures
            m.wf(),
            m == self.backing(),
    {
        self.matrix
    }
}

impl SimpleBoolMatrix {
    /// Takes the matrix apart into exclusive access to the rows `selected_row_indices`,
    /// in that order. The indices must be distinct rows of the matrix.
    pub fn get_mut_rows(self, selected_row_indices: &[usize]) -> (rows: MatrixRows)
        requires
            self.wf(),
            forall|k: int| 0 <= k < selected_row_indices@.len() ==> #[trigger] selected_row_indices@[k] < self.num_rows(),
            distinct(selected_row_indices@),
        ensures
            rows.wf(),
            rows.selection() == selected_row_indices@,
            rows.backing() == self,
    {
        let mut selected: Vec<usize> = Vec::new();
        let mut k: usize = 0;
        while k < selected_row_indices.len()
            invariant
                k <= selected_row_indices@.len(),
                selected@ == selected_row_indices@.subrange(0, k as int),
            decreases selected_row_indices@.len() - k,
        {
            selected.push(selected_row_indices[k]);
            k = k + 1;
        }
        assert(selected@ =~= selected_row_indices@);
        MatrixRows { matrix: self, selected }
    }
}

} // verus!
