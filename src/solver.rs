use vstd::prelude::*;

use crate::gf2::Switch;
use crate::matrix::{SimpleBoolMatrix, add_row_spec, dot, swap_rows_spec};
use crate::rows::MatrixRows;

verus! {

broadcast use {SimpleBoolMatrix::lemma_shape, SimpleBoolMatrix::lemma_row_len};

/// Entries `k` and `r` of `b` exchanged.
pub open spec fn swap_entries(b: Seq<bool>, k: int, r: int) -> Seq<bool> {
    b.update(k, b[r]).update(r, b[k])
}

/// The first row at or after `from` with a 1 in column `k`, or the number of rows if
/// there is none.
pub open spec fn pivot_row(a: Seq<Seq<bool>>, k: int, from: int) -> int
    decreases a.len() - from,
{
    if from >= a.len() {
        a.len() as int
    } else if a[from][k] {
        from
    } else {
        pivot_row(a, k, from + 1)
    }
}

/// Brings a 1 onto the diagonal of column `k` by swapping in the first row below that
/// has one, if row `k` lacks it and such a row exists.
pub open spec fn pivot_step(a: Seq<Seq<bool>>, b: Seq<bool>, k: int) -> (Seq<Seq<bool>>, Seq<bool>) {
    if a[k][k] {
        (a, b)
    } else {
        let r = pivot_row(a, k, k + 1);
        if r < a.len() {
            (swap_rows_spec(a, k, r), swap_entries(b, k, r))
        } else {
            (a, b)
        }
    }
}

/// Row `src` added into row `dst`, on the matrix and on the right-hand side.
pub open spec fn combine(a: Seq<Seq<bool>>, b: Seq<bool>, dst: int, src: int) -> (Seq<Seq<bool>>, Seq<bool>) {
    (add_row_spec(a, dst, src), b.update(dst, b[dst] != b[src]))
}

/// Row `k` added into each of the rows `k+1 .. upto` that has a 1 in column `k`, in
/// that order.
pub open spec fn clear_below(a: Seq<Seq<bool>>, b: Seq<bool>, k: int, upto: int) -> (Seq<Seq<bool>>, Seq<bool>)
    decreases upto - k,
{
    if upto <= k + 1 {
        (a, b)
    } else {
        let s = clear_below(a, b, k, upto - 1);
        if s.0[upto - 1][k] {
            combine(s.0, s.1, upto - 1, k)
        } else {
            s
        }
    }
}

/// Row `k` added into each of the rows `0 .. upto` that has a 1 in column `k`, in that
/// order.
pub open spec fn clear_above(a: Seq<Seq<bool>>, b: Seq<bool>, k: int, upto: int) -> (Seq<Seq<bool>>, Seq<bool>)
    decreases upto,
{
    if upto <= 0 {
        (a, b)
    } else {
        let s = clear_above(a, b, k, upto - 1);
        if s.0[upto - 1][k] {
            combine(s.0, s.1, upto - 1, k)
        } else {
            s
        }
    }
}

/// The forward phase run on the columns `0 .. count`.
pub open spec fn forward(a: Seq<Seq<bool>>, b: Seq<bool>, count: int) -> (Seq<Seq<bool>>, Seq<bool>)
    decreases count,
{
    if count <= 0 {
        (a, b)
    } else {
        let s = forward(a, b, count - 1);
        let p = pivot_step(s.0, s.1, count - 1);
        clear_below(p.0, p.1, count - 1, a.len() as int)
    }
}

/// The backward phase run on the last `count` columns, from the last one down.
pub open spec fn backward(a: Seq<Seq<bool>>, b: Seq<bool>, count: int) -> (Seq<Seq<bool>>, Seq<bool>)
    decreases count,
{
    if count <= 0 {
        (a, b)
    } else {
        let s = backward(a, b, count - 1);
        let k = a.len() - count;
        clear_above(s.0, s.1, k, k)
    }
}

/// The working matrix and right-hand side after Gauss-Jordan elimination over GF(2).
pub open spec fn eliminate(a: Seq<Seq<bool>>, b: Seq<bool>) -> (Seq<Seq<bool>>, Seq<bool>) {
    let f = forward(a, b, a.len() as int);
    backward(f.0, f.1, a.len() as int)
}

/// What elimination leaves in the right-hand side: the vector returned as the solution.
pub open spec fn solution(a: Seq<Seq<bool>>, b: Seq<bool>) -> Seq<bool> {
    eliminate(a, b).1
}

/// The product over GF(2) of a matrix and a vector.
pub open spec fn mat_vec(a: Seq<Seq<bool>>, x: Seq<bool>) -> Seq<bool> {
    Seq::new(a.len(), |i: int| dot(a[i], x))
}

/// The vector of `n` entries with a single 1, at `i`.
pub open spec fn unit(n: nat, i: int) -> Seq<bool> {
    Seq::new(n, |j: int| i == j)
}

/// The `n`×`n` identity matrix.
pub open spec fn identity(n: nat) -> Seq<Seq<bool>> {
    Seq::new(n, |i: int| unit(n, i))
}

/// Elimination finds a pivot in every column of `a`: the working matrix ends as the
/// identity. (The right-hand side has no part in what happens to the matrix.)
pub open spec fn reduces_to_identity(a: Seq<Seq<bool>>) -> bool {
    eliminate(a, Seq::new(a.len(), |i: int| false)).0 == identity(a.len())
}

/// `a` is `n`×`n` and `b` has `n` entries.
pub open spec fn shaped(a: Seq<Seq<bool>>, b: Seq<bool>, n: nat) -> bool {
    &&& a.len() == n
    &&& forall|i: int| 0 <= i < n ==> (#[trigger] a[i]).len() == n
    &&& b.len() == n
}

proof fn lemma_dot_xor(r1: Seq<bool>, r2: Seq<bool>, x: Seq<bool>)
    requires
        r1.len() == r2.len(),
        r1.len() == x.len(),
    ensures
        dot(Seq::new(r1.len(), |c: int| r1[c] != r2[c]), x) == (dot(r1, x) != dot(r2, x)),
    decreases r1.len(),
{
    let s = Seq::new(r1.len(), |c: int| r1[c] != r2[c]);
    if r1.len() > 0 {
        let r1d = r1.drop_last();
        let r2d = r2.drop_last();
        lemma_dot_xor(r1d, r2d, x.drop_last());
        assert(s.drop_last() =~= Seq::new(r1d.len(), |c: int| r1d[c] != r2d[c]));
    }
}

proof fn lemma_dot_unit(n: nat, i: int, x: Seq<bool>, k: nat)
    requires
        0 <= i < n,
        x.len() == n,
        k <= n,
    ensures
        dot(unit(n, i).subrange(0, k as int), x.subrange(0, k as int)) == (i < k && x[i]),
    decreases k,
{
    let e = unit(n, i);
    if k > 0 {
        lemma_dot_unit(n, i, x, (k - 1) as nat);
        assert(e.subrange(0, k as int).drop_last() =~= e.subrange(0, k - 1));
        assert(x.subrange(0, k as int).drop_last() =~= x.subrange(0, k - 1));
    }
}

proof fn lemma_identity_mat_vec(n: nat, x: Seq<bool>)
    requires
        x.len() == n,
    ensures
        mat_vec(identity(n), x) == x,
{
    assert forall|i: int| 0 <= i < n implies #[trigger] mat_vec(identity(n), x)[i] == x[i] by {
        let e = unit(n, i);
        lemma_dot_unit(n, i, x, n);
        assert(e.subrange(0, n as int) =~= e);
        assert(identity(n)[i] =~= e);
        assert(x.subrange(0, n as int) =~= x);
    }
    assert(mat_vec(identity(n), x) =~= x);
}

proof fn lemma_combine_equivalent(a: Seq<Seq<bool>>, b: Seq<bool>, x: Seq<bool>, n: nat, dst: int, src: int)
    requires
        shaped(a, b, n),
        x.len() == n,
        0 <= dst < n,
        0 <= src < n,
        dst != src,
    ensures
        shaped(combine(a, b, dst, src).0, combine(a, b, dst, src).1, n),
        (mat_vec(a, x) == b) == (mat_vec(combine(a, b, dst, src).0, x) == combine(a, b, dst, src).1),
{
    let c = combine(a, b, dst, src);
    lemma_dot_xor(a[dst], a[src], x);
    if mat_vec(a, x) == b {
        assert(mat_vec(c.0, x) =~= c.1);
    }
    if mat_vec(c.0, x) == c.1 {
        assert forall|i: int| 0 <= i < n implies #[trigger] mat_vec(a, x)[i] == b[i] by {
            assert(mat_vec(c.0, x)[src] == c.1[src]);
            assert(mat_vec(c.0, x)[i] == c.1[i]);
        }
        assert(mat_vec(a, x) =~= b);
    }
}

proof fn lemma_swap_equivalent(a: Seq<Seq<bool>>, b: Seq<bool>, x: Seq<bool>, n: nat, k: int, r: int)
    requires
        shaped(a, b, n),
        x.len() == n,
        0 <= k < n,
        0 <= r < n,
    ensures
        shaped(swap_rows_spec(a, k, r), swap_entries(b, k, r), n),
        (mat_vec(a, x) == b) == (mat_vec(swap_rows_spec(a, k, r), x) == swap_entries(b, k, r)),
{
    let a2 = swap_rows_spec(a, k, r);
    let b2 = swap_entries(b, k, r);
    if mat_vec(a, x) == b {
        assert(mat_vec(a2, x) =~= b2);
    }
    if mat_vec(a2, x) == b2 {
        assert forall|i: int| 0 <= i < n implies #[trigger] mat_vec(a, x)[i] == b[i] by {
            if i == k {
                assert(mat_vec(a2, x)[r] == b2[r]);
            } else if i == r {
                assert(mat_vec(a2, x)[k] == b2[k]);
            } else {
                assert(mat_vec(a2, x)[i] == b2[i]);
            }
        }
        assert(mat_vec(a, x) =~= b);
    }
}

proof fn lemma_clear_below_equivalent(a: Seq<Seq<bool>>, b: Seq<bool>, x: Seq<bool>, n: nat, k: int, upto: int)
    requires
        shaped(a, b, n),
        x.len() == n,
        0 <= k < n,
        upto <= n,
    ensures
        shaped(clear_below(a, b, k, upto).0, clear_below(a, b, k, upto).1, n),
        (mat_vec(a, x) == b) == (mat_vec(clear_below(a, b, k, upto).0, x) == clear_below(a, b, k, upto).1),
    decreases upto - k,
{
    if upto > k + 1 {
        lemma_clear_below_equivalent(a, b, x, n, k, upto - 1);
        let s = clear_below(a, b, k, upto - 1);
        if s.0[upto - 1][k] {
            lemma_combine_equivalent(s.0, s.1, x, n, upto - 1, k);
        }
    }
}

proof fn lemma_clear_above_equivalent(a: Seq<Seq<bool>>, b: Seq<bool>, x: Seq<bool>, n: nat, k: int, upto: int)
    requires
        shaped(a, b, n),
        x.len() == n,
        0 <= k < n,
        upto <= k,
    ensures
        shaped(clear_above(a, b, k, upto).0, clear_above(a, b, k, upto).1, n),
        (mat_vec(a, x) == b) == (mat_vec(clear_above(a, b, k, upto).0, x) == clear_above(a, b, k, upto).1),
    decreases upto,
{
    if upto > 0 {
        lemma_clear_above_equivalent(a, b, x, n, k, upto - 1);
        let s = clear_above(a, b, k, upto - 1);
        if s.0[upto - 1][k] {
            lemma_combine_equivalent(s.0, s.1, x, n, upto - 1, k);
        }
    }
}

proof fn lemma_forward_equivalent(a: Seq<Seq<bool>>, b: Seq<bool>, x: Seq<bool>, n: nat, count: int)
    requires
        shaped(a, b, n),
        x.len() == n,
        count <= n,
    ensures
        shaped(forward(a, b, count).0, forward(a, b, count).1, n),
        (mat_vec(a, x) == b) == (mat_vec(forward(a, b, count).0, x) == forward(a, b, count).1),
    decreases count,
{
    if count > 0 {
        lemma_forward_equivalent(a, b, x, n, count - 1);
        let s = forward(a, b, count - 1);
        let k = count - 1;
        if !s.0[k][k] {
            lemma_pivot_row_found(s.0, k, k + 1);
            let r = pivot_row(s.0, k, k + 1);
            if r < n {
                lemma_swap_equivalent(s.0, s.1, x, n, k, r);
            }
        }
        let p = pivot_step(s.0, s.1, k);
        lemma_clear_below_equivalent(p.0, p.1, x, n, k, n as int);
    }
}

proof fn lemma_backward_equivalent(a: Seq<Seq<bool>>, b: Seq<bool>, x: Seq<bool>, n: nat, count: int)
    requires
        shaped(a, b, n),
        x.len() == n,
        count <= n,
    ensures
        shaped(backward(a, b, count).0, backward(a, b, count).1, n),
        (mat_vec(a, x) == b) == (mat_vec(backward(a, b, count).0, x) == backward(a, b, count).1),
    decreases count,
{
    if count > 0 {
        lemma_backward_equivalent(a, b, x, n, count - 1);
        let s = backward(a, b, count - 1);
        let k = n - count;
        lemma_clear_above_equivalent(s.0, s.1, x, n, k, k);
    }
}

/// Elimination keeps the solutions: `x` solves `a x = b` exactly when it solves the
/// system that elimination leaves.
proof fn lemma_eliminate_equivalent(a: Seq<Seq<bool>>, b: Seq<bool>, x: Seq<bool>)
    requires
        shaped(a, b, a.len()),
        x.len() == a.len(),
    ensures
        shaped(eliminate(a, b).0, eliminate(a, b).1, a.len()),
        (mat_vec(a, x) == b) == (mat_vec(eliminate(a, b).0, x) == eliminate(a, b).1),
{
    let n = a.len();
    lemma_forward_equivalent(a, b, x, n, n as int);
    let f = forward(a, b, n as int);
    lemma_backward_equivalent(f.0, f.1, x, n, n as int);
}

/// What elimination leaves of the matrix does not depend on the right-hand side.
proof fn lemma_eliminate_matrix(a: Seq<Seq<bool>>, b1: Seq<bool>, b2: Seq<bool>)
    ensures
        eliminate(a, b1).0 == eliminate(a, b2).0,
{
    let n = a.len();
    lemma_forward_matrix(a, b1, b2, n as int);
    let f1 = forward(a, b1, n as int);
    let f2 = forward(a, b2, n as int);
    lemma_backward_matrix(f1.0, f1.1, f2.1, n as int);
}

proof fn lemma_clear_below_matrix(a: Seq<Seq<bool>>, b1: Seq<bool>, b2: Seq<bool>, k: int, upto: int)
    ensures
        clear_below(a, b1, k, upto).0 == clear_below(a, b2, k, upto).0,
    decreases upto - k,
{
    if upto > k + 1 {
        lemma_clear_below_matrix(a, b1, b2, k, upto - 1);
    }
}

proof fn lemma_clear_above_matrix(a: Seq<Seq<bool>>, b1: Seq<bool>, b2: Seq<bool>, k: int, upto: int)
    ensures
        clear_above(a, b1, k, upto).0 == clear_above(a, b2, k, upto).0,
    decreases upto,
{
    if upto > 0 {
        lemma_clear_above_matrix(a, b1, b2, k, upto - 1);
    }
}

proof fn lemma_forward_matrix(a: Seq<Seq<bool>>, b1: Seq<bool>, b2: Seq<bool>, count: int)
    ensures
        forward(a, b1, count).0 == forward(a, b2, count).0,
    decreases count,
{
    if count > 0 {
        lemma_forward_matrix(a, b1, b2, count - 1);
        let s1 = forward(a, b1, count - 1);
        let s2 = forward(a, b2, count - 1);
        let p1 = pivot_step(s1.0, s1.1, count - 1);
        let p2 = pivot_step(s2.0, s2.1, count - 1);
        lemma_clear_below_matrix(p1.0, p1.1, p2.1, count - 1, a.len() as int);
    }
}

proof fn lemma_backward_matrix(a: Seq<Seq<bool>>, b1: Seq<bool>, b2: Seq<bool>, count: int)
    ensures
        backward(a, b1, count).0 == backward(a, b2, count).0,
    decreases count,
{
    if count > 0 {
        lemma_backward_matrix(a, b1, b2, count - 1);
        let s1 = backward(a, b1, count - 1);
        let s2 = backward(a, b2, count - 1);
        let k = a.len() - count;
        lemma_clear_above_matrix(s1.0, s1.1, s2.1, k, k);
    }
}

/// Where elimination of `a` ends in the identity, the vector it returns for `b` is the
/// one `x` with `a x = b`.
pub proof fn lemma_solution_recovers(a: Seq<Seq<bool>>, b: Seq<bool>, x: Seq<bool>)
    requires
        forall|i: int| 0 <= i < a.len() ==> (#[trigger] a[i]).len() == a.len(),
        x.len() == a.len(),
        mat_vec(a, x) == b,
        reduces_to_identity(a),
    ensures
        solution(a, b) == x,
{
    let n = a.len();
    lemma_eliminate_equivalent(a, b, x);
    lemma_eliminate_matrix(a, b, Seq::new(n, |i: int| false));
    lemma_identity_mat_vec(n, x);
}

/// Where elimination of `a` ends in the identity, the vector it returns for `b` solves
/// `a x = b`.
pub proof fn lemma_solution_solves(a: Seq<Seq<bool>>, b: Seq<bool>)
    requires
        forall|i: int| 0 <= i < a.len() ==> (#[trigger] a[i]).len() == a.len(),
        b.len() == a.len(),
        reduces_to_identity(a),
    ensures
        solution(a, b).len() == b.len(),
        mat_vec(a, solution(a, b)) == b,
{
    let n = a.len();
    let x = solution(a, b);
    lemma_eliminate_equivalent(a, b, Seq::new(n, |i: int| false));
    lemma_eliminate_matrix(a, b, Seq::new(n, |i: int| false));
    lemma_identity_mat_vec(n, x);
    lemma_eliminate_equivalent(a, b, x);
}

/// Every entry of `a` below the diagonal in the columns `0 .. count` is 0.
pub open spec fn clear_left_of(a: Seq<Seq<bool>>, count: int) -> bool {
    forall|r: int, c: int| 0 <= c < count && c < r < a.len() ==> !(#[trigger] a[r][c])
}

proof fn lemma_pivot_row_found(a: Seq<Seq<bool>>, k: int, from: int)
    requires
        0 <= from,
    ensures
        pivot_row(a, k, from) < a.len() ==> from <= pivot_row(a, k, from) && a[pivot_row(a, k, from)][k],
        pivot_row(a, k, from) >= a.len() ==> forall|q: int| from <= q < a.len() ==> !(#[trigger] a[q][k]),
    decreases a.len() - from,
{
    if from < a.len() && !a[from][k] {
        lemma_pivot_row_found(a, k, from + 1);
    }
}

proof fn lemma_clear_below_lower(a: Seq<Seq<bool>>, b: Seq<bool>, k: int, upto: int)
    requires
        shaped(a, b, a.len()),
        0 <= k < a.len(),
        upto <= a.len(),
        clear_left_of(a, k),
        a[k][k] || forall|q: int| k < q < a.len() ==> !(#[trigger] a[q][k]),
    ensures
        shaped(clear_below(a, b, k, upto).0, clear_below(a, b, k, upto).1, a.len()),
        clear_below(a, b, k, upto).0[k] == a[k],
        clear_left_of(clear_below(a, b, k, upto).0, k),
        forall|q: int| k < q < upto ==> !(#[trigger] clear_below(a, b, k, upto).0[q][k]),
        forall|q: int| upto <= q < a.len() ==> #[trigger] clear_below(a, b, k, upto).0[q] == a[q],
    decreases upto - k,
{
    if upto > k + 1 {
        lemma_clear_below_lower(a, b, k, upto - 1);
        let s = clear_below(a, b, k, upto - 1);
        if s.0[upto - 1][k] {
            let c = combine(s.0, s.1, upto - 1, k);
            assert(c.0[upto - 1][k] == (s.0[upto - 1][k] != s.0[k][k]));
        }
    }
}

proof fn lemma_clear_above_lower(a: Seq<Seq<bool>>, b: Seq<bool>, k: int, upto: int)
    requires
        shaped(a, b, a.len()),
        0 <= k < a.len(),
        upto <= k,
        clear_left_of(a, a.len() as int),
    ensures
        shaped(clear_above(a, b, k, upto).0, clear_above(a, b, k, upto).1, a.len()),
        clear_left_of(clear_above(a, b, k, upto).0, a.len() as int),
    decreases upto,
{
    if upto > 0 {
        lemma_clear_above_lower(a, b, k, upto - 1);
        let s = clear_above(a, b, k, upto - 1);
        if s.0[upto - 1][k] {
            let c = combine(s.0, s.1, upto - 1, k);
            assert forall|r: int, col: int| 0 <= col < a.len() && col < r < a.len() implies !(
            #[trigger] c.0[r][col]) by {
                if r == upto - 1 {
                    assert(!s.0[k][col]);
                }
            }
        }
    }
}

proof fn lemma_forward_lower(a: Seq<Seq<bool>>, b: Seq<bool>, count: int)
    requires
        shaped(a, b, a.len()),
        count <= a.len(),
    ensures
        shaped(forward(a, b, count).0, forward(a, b, count).1, a.len()),
        clear_left_of(forward(a, b, count).0, count),
    decreases count,
{
    let n = a.len();
    if count > 0 {
        lemma_forward_lower(a, b, count - 1);
        let s = forward(a, b, count - 1);
        let k = count - 1;
        lemma_pivot_row_found(s.0, k, k + 1);
        let p = pivot_step(s.0, s.1, k);
        if !s.0[k][k] {
            let r = pivot_row(s.0, k, k + 1);
            if r < n {
                assert(clear_left_of(p.0, k)) by {
                    assert forall|q: int, c: int| 0 <= c < k && c < q < n implies !(#[trigger] p.0[q][c]) by {
                        if q == k {
                            assert(!s.0[r][c]);
                        } else if q == r {
                            assert(!s.0[k][c]);
                        } else {
                            assert(!s.0[q][c]);
                        }
                    }
                }
            }
        }
        lemma_clear_below_lower(p.0, p.1, k, n as int);
        let f = clear_below(p.0, p.1, k, n as int);
        assert forall|q: int, c: int| 0 <= c < count && c < q < n implies !(#[trigger] f.0[q][c]) by {
            if c < k {
            } else {
                assert(c == k);
            }
        }
    }
}

proof fn lemma_backward_lower(a: Seq<Seq<bool>>, b: Seq<bool>, count: int)
    requires
        shaped(a, b, a.len()),
        count <= a.len(),
        clear_left_of(a, a.len() as int),
    ensures
        shaped(backward(a, b, count).0, backward(a, b, count).1, a.len()),
        clear_left_of(backward(a, b, count).0, a.len() as int),
    decreases count,
{
    if count > 0 {
        lemma_backward_lower(a, b, count - 1);
        let s = backward(a, b, count - 1);
        let k = a.len() - count;
        lemma_clear_above_lower(s.0, s.1, k, k);
    }
}

/// After elimination every entry below the diagonal is 0: each row is 0 left of its
/// diagonal entry.
pub proof fn lemma_eliminate_clears_below_diagonal(a: Seq<Seq<bool>>, b: Seq<bool>)
    requires
        shaped(a, b, a.len()),
    ensures
        forall|r: int, c: int| 0 <= c < r < a.len() ==> !(#[trigger] eliminate(a, b).0[r][c]),
{
    let n = a.len();
    lemma_forward_lower(a, b, n as int);
    let f = forward(a, b, n as int);
    lemma_backward_lower(f.0, f.1, n as int);
    let e = eliminate(a, b);
    assert(clear_left_of(e.0, n as int));
    assert forall|r: int, c: int| 0 <= c < r < n implies !(#[trigger] e.0[r][c]) by {
        assert(!e.0[r][c]);
    }
}

/// Solving is deterministic: the same matrix and right-hand side give the same vector.
pub proof fn lemma_solve_deterministic(a1: SimpleBoolMatrix, b1: Seq<bool>, a2: SimpleBoolMatrix, b2: Seq<bool>)
    requires
        a1@ == a2@,
        b1 == b2,
    ensures
        solution(a1@, b1) == solution(a2@, b2),
{
}

proof fn lemma_pivot_row(a: Seq<Seq<bool>>, k: int, from: int, r: int)
    requires
        0 <= from <= r <= a.len(),
        forall|q: int| from <= q < r ==> !(#[trigger] a[q][k]),
        r < a.len() ==> a[r][k],
    ensures
        pivot_row(a, k, from) == r,
    decreases r - from,
{
    if from < r {
        lemma_pivot_row(a, k, from + 1, r);
    }
}

/// The selection of every row of an `n`-row matrix, in order.
pub open spec fn all_rows(rows: &MatrixRows, n: nat) -> bool {
    &&& rows.wf()
    &&& rows.selection().len() == n
    &&& forall|i: int| 0 <= i < n ==> #[trigger] rows.selection()[i] == i
    &&& rows.backing().num_rows() == n
    &&& rows.backing().num_cols() == n
}

fn find_pivot(rows: &MatrixRows, k: usize, n: usize) -> (r: usize)
    requires
        all_rows(rows, n as nat),
        k < n,
    ensures
        r == pivot_row(rows.backing()@, k as int, k + 1),
{
    let mut r: usize = k + 1;
    while r < n
        invariant
            all_rows(rows, n as nat),
            k < r <= n,
            forall|q: int| k + 1 <= q < r ==> !(#[trigger] rows.backing()@[q][k as int]),
        decreases n - r,
    {
        if rows.get(r, k) {
            proof {
                lemma_pivot_row(rows.backing()@, k as int, k + 1, r as int);
            }
            return r;
        }
        r = r + 1;
    }
    proof {
        lemma_pivot_row(rows.backing()@, k as int, k + 1, n as int);
    }
    n
}

/// Solves `A x = b` over GF(2) by Gauss-Jordan elimination on `A`'s rows and the
/// matching entries of `b`, and returns what `b` holds at the end. Where `A` is
/// singular the result is whatever the elimination leaves there.
pub fn solve_switch_system(a: SimpleBoolMatrix, b: Vec<bool>) -> (x: Vec<bool>)
    requires
        a.wf(),
        a.num_rows() == a.num_cols(),
        b@.len() == a.num_rows(),
    ensures
        x@ == solution(a@, b@),
        x@.len() == b@.len(),
{
    let n = a.nrows();
    let mut row_indices: Vec<usize> = Vec::new();
    let mut i: usize = 0;
    while i < n
        invariant
            i <= n,
            row_indices@.len() == i,
            forall|j: int| 0 <= j < i ==> #[trigger] row_indices@[j] == j,
        decreases n - i,
    {
        row_indices.push(i);
        i = i + 1;
    }
    let ghost a0 = a@;
    let ghost b0 = b@;
    let mut rows = a.get_mut_rows(row_indices.as_slice());
    let mut b = b;
    // Clear below the diagonal, column by column.
    let mut k: usize = 0;
    while k < n
        invariant
            all_rows(&rows, n as nat),
            k <= n,
            a0.len() == n,
            b@.len() == n,
            (rows.backing()@, b@) == forward(a0, b0, k as int),
        decreases n - k,
    {
        if !rows.get(k, k) {
            let r = find_pivot(&rows, k, n);
            if r < n {
                rows.swap(k, r);
                let bk = b[k];
                let br = b[r];
                b.set(k, br);
                b.set(r, bk);
            }
        }
        let ghost p = (rows.backing()@, b@);
        let mut r: usize = k + 1;
        while r < n
            invariant
                all_rows(&rows, n as nat),
                k < n,
                k + 1 <= r <= n,
                b@.len() == n,
                (rows.backing()@, b@) == clear_below(p.0, p.1, k as int, r as int),
            decreases n - r,
        {
            if rows.get(r, k) {
                rows.add_row_into(r, k);
                let v = Switch(b[r]).sub(Switch(b[k])).0;
                b.set(r, v);
            }
            r = r + 1;
        }
        k = k + 1;
    }
    // Clear above the diagonal, from the last column back to the first.
    let ghost f = (rows.backing()@, b@);
    let mut done: usize = 0;
    while done < n
        invariant
            all_rows(&rows, n as nat),
            done <= n,
            b@.len() == n,
            f.0.len() == n,
            f == forward(a0, b0, n as int),
            (rows.backing()@, b@) == backward(f.0, f.1, done as int),
        decreases n - done,
    {
        let k = n - 1 - done;
        let ghost s = (rows.backing()@, b@);
        let mut r: usize = 0;
        while r < k
            invariant
                all_rows(&rows, n as nat),
                k < n,
                r <= k,
                b@.len() == n,
                (rows.backing()@, b@) == clear_above(s.0, s.1, k as int, r as int),
            decreases k - r,
        {
            if rows.get(r, k) {
                rows.add_row_into(r, k);
                let v = Switch(b[r]).sub(Switch(b[k])).0;
                b.set(r, v);
            }
            r = r + 1;
        }
        done = done + 1;
    }
    b
}

} // verus!
