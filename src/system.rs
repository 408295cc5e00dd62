use vstd::prelude::*;

use crate::matrix::{SimpleBoolMatrix, column, dot};
use crate::solver::{lemma_solution_recovers, mat_vec, reduces_to_identity, solution};

verus! {

broadcast use {SimpleBoolMatrix::lemma_shape, SimpleBoolMatrix::lemma_row_len};

/// On a `size`×`size` grid numbered row by row, pressing tile `t` toggles tile `u`:
/// `u` is `t` itself, the tile below or above it, or the tile left or right of it in
/// the same row.
pub open spec fn toggles(size: int, t: int, u: int) -> bool {
    let n = size * size;
    &&& 0 <= t < n
    &&& 0 <= u < n
    &&& {
        ||| u == t
        ||| (u == t + size && t < n - size)
        ||| (u == t - size && t >= size)
        ||| (u == t - 1 && t % size > 0)
        ||| (u == t + 1 && t % size < size - 1)
    }
}

/// The toggle matrix of a `size`×`size` grid: entry `(t, u)` says whether pressing `t`
/// toggles `u`.
pub open spec fn system_matrix(size: nat) -> Seq<Seq<bool>> {
    Seq::new(
        size * size,
        |t: int| Seq::new(size * size, |u: int| toggles(size as int, t, u)),
    )
}

/// The lit pattern that the pressed tiles `activations` give on a `size`×`size` grid:
/// tile `t` is lit when an odd number of pressed tiles toggle it.
pub open spec fn lights(size: nat, activations: Seq<bool>) -> Seq<bool> {
    Seq::new(size * size, |t: int| dot(system_matrix(size)[t], activations))
}

/// Pressing is a symmetric relation: `t` toggles `u` exactly when `u` toggles `t`.
pub proof fn lemma_toggles_symmetric(size: nat, t: int, u: int)
    ensures
        toggles(size as int, t, u) == toggles(size as int, u, t),
{
    let size = size as int;
    if size == 0 {
        assert(size * size == 0);
    }
    if toggles(size, t, u) && size > 0 {
        if u == t - 1 && t % size > 0 {
            vstd::arithmetic::div_mod::lemma_fundamental_div_mod(t, size);
            vstd::arithmetic::mul::lemma_mul_is_commutative(size, t / size);
            vstd::arithmetic::div_mod::lemma_fundamental_div_mod_converse(u, size, t / size, t % size - 1);
        }
        if u == t + 1 && t % size < size - 1 {
            vstd::arithmetic::div_mod::lemma_fundamental_div_mod(t, size);
            vstd::arithmetic::mul::lemma_mul_is_commutative(size, t / size);
            vstd::arithmetic::div_mod::lemma_fundamental_div_mod_converse(u, size, t / size, t % size + 1);
        }
    }
    if toggles(size, u, t) && size > 0 {
        if t == u - 1 && u % size > 0 {
            vstd::arithmetic::div_mod::lemma_fundamental_div_mod(u, size);
            vstd::arithmetic::mul::lemma_mul_is_commutative(size, u / size);
            vstd::arithmetic::div_mod::lemma_fundamental_div_mod_converse(t, size, u / size, u % size - 1);
        }
        if t == u + 1 && u % size < size - 1 {
            vstd::arithmetic::div_mod::lemma_fundamental_div_mod(u, size);
            vstd::arithmetic::mul::lemma_mul_is_commutative(size, u / size);
            vstd::arithmetic::div_mod::lemma_fundamental_div_mod_converse(t, size, u / size, u % size + 1);
        }
    }
}

/// The toggle matrix is symmetric.
pub proof fn lemma_system_matrix_symmetric(size: nat)
    ensures
        forall|i: int, j: int|
            0 <= i < size * size && 0 <= j < size * size ==> #[trigger] system_matrix(size)[i][j]
                == system_matrix(size)[j][i],
{
    assert forall|i: int, j: int|
        0 <= i < size * size && 0 <= j < size * size implies #[trigger] system_matrix(size)[i][j]
            == system_matrix(size)[j][i] by {
        lemma_toggles_symmetric(size, i, j);
    }
}

/// A tile that is not in the rightmost column is not the last tile.
proof fn lemma_right_neighbour_in_grid(size: int, t: int)
    requires
        size > 0,
        0 <= t < size * size,
        t % size < size - 1,
    ensures
        t + 1 < size * size,
{
    if t + 1 == size * size {
        assert(t == (size - 1) * size + (size - 1)) by (nonlinear_arith)
            requires
                t + 1 == size * size,
        ;
        vstd::arithmetic::div_mod::lemma_fundamental_div_mod_converse(t, size, size - 1, size - 1);
    }
}

/// Builds the toggle matrix of a `size`×`size` grid.
pub fn build_light_system_matrix(size: usize) -> (m: SimpleBoolMatrix)
    requires
        size * size * (size * size) <= usize::MAX,
    ensures
        m.wf(),
        m.num_rows() == size * size,
        m.num_cols() == size * size,
        m@ == system_matrix(size as nat),
        forall|i: int, j: int|
            0 <= i < size * size && 0 <= j < size * size ==> #[trigger] m@[i][j] == m@[j][i],
{
    assert(size * size <= size * size * (size * size)) by (nonlinear_arith)
        requires
            size * size * (size * size) <= usize::MAX,
    ;
    let num_tiles = size * size;
    let mut m = SimpleBoolMatrix::zeros(num_tiles, num_tiles);
    let mut tile: usize = 0;
    while tile < num_tiles
        invariant
            m.wf(),
            num_tiles == size * size,
            m.num_rows() == num_tiles,
            m.num_cols() == num_tiles,
            tile <= num_tiles,
            forall|t: int, u: int|
                0 <= t < num_tiles && 0 <= u < num_tiles ==> #[trigger] m@[t][u] == if t < tile {
                    toggles(size as int, t, u)
                } else {
                    false
                },
        decreases num_tiles - tile,
    {
        assert(size > 0) by (nonlinear_arith)
            requires
                tile < size * size,
        ;
        assert(size <= num_tiles) by (nonlinear_arith)
            requires
                size > 0,
                num_tiles == size * size,
        ;
        let ghost before = m@;
        m.set(tile, tile, true);
        if tile < num_tiles - size {
            m.set(tile, tile + size, true);
        }
        if tile >= size {
            m.set(tile, tile - size, true);
        }
        if tile % size > 0 {
            proof {
                if tile == 0 {
                    vstd::arithmetic::div_mod::lemma_small_mod(0, size as nat);
                }
            }
            m.set(tile, tile - 1, true);
        }
        if tile % size < size - 1 {
            proof {
                lemma_right_neighbour_in_grid(size as int, tile as int);
            }
            m.set(tile, tile + 1, true);
        }
        assert forall|t: int, u: int|
            0 <= t < num_tiles && 0 <= u < num_tiles implies #[trigger] m@[t][u] == if t < tile + 1 {
                toggles(size as int, t, u)
            } else {
                false
            } by {
            if t != tile {
                assert(m@[t] == before[t]);
            }
        }
        tile = tile + 1;
    }
    assert(m@ =~~= system_matrix(size as nat));
    proof {
        lemma_system_matrix_symmetric(size as nat);
    }
    m
}

/// The lit pattern that the pressed tiles `activations` give on a `size`×`size` grid.
pub fn light_buttons(size: usize, activations: &[bool]) -> (r: Vec<bool>)
    requires
        size * size * (size * size) <= usize::MAX,
        activations@.len() == size * size,
    ensures
        r@ == lights(size as nat, activations@),
{
    let system = build_light_system_matrix(size);
    let n = activations.len();
    let mut act: Vec<bool> = Vec::new();
    let mut i: usize = 0;
    while i < n
        invariant
            n == activations@.len(),
            i <= n,
            act@ == activations@.subrange(0, i as int),
        decreases n - i,
    {
        act.push(activations[i]);
        i = i + 1;
    }
    let v = SimpleBoolMatrix::new(act, n, 1);
    let ghost vm = v@;
    assert(column(vm, 0) =~= activations@);
    let product_matrix = system.mul(&v);
    let ghost pm = product_matrix@;
    let r = product_matrix.into_data();
    assert forall|t: int| 0 <= t < n implies #[trigger] r@[t] == lights(size as nat, activations@)[t] by {
        assert(pm[t][0] == r@[t * 1 + 0]);
    }
    assert(r@ =~= lights(size as nat, activations@));
    r
}

/// Solving for the lit pattern that the pressed tiles `v` give recovers `v`, for every
/// grid size on which elimination of the toggle matrix finds a pivot in every column.
pub proof fn lemma_round_trip(size: nat, v: Seq<bool>)
    requires
        v.len() == size * size,
        reduces_to_identity(system_matrix(size)),
    ensures
        solution(system_matrix(size), lights(size, v)) == v,
{
    let a = system_matrix(size);
    assert(mat_vec(a, v) =~= lights(size, v));
    lemma_solution_recovers(a, lights(size, v), v);
}

} // verus!
