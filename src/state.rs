use vstd::prelude::*;

use crate::matrix::dot;
use crate::solver::{lemma_solution_solves, mat_vec, reduces_to_identity, solution, solve_switch_system};
use crate::system::{build_light_system_matrix, light_buttons, lights, system_matrix};

verus! {

/// `n` tiles, all off.
pub open spec fn all_off(n: int) -> Seq<bool> {
    Seq::new(n as nat, |i: int| false)
}

/// Each tile flipped.
pub open spec fn complement(s: Seq<bool>) -> Seq<bool> {
    Seq::new(s.len(), |i: int| !s[i])
}

/// The puzzle as a player sees it: the side of the grid, the tiles pressed so far, the
/// lit pattern they give, and the tiles that the last hint asked to press.
pub struct LightsOutState {
    pub size: usize,
    pub activations: Vec<bool>,
    pub lights: Vec<bool>,
    pub switch_to_solve: Vec<bool>,
}

impl LightsOutState {
    /// Each of the three patterns has one entry per tile.
    pub open spec fn wf(&self) -> bool {
        &&& self.size * self.size <= usize::MAX
        &&& self.activations@.len() == self.size * self.size
        &&& self.lights@.len() == self.size * self.size
        &&& self.switch_to_solve@.len() == self.size * self.size
    }

    /// A puzzle of side `size` with every tile off and no hint.
    pub fn new(size: usize) -> (s: Self)
        requires
            size * size <= usize::MAX,
        ensures
            s.wf(),
            s.size == size,
            s.activations@ == all_off(size * size),
            s.lights@ == all_off(size * size),
            s.switch_to_solve@ == all_off(size * size),
    {
        let n = size * size;
        let s = LightsOutState {
            size,
            activations: vec![false; n],
            lights: vec![false; n],
            switch_to_solve: vec![false; n],
        };
        assert(s.activations@ =~= all_off(n as int));
        assert(s.lights@ =~= all_off(n as int));
        assert(s.switch_to_solve@ =~= all_off(n as int));
        s
    }

    /// Changes the side of the grid and switches every tile off.
    pub fn resize(&mut self, size: usize)
        requires
            size * size <= usize::MAX,
        ensures
            final(self).wf(),
            final(self).size == size,
            final(self).activations@ == all_off(size * size),
            final(self).lights@ == all_off(size * size),
            final(self).switch_to_solve@ == all_off(size * size),
    {
        self.size = size;
        self.deactivate_all();
    }

    /// Switches every tile off and clears the hint.
    pub fn deactivate_all(&mut self)
        requires
            old(self).size * old(self).size <= usize::MAX,
        ensures
            final(self).wf(),
            final(self).size == old(self).size,
            final(self).activations@ == all_off(old(self).size * old(self).size),
            final(self).lights@ == all_off(old(self).size * old(self).size),
            final(self).switch_to_solve@ == all_off(old(self).size * old(self).size),
    {
        let n = self.size * self.size;
        self.activations = vec![false; n];
        self.lights = vec![false; n];
        self.switch_to_solve = vec![false; n];
        assert(self.activations@ =~= all_off(n as int));
        assert(self.lights@ =~= all_off(n as int));
        assert(self.switch_to_solve@ =~= all_off(n as int));
    }

    /// Presses (or unpresses) tile `(x, y)`: recomputes the lit pattern and clears the
    /// hint for that tile.
    pub fn toggle_tile(&mut self, x: usize, y: usize)
        requires
            old(self).wf(),
            old(self).size * old(self).size * (old(self).size * old(self).size) <= usize::MAX,
            x < old(self).size,
            y < old(self).size,
        ensures
            final(self).wf(),
            final(self).size == old(self).size,
            final(self).activations@ == old(self).activations@.update(
                old(self).size * y + x,
                !old(self).activations@[old(self).size * y + x],
            ),
            final(self).lights@ == lights(final(self).size as nat, final(self).activations@),
            final(self).switch_to_solve@ == old(self).switch_to_solve@.update(old(self).size * y + x, false),
    {
        assert(self.size * y + x < self.size * self.size) by (nonlinear_arith)
            requires
                x < self.size,
                y < self.size,
        ;
        let idx = self.size * y + x;
        let v = !self.activations[idx];
        self.activations.set(idx, v);
        self.lights = light_buttons(self.size, self.activations.as_slice());
        self.switch_to_solve.set(idx, false);
    }

    /// Computes a hint: tiles whose pressing would light every tile, as the
    /// elimination on the toggle matrix finds them for the unlit pattern.
    pub fn solve(&mut self)
        requires
            old(self).wf(),
            old(self).size * old(self).size * (old(self).size * old(self).size) <= usize::MAX,
        ensures
            final(self).wf(),
            final(self).size == old(self).size,
            final(self).activations == old(self).activations,
            final(self).lights == old(self).lights,
            final(self).switch_to_solve@ == solution(
                system_matrix(old(self).size as nat),
                complement(lights(old(self).size as nat, old(self).activations@)),
            ),
    {
        let lit = light_buttons(self.size, self.activations.as_slice());
        let mut missing: Vec<bool> = Vec::new();
        let mut i: usize = 0;
        while i < lit.len()
            invariant
                i <= lit@.len(),
                missing@ == complement(lit@).subrange(0, i as int),
            decreases lit@.len() - i,
        {
            missing.push(!lit[i]);
            i = i + 1;
        }
        assert(missing@ =~= complement(lit@));
        let system = build_light_system_matrix(self.size);
        self.switch_to_solve = solve_switch_system(system, missing);
    }
}

proof fn lemma_dot_xor_right(r: Seq<bool>, x: Seq<bool>, y: Seq<bool>)
    requires
        r.len() == x.len(),
        x.len() == y.len(),
    ensures
        dot(r, Seq::new(x.len(), |i: int| x[i] != y[i])) == (dot(r, x) != dot(r, y)),
    decreases r.len(),
{
    let s = Seq::new(x.len(), |i: int| x[i] != y[i]);
    if r.len() > 0 {
        let xd = x.drop_last();
        let yd = y.drop_last();
        lemma_dot_xor_right(r.drop_last(), xd, yd);
        assert(s.drop_last() =~= Seq::new(xd.len(), |i: int| xd[i] != yd[i]));
    }
}

/// On a grid whose toggle matrix elimination fully pivots, pressing the tiles of the
/// hint on top of those already pressed lights every tile.
pub proof fn lemma_hint_lights_every_tile(size: nat, activations: Seq<bool>)
    requires
        activations.len() == size * size,
        reduces_to_identity(system_matrix(size)),
    ensures
        ({
            let hint = solution(system_matrix(size), complement(lights(size, activations)));
            lights(size, Seq::new(size * size, |i: int| activations[i] != hint[i])) == Seq::new(
                size * size,
                |i: int| true,
            )
        }),
{
    let n = size * size;
    let a = system_matrix(size);
    let target = complement(lights(size, activations));
    let hint = solution(a, target);
    lemma_solution_solves(a, target);
    let pressed = Seq::new(n, |i: int| activations[i] != hint[i]);
    assert forall|t: int| 0 <= t < n implies #[trigger] lights(size, pressed)[t] by {
        lemma_dot_xor_right(a[t], activations, hint);
        assert(mat_vec(a, hint)[t] == target[t]);
    }
    assert(lights(size, pressed) =~= Seq::new(n, |i: int| true));
}

} // verus!
