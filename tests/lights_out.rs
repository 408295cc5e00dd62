use lights_out::gf2::Switch;
use lights_out::matrix::SimpleBoolMatrix;
use lights_out::solver::solve_switch_system;
use lights_out::state::LightsOutState;
use lights_out::system::{build_light_system_matrix, light_buttons};

fn bits(v: &[u8]) -> Vec<bool> {
    v.iter().map(|&b| b != 0).collect()
}

fn matrix_entries(m: &SimpleBoolMatrix) -> Vec<Vec<bool>> {
    let mut rows = Vec::new();
    for i in 0..m.nrows() {
        let mut row = Vec::new();
        for j in 0..m.ncols() {
            row.push(m.get(i, j));
        }
        rows.push(row);
    }
    rows
}

fn all_vectors(n: usize) -> Vec<Vec<bool>> {
    (0..(1usize << n))
        .map(|mask| (0..n).map(|i| mask & (1 << i) != 0).collect())
        .collect()
}

#[test]
fn switch_arithmetic_tables() {
    for &a in &[false, true] {
        for &b in &[false, true] {
            assert_eq!(Switch(a).add(Switch(b)), Switch(a ^ b));
            assert_eq!(Switch(a).sub(Switch(b)), Switch(a ^ b));
            assert_eq!(Switch(a).mul(Switch(b)), Switch(a && b));
        }
    }
    assert!(bool::from(Switch(true)));
    assert!(!bool::from(Switch(false)));
}

#[test]
fn matrix_new_is_row_major() {
    let m = SimpleBoolMatrix::new(bits(&[1, 0, 0, 0, 1, 1]), 2, 3);
    assert_eq!(m.nrows(), 2);
    assert_eq!(m.ncols(), 3);
    assert_eq!(matrix_entries(&m), vec![bits(&[1, 0, 0]), bits(&[0, 1, 1])]);
}

#[test]
fn matrix_zeros() {
    let m = SimpleBoolMatrix::zeros(2, 2);
    assert_eq!(m.into_data(), bits(&[0, 0, 0, 0]));
}

#[test]
fn add_is_elementwise_xor() {
    let a = SimpleBoolMatrix::new(bits(&[1, 1, 0, 0]), 2, 2);
    let b = SimpleBoolMatrix::new(bits(&[1, 0, 1, 0]), 2, 2);
    let sum = a.add(&b);
    assert_eq!(sum.into_data(), bits(&[0, 1, 1, 0]));
    assert_eq!(b.into_data(), bits(&[1, 0, 1, 0]));
}

#[test]
fn add_to_itself_gives_zero() {
    let m = SimpleBoolMatrix::new(bits(&[1, 0, 1, 1, 0, 1]), 2, 3);
    let copy = SimpleBoolMatrix::new(bits(&[1, 0, 1, 1, 0, 1]), 2, 3);
    let sum = m.add(&copy);
    assert_eq!(sum.nrows(), 2);
    assert_eq!(sum.ncols(), 3);
    assert_eq!(sum.into_data(), vec![false; 6]);
}

#[test]
fn mul_reduces_sums_mod_two() {
    // [[1,1],[0,1]] * [[1,0],[1,1]] = [[0,1],[1,1]] over GF(2)
    let a = SimpleBoolMatrix::new(bits(&[1, 1, 0, 1]), 2, 2);
    let b = SimpleBoolMatrix::new(bits(&[1, 0, 1, 1]), 2, 2);
    let p = a.mul(&b);
    assert_eq!(p.nrows(), 2);
    assert_eq!(p.ncols(), 2);
    assert_eq!(p.into_data(), bits(&[0, 1, 1, 1]));
}

#[test]
fn mul_rectangular_shape() {
    // (1x3) * (3x2)
    let a = SimpleBoolMatrix::new(bits(&[1, 1, 1]), 1, 3);
    let b = SimpleBoolMatrix::new(bits(&[1, 0, 1, 1, 1, 0]), 3, 2);
    let p = a.mul(&b);
    assert_eq!(p.nrows(), 1);
    assert_eq!(p.ncols(), 2);
    assert_eq!(p.into_data(), bits(&[1, 1]));
}

#[test]
fn get_mut_rows_keeps_requested_order_without_aliasing() {
    let m = SimpleBoolMatrix::new(bits(&[0, 0, 1, 0, 0, 1]), 3, 2);
    let mut rows = m.get_mut_rows(&[2, 0, 1]);
    assert_eq!(rows.len(), 3);
    assert_eq!(rows.row_len(), 2);
    // views come back as [row2, row0, row1]
    assert_eq!((rows.get(0, 0), rows.get(0, 1)), (false, true));
    assert_eq!((rows.get(1, 0), rows.get(1, 1)), (false, false));
    assert_eq!((rows.get(2, 0), rows.get(2, 1)), (true, false));
    // a distinct marker in each view leaves the others as they were
    rows.set(0, 0, true);
    assert_eq!((rows.get(1, 0), rows.get(1, 1)), (false, false));
    assert_eq!((rows.get(2, 0), rows.get(2, 1)), (true, false));
    rows.set(1, 1, true);
    assert_eq!((rows.get(0, 0), rows.get(0, 1)), (true, true));
    assert_eq!((rows.get(2, 0), rows.get(2, 1)), (true, false));
    rows.set(2, 1, true);
    assert_eq!((rows.get(0, 0), rows.get(0, 1)), (true, true));
    assert_eq!((rows.get(1, 0), rows.get(1, 1)), (false, true));
    let back = rows.into_matrix();
    assert_eq!(back.into_data(), bits(&[0, 1, 1, 1, 1, 1]));
}

#[test]
fn row_views_swap_and_combine() {
    let m = SimpleBoolMatrix::new(bits(&[1, 0, 1, 0, 1, 1, 1, 1, 0]), 3, 3);
    let mut rows = m.get_mut_rows(&[0, 1, 2]);
    rows.swap(0, 2);
    rows.add_row_into(1, 0);
    let back = rows.into_matrix();
    // row0 <-> row2, then row1 ^= row0
    assert_eq!(back.into_data(), bits(&[1, 1, 0, 1, 0, 1, 1, 0, 1]));
}

#[test]
fn system_matrix_of_size_one_is_identity() {
    let m = build_light_system_matrix(1);
    assert_eq!(matrix_entries(&m), vec![vec![true]]);
}

#[test]
fn system_matrix_of_size_two() {
    let m = build_light_system_matrix(2);
    assert_eq!(
        matrix_entries(&m),
        vec![bits(&[1, 1, 1, 0]), bits(&[1, 1, 0, 1]), bits(&[1, 0, 1, 1]), bits(&[0, 1, 1, 1])]
    );
}

#[test]
fn system_matrix_of_size_zero_is_empty() {
    let m = build_light_system_matrix(0);
    assert_eq!(m.nrows(), 0);
    assert_eq!(m.ncols(), 0);
}

#[test]
fn system_matrix_is_symmetric() {
    for size in 1..6 {
        let m = build_light_system_matrix(size);
        let n = size * size;
        assert_eq!(m.nrows(), n);
        assert_eq!(m.ncols(), n);
        for i in 0..n {
            for j in 0..n {
                assert_eq!(m.get(i, j), m.get(j, i));
            }
        }
    }
}

#[test]
fn system_matrix_rows_count_neighbours() {
    // size 3: corner tiles toggle 3, edge tiles 4, the centre 5
    let m = build_light_system_matrix(3);
    let counts: Vec<usize> = matrix_entries(&m).iter().map(|r| r.iter().filter(|&&b| b).count()).collect();
    assert_eq!(counts, vec![3, 4, 3, 4, 5, 4, 3, 4, 3]);
}

#[test]
fn pressing_top_left_of_two_by_two() {
    assert_eq!(light_buttons(2, &bits(&[1, 0, 0, 0])), bits(&[1, 1, 1, 0]));
}

#[test]
fn pressing_centre_of_three_by_three() {
    let lights = light_buttons(3, &bits(&[0, 0, 0, 0, 1, 0, 0, 0, 0]));
    assert_eq!(lights.iter().filter(|&&b| b).count(), 5);
    assert_eq!(lights, bits(&[0, 1, 0, 1, 1, 1, 0, 1, 0]));
}

#[test]
fn pressing_twice_cancels() {
    let lights = light_buttons(3, &bits(&[1, 0, 0, 0, 0, 0, 0, 0, 0]));
    assert_eq!(lights, bits(&[1, 1, 0, 1, 0, 0, 0, 0, 0]));
    let lights = light_buttons(3, &bits(&[1, 1, 0, 0, 0, 0, 0, 0, 0]));
    // tiles 0 and 1 are each toggled twice
    assert_eq!(lights, bits(&[0, 0, 1, 1, 1, 0, 0, 0, 0]));
}

#[test]
fn solve_small_invertible_system() {
    // [[1,1],[0,1]] x = [1,1] has x = [0,1]
    let a = SimpleBoolMatrix::new(bits(&[1, 1, 0, 1]), 2, 2);
    assert_eq!(solve_switch_system(a, bits(&[1, 1])), bits(&[0, 1]));
}

#[test]
fn solve_needs_a_row_swap() {
    // [[0,1],[1,0]] x = [1,0] has x = [0,1]
    let a = SimpleBoolMatrix::new(bits(&[0, 1, 1, 0]), 2, 2);
    assert_eq!(solve_switch_system(a, bits(&[1, 0])), bits(&[0, 1]));
}

#[test]
fn solve_singular_system_returns_what_elimination_leaves() {
    // [[1,1],[1,1]]: no pivot in column 1. Forward: row1 ^= row0, b = [1,1].
    // Backward: row0 ^= row1 (now zero), b = [0,1]; this b is not a solution.
    let a = SimpleBoolMatrix::new(bits(&[1, 1, 1, 1]), 2, 2);
    assert_eq!(solve_switch_system(a, bits(&[1, 0])), bits(&[0, 1]));
}

#[test]
fn solve_empty_system() {
    let a = SimpleBoolMatrix::new(Vec::new(), 0, 0);
    assert_eq!(solve_switch_system(a, Vec::new()), Vec::<bool>::new());
}

#[test]
fn round_trip_on_invertible_sizes() {
    for size in 1..4 {
        let n = size * size;
        for v in all_vectors(n) {
            let lights = light_buttons(size, &v);
            let solved = solve_switch_system(build_light_system_matrix(size), lights);
            assert_eq!(solved, v);
        }
    }
}

#[test]
fn round_trip_on_six_by_six() {
    let size = 6;
    let v: Vec<bool> = (0..36).map(|i| (i * 7) % 5 < 2).collect();
    let lights = light_buttons(size, &v);
    assert_eq!(solve_switch_system(build_light_system_matrix(size), lights), v);
}

#[test]
fn solving_twice_gives_the_same_vector() {
    for size in 1..6 {
        let n = size * size;
        let b: Vec<bool> = (0..n).map(|i| i % 3 == 1).collect();
        let first = solve_switch_system(build_light_system_matrix(size), b.clone());
        let second = solve_switch_system(build_light_system_matrix(size), b.clone());
        assert_eq!(first.len(), n);
        assert_eq!(first, second);
    }
}

#[test]
fn state_starts_all_off() {
    let s = LightsOutState::new(3);
    assert_eq!(s.size, 3);
    assert_eq!(s.activations, vec![false; 9]);
    assert_eq!(s.lights, vec![false; 9]);
    assert_eq!(s.switch_to_solve, vec![false; 9]);
}

#[test]
fn state_toggle_and_reset() {
    let mut s = LightsOutState::new(3);
    s.toggle_tile(1, 1);
    assert_eq!(s.activations, bits(&[0, 0, 0, 0, 1, 0, 0, 0, 0]));
    assert_eq!(s.lights, bits(&[0, 1, 0, 1, 1, 1, 0, 1, 0]));
    s.toggle_tile(2, 0);
    assert_eq!(s.activations, bits(&[0, 0, 1, 0, 1, 0, 0, 0, 0]));
    assert_eq!(s.lights, bits(&[0, 0, 1, 1, 1, 0, 0, 1, 0]));
    s.toggle_tile(2, 0);
    assert_eq!(s.lights, bits(&[0, 1, 0, 1, 1, 1, 0, 1, 0]));
    s.deactivate_all();
    assert_eq!(s.activations, vec![false; 9]);
    assert_eq!(s.lights, vec![false; 9]);
}

#[test]
fn state_resize_clears_everything() {
    let mut s = LightsOutState::new(2);
    s.toggle_tile(0, 1);
    s.resize(4);
    assert_eq!(s.size, 4);
    assert_eq!(s.activations, vec![false; 16]);
    assert_eq!(s.lights, vec![false; 16]);
    assert_eq!(s.switch_to_solve, vec![false; 16]);
}

#[test]
fn state_hint_lights_every_tile() {
    let mut s = LightsOutState::new(3);
    s.toggle_tile(0, 0);
    s.toggle_tile(2, 1);
    s.solve();
    let hint = s.switch_to_solve.clone();
    assert_eq!(hint.len(), 9);
    for i in 0..9 {
        if hint[i] {
            s.toggle_tile(i % 3, i / 3);
        }
    }
    assert_eq!(s.lights, vec![true; 9]);
}

#[test]
fn state_toggle_clears_hint_for_that_tile() {
    let mut s = LightsOutState::new(2);
    s.solve();
    let hint = s.switch_to_solve.clone();
    // from all off, pressing every tile lights all four
    assert_eq!(hint, vec![true; 4]);
    assert_eq!(light_buttons(2, &hint), vec![true; 4]);
    let pressed = hint.iter().position(|&b| b).unwrap();
    s.toggle_tile(pressed % 2, pressed / 2);
    assert!(!s.switch_to_solve[pressed]);
}
