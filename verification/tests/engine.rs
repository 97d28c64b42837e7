use torus_life::Cell;
use torus_life::Model;
use torus_life::Rule;

/// Builds a grid under the standard rule with the given cells alive.
fn grid(width: u32, height: u32, live: &[u32]) -> Model {
    let n = (width * height) as usize;
    let mut cells = vec![Cell::Dead; n];
    for &i in live {
        cells[i as usize] = Cell::Alive;
    }
    Model::new(width, height, Rule::standard(), cells).unwrap()
}

fn live_indices(m: &Model) -> Vec<u32> {
    let mut out = Vec::new();
    for (i, c) in m.world().iter().enumerate() {
        if c.is_alive() {
            out.push(i as u32);
        }
    }
    out
}

#[test]
fn neighbours_single_center_3x3() {
    let m = grid(3, 3, &[4]);
    assert_eq!(m.neighbours_of(4), 0);
    for i in 0..9 {
        if i != 4 {
            assert_eq!(m.neighbours_of(i), 1);
        }
    }
}

#[test]
fn neighbours_all_alive_3x3() {
    let m = grid(3, 3, &[0, 1, 2, 3, 4, 5, 6, 7, 8]);
    for i in 0..9 {
        assert_eq!(m.neighbours_of(i), 8);
    }
}

#[test]
fn wraparound_2x2_counts() {
    // On a 2x2 torus every cell's eight neighbour slots fold onto the
    // other three cells: the row and column mates are each reached along
    // two wrapped offsets, the diagonal mate along four.
    let m = grid(2, 2, &[0]);
    assert_eq!(m.neighbours_of(0), 0);
    assert_eq!(m.neighbours_of(1), 2);
    assert_eq!(m.neighbours_of(2), 2);
    assert_eq!(m.neighbours_of(3), 4);
    let all = grid(2, 2, &[0, 1, 2, 3]);
    for i in 0..4 {
        assert_eq!(all.neighbours_of(i), 8);
    }
}

#[test]
fn corner_wrap_counts() {
    // A live cell in the top-left corner of a 4x3 grid is seen exactly
    // once by each of its eight wrapped neighbours and by nobody else.
    let m = grid(4, 3, &[0]);
    let neighbours_of_corner = [1, 3, 4, 5, 7, 8, 9, 11];
    for i in 0..12 {
        let expected = if neighbours_of_corner.contains(&i) { 1 } else { 0 };
        assert_eq!(m.neighbours_of(i), expected, "index {i}");
    }
}

#[test]
fn block_still_life() {
    // A 2x2 block with a ring of dead padding is stable.
    let mut m = grid(4, 4, &[5, 6, 9, 10]);
    let before: Vec<Cell> = m.world().clone();
    m.update_self();
    assert_eq!(m.world(), &before);
}

#[test]
fn block_still_life_reports_no_change() {
    let mut m = grid(4, 4, &[5, 6, 9, 10]);
    let updates = m.update_and_report();
    assert!(updates.is_empty());
    assert_eq!(m.tell_last_update_count(), 0);
    assert_eq!(live_indices(&m), vec![5, 6, 9, 10]);
}

#[test]
fn lone_cell_dies_5x5() {
    let mut m = grid(5, 5, &[12]);
    m.update_self();
    assert!(live_indices(&m).is_empty());
}

#[test]
fn lone_cell_dies_2x2() {
    let mut m = grid(2, 2, &[3]);
    m.update_self();
    assert!(live_indices(&m).is_empty());
}

#[test]
fn single_row_torus_is_degenerate() {
    // On a 1-high torus the wrapped 3x3 block folds onto the single row,
    // so each neighbour column is counted three times: a lone live cell
    // sees count 2 of itself and survives, and both dead cells see count
    // 3 and are born.
    let mut m = grid(3, 1, &[1]);
    assert_eq!(m.neighbours_of(0), 3);
    assert_eq!(m.neighbours_of(1), 2);
    assert_eq!(m.neighbours_of(2), 3);
    m.update_self();
    assert_eq!(live_indices(&m), vec![0, 1, 2]);
}

#[test]
fn determinism_repeated_runs() {
    let live = [3, 9, 10, 11, 17, 22, 28];
    let mut a = grid(6, 5, &live);
    let mut b = grid(6, 5, &live);
    for _ in 0..4 {
        a.update_self();
        b.update_self();
        assert_eq!(a.world(), b.world());
    }
}

#[test]
fn update_self_matches_update_and_report() {
    let live = [3, 9, 10, 11, 17, 22, 28];
    let mut a = grid(6, 5, &live);
    let mut b = grid(6, 5, &live);
    a.update_self();
    b.update_and_report();
    assert_eq!(a.world(), b.world());
}

#[test]
fn change_list_blinker() {
    // A horizontal blinker in the middle of a 5x5 grid flips to vertical:
    // cells 7 and 17 are born, cells 11 and 13 die, cell 12 stays alive.
    let mut m = grid(5, 5, &[11, 12, 13]);
    let updates = m.update_and_report();
    assert_eq!(updates, vec![8, -12, -14, 18]);
    assert_eq!(m.tell_last_update_count(), 4);
    assert_eq!(live_indices(&m), vec![7, 12, 17]);
}

#[test]
fn change_list_matches_buffer_diff() {
    let live = [0, 1, 5, 8, 9, 14, 15, 16, 21];
    let mut m = grid(4, 6, &live);
    let before: Vec<Cell> = m.world().clone();
    let updates = m.update_and_report();
    let after: Vec<Cell> = m.world().clone();
    let mut expected = Vec::new();
    for i in 0..before.len() {
        if before[i] != after[i] {
            if after[i].is_alive() {
                expected.push((i + 1) as i32);
            } else {
                expected.push(-((i + 1) as i32));
            }
        }
    }
    assert_eq!(updates, expected);
    assert_eq!(m.tell_last_update_count() as usize, updates.len());
}

#[test]
fn grid_size_invariant() {
    let mut m = grid(7, 3, &[2, 8, 9, 10, 16]);
    for _ in 0..5 {
        m.update_self();
        assert_eq!(m.w(), 7);
        assert_eq!(m.h(), 3);
        assert_eq!(m.world().len(), 21);
    }
}
