use torus_life::Cell;
use torus_life::ConstructionError;
use torus_life::Model;
use torus_life::Rule;

#[test]
fn cell_numeric_values() {
    assert_eq!(Cell::Dead.as_num(), 0);
    assert_eq!(Cell::Alive.as_num(), 1);
    assert!(Cell::Alive.is_alive());
    assert!(!Cell::Dead.is_alive());
}

#[test]
fn rule_validation() {
    assert_eq!(Rule::new(3, 3, 2, 3), Ok(Rule::standard()));
    assert_eq!(Rule::new(4, 3, 2, 3), Err(ConstructionError::InvalidRule));
    assert_eq!(Rule::new(3, 9, 2, 3), Err(ConstructionError::InvalidRule));
    assert_eq!(Rule::new(3, 3, 3, 2), Err(ConstructionError::InvalidRule));
    assert_eq!(Rule::new(0, 8, 0, 8), Ok(Rule { birth_min: 0, birth_max: 8, alive_min: 0, alive_max: 8 }));
}

#[test]
fn rule_application() {
    let r = Rule::standard();
    assert_eq!(r.apply(Cell::Dead, 3), Cell::Alive);
    assert_eq!(r.apply(Cell::Dead, 2), Cell::Dead);
    assert_eq!(r.apply(Cell::Dead, 4), Cell::Dead);
    assert_eq!(r.apply(Cell::Alive, 1), Cell::Dead);
    assert_eq!(r.apply(Cell::Alive, 2), Cell::Alive);
    assert_eq!(r.apply(Cell::Alive, 3), Cell::Alive);
    assert_eq!(r.apply(Cell::Alive, 4), Cell::Dead);
}

#[test]
fn construction_rejects_zero_dimension() {
    let r = Model::new(0, 3, Rule::standard(), vec![]);
    assert_eq!(r.err(), Some(ConstructionError::ZeroDimension));
    let r = Model::new(3, 0, Rule::standard(), vec![]);
    assert_eq!(r.err(), Some(ConstructionError::ZeroDimension));
}

#[test]
fn construction_rejects_invalid_rule() {
    let bad = Rule { birth_min: 5, birth_max: 4, alive_min: 2, alive_max: 3 };
    let r = Model::new(2, 2, bad, vec![Cell::Dead; 4]);
    assert_eq!(r.err(), Some(ConstructionError::InvalidRule));
}

#[test]
fn construction_rejects_wrong_cell_count() {
    let r = Model::new(3, 3, Rule::standard(), vec![Cell::Dead; 8]);
    assert_eq!(r.err(), Some(ConstructionError::CellCountMismatch));
    let r = Model::new(3, 3, Rule::standard(), vec![Cell::Dead; 10]);
    assert_eq!(r.err(), Some(ConstructionError::CellCountMismatch));
}

#[test]
fn construction_keeps_buffer_and_dimensions() {
    let cells = vec![Cell::Alive, Cell::Dead, Cell::Dead, Cell::Alive, Cell::Alive, Cell::Dead];
    let m = Model::new(3, 2, Rule::standard(), cells.clone()).unwrap();
    assert_eq!(m.w(), 3);
    assert_eq!(m.h(), 2);
    assert_eq!(m.world(), &cells);
    assert_eq!(m.tell_last_update_count(), 0);
}

#[test]
fn at_reads_row_major() {
    let cells = vec![Cell::Alive, Cell::Dead, Cell::Dead, Cell::Dead, Cell::Alive, Cell::Dead];
    let m = Model::new(3, 2, Rule::standard(), cells).unwrap();
    assert_eq!(m.at(0, 0), Cell::Alive);
    assert_eq!(m.at(1, 0), Cell::Dead);
    assert_eq!(m.at(1, 1), Cell::Alive);
    assert_eq!(m.at(2, 1), Cell::Dead);
}
