use croissant::grid::Grid;
use croissant::slot::Slot;

#[test]
fn grid_from_inconsistent_length() {
    let grid_creation = Grid::from("ABC\n.#");
    let expected_err = Err(String::from(
        "Inconsistent number of columns: Row #1 has 2 columns but row #0 has 3",
    ));
    assert_eq!(expected_err, grid_creation);
}

#[test]
fn grid_from_invalid_letter() {
    let grid_creation = Grid::from("ABC\n.#@");
    let expected_err = Err(String::from("Invalid value at row #1: @"));
    assert_eq!(expected_err, grid_creation);
}

#[test]
fn grid_from_invalid_letter_identifies_first_row() {
    let grid_creation = Grid::from("___");
    let expected_err = Err(String::from("Invalid value at row #0: _"));
    assert_eq!(expected_err, grid_creation);
}

#[test]
fn grid_row_count() {
    let grid = Grid::from("A\nB").unwrap();
    assert_eq!(2, grid.row_count())
}

#[test]
fn grid_column_count() {
    let grid = Grid::from("A\nB").unwrap();
    assert_eq!(1, grid.column_count())
}

#[test]
fn grid_letter_at() {
    let grid = Grid::from("AB\n.#").unwrap();
    assert_eq!('A', grid.letter_at(0, 0));
    assert_eq!('B', grid.letter_at(0, 1));
    assert_eq!('.', grid.letter_at(1, 0));
    assert_eq!('#', grid.letter_at(1, 1));
}

#[test]
fn grid_slots_simple() {
    let grid = Grid::from("...\n...\n...").unwrap();
    let actual_slots = grid.slots();
    let expected_slots = vec![
        Slot::across(0, 3, 0),
        Slot::across(0, 3, 1),
        Slot::across(0, 3, 2),
        Slot::down(0, 3, 0),
        Slot::down(0, 3, 1),
        Slot::down(0, 3, 2),
    ];
    assert_eq!(expected_slots, actual_slots)
}

#[test]
fn grid_slots_asymmetrical() {
    let grid = Grid::from("...\n...").unwrap();
    let actual_slots = grid.slots();
    let expected_slots = vec![
        Slot::across(0, 3, 0),
        Slot::across(0, 3, 1),
        Slot::down(0, 2, 0),
        Slot::down(0, 2, 1),
        Slot::down(0, 2, 2),
    ];
    assert_eq!(expected_slots, actual_slots)
}

#[test]
fn grid_slots_with_blocks() {
    let grid = Grid::from(".#.\n...\n..#").unwrap();
    let actual_slots = grid.slots();
    let expected_slots = vec![
        Slot::across(0, 3, 1),
        Slot::across(0, 2, 2),
        Slot::down(0, 3, 0),
        Slot::down(1, 3, 1),
        Slot::down(0, 2, 2),
    ];
    assert_eq!(expected_slots, actual_slots)
}

#[test]
fn grid_slots_empty() {
    let grid = Grid::from("").unwrap();
    let actual_slots = grid.slots();
    let expected_slots: Vec<Slot> = vec![];
    assert_eq!(expected_slots, actual_slots);
}

#[test]
fn grid_slots_all_blocks() {
    let grid = Grid::from("###\n###\n###").unwrap();
    let actual_slots = grid.slots();
    let expected_slots: Vec<Slot> = vec![];
    assert_eq!(expected_slots, actual_slots);
}
