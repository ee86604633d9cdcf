use croissant::pos::Pos;
use croissant::slot::Slot;

#[test]
fn slot_positions_across() {
    let slot = Slot::across(1, 4, 1);
    let actual_positions = slot.positions();
    let expected_positions = vec![Pos::new(1, 1), Pos::new(2, 1), Pos::new(3, 1)];
    assert_eq!(expected_positions, actual_positions);
}

#[test]
fn slot_positions_down() {
    let slot = Slot::down(1, 4, 1);
    let actual_positions = slot.positions();
    let expected_positions = vec![Pos::new(1, 1), Pos::new(1, 2), Pos::new(1, 3)];
    assert_eq!(expected_positions, actual_positions);
}

#[test]
fn slot_len() {
    let slot = Slot::across(1, 4, 0);
    assert_eq!(3, slot.len());
}

#[test]
fn pos_accessors() {
    let pos = Pos::new(2, 5);
    assert_eq!(2, pos.column());
    assert_eq!(5, pos.row());
}
