use move_accuracy::perspective::{white_relative, Side};
use move_accuracy::transitions::split_transitions;

#[test]
fn three_plies_give_one_move_each() {
    let t = split_transitions(3);
    assert_eq!(t.white, vec![(0, 1)]);
    assert_eq!(t.black, vec![(2, 1)]);
}

#[test]
fn one_ply_gives_no_moves() {
    let t = split_transitions(1);
    assert!(t.white.is_empty());
    assert!(t.black.is_empty());
    let t = split_transitions(0);
    assert!(t.white.is_empty());
    assert!(t.black.is_empty());
}

#[test]
fn moves_alternate_from_white() {
    let t = split_transitions(6);
    assert_eq!(t.white, vec![(0, 1), (2, 3), (4, 5)]);
    assert_eq!(t.black, vec![(2, 1), (4, 3)]);
    let t = split_transitions(2);
    assert_eq!(t.white, vec![(0, 1)]);
    assert!(t.black.is_empty());
}

#[test]
fn evaluations_turn_to_white_view() {
    assert_eq!(white_relative(37, Side::White), 37);
    assert_eq!(white_relative(37, Side::Black), -37);
    assert_eq!(white_relative(0, Side::Black), 0);
    assert_eq!(white_relative(i32::MAX, Side::Black), -(i32::MAX as i64));
    assert_eq!(white_relative(i32::MIN, Side::Black), 2147483648);
}
