use story_engine::{distance_squared, nearest_index, select_nearest, Candidate, Position};

fn at(id: u64, x: i32, y: i32) -> Candidate {
    Candidate { id, position: Position { x, y } }
}

const ORIGIN: Position = Position { x: 0, y: 0 };

#[test]
fn nearest_within_range_is_selected() {
    let candidates = vec![at(7, 10, 0), at(9, 50, 0)];
    assert_eq!(select_nearest(ORIGIN, &candidates, Some(30)), Some(7));
    assert_eq!(select_nearest(ORIGIN, &candidates, Some(5)), None);
}

#[test]
fn nearest_is_selected_whatever_the_order() {
    let candidates = vec![at(9, 50, 0), at(7, 10, 0), at(8, 0, -20)];
    assert_eq!(select_nearest(ORIGIN, &candidates, Some(30)), Some(7));
    assert_eq!(nearest_index(ORIGIN, &candidates, Some(30)), Some(1));
}

#[test]
fn without_range_the_nearest_is_selected_however_far() {
    let candidates = vec![at(1, 1000, 1000), at(2, -900, 900)];
    assert_eq!(select_nearest(ORIGIN, &candidates, None), Some(2));
    assert_eq!(select_nearest(ORIGIN, &candidates, Some(100)), None);
}

#[test]
fn no_candidates_select_nothing() {
    let candidates: Vec<Candidate> = Vec::new();
    assert_eq!(select_nearest(ORIGIN, &candidates, None), None);
    assert_eq!(select_nearest(ORIGIN, &candidates, Some(10)), None);
    assert_eq!(nearest_index(ORIGIN, &candidates, None), None);
}

#[test]
fn ties_go_to_the_first() {
    let candidates = vec![at(3, 0, 5), at(4, 5, 0), at(5, -5, 0), at(6, 3, 4)];
    assert_eq!(select_nearest(ORIGIN, &candidates, None), Some(3));
    assert_eq!(nearest_index(ORIGIN, &candidates, Some(5)), Some(0));
    let candidates = vec![at(1, 9, 0), at(4, 5, 0), at(5, -5, 0)];
    assert_eq!(select_nearest(ORIGIN, &candidates, None), Some(4));
}

#[test]
fn range_includes_its_boundary() {
    let candidates = vec![at(1, 3, 4)];
    assert_eq!(select_nearest(ORIGIN, &candidates, Some(5)), Some(1));
    assert_eq!(select_nearest(ORIGIN, &candidates, Some(4)), None);
    assert_eq!(select_nearest(ORIGIN, &[at(2, 0, 0)].to_vec(), Some(0)), Some(2));
}

#[test]
fn distance_is_measured_from_the_requester() {
    let requester = Position { x: 100, y: -100 };
    let candidates = vec![at(1, 0, 0), at(2, 103, -104)];
    assert_eq!(select_nearest(requester, &candidates, Some(5)), Some(2));
    assert_eq!(select_nearest(ORIGIN, &candidates, Some(5)), Some(1));
}

#[test]
fn squared_distance_is_exact() {
    assert_eq!(distance_squared(ORIGIN, Position { x: 3, y: 4 }), 25);
    assert_eq!(distance_squared(Position { x: -1, y: -1 }, Position { x: 2, y: 3 }), 25);
    assert_eq!(distance_squared(Position { x: 7, y: 7 }, Position { x: 7, y: 7 }), 0);
}

#[test]
fn squared_distance_does_not_overflow() {
    let low = Position { x: i32::MIN, y: i32::MIN };
    let high = Position { x: i32::MAX, y: i32::MAX };
    let side: u128 = (1u128 << 32) - 1;
    assert_eq!(distance_squared(low, high), 2 * side * side);
    assert_eq!(select_nearest(low, &vec![Candidate { id: 1, position: high }], Some(u64::MAX)), Some(1));
    assert_eq!(select_nearest(low, &vec![Candidate { id: 1, position: high }], Some(1 << 32)), None);
}
