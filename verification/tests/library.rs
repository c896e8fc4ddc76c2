use shape_nesting::corner::{gap_corners, Corner};
use shape_nesting::crossing::{clear_of_edges, odd_crossings};
use shape_nesting::order::{first_max_above, get_corner_place, lowest_leftmost, placement_order};
use shape_nesting::shape::Shape;

#[test]
fn new_shape_is_unplaced() {
    let s = Shape::new(vec![(0.0f32, 0.0f32), (2.0, 0.0), (1.0, 2.0)]);
    assert_eq!(s.x, None);
    assert_eq!(s.y, None);
    assert!(!s.is_placed);
    assert_eq!(s.points, vec![(0.0, 0.0), (2.0, 0.0), (1.0, 2.0)]);
}

#[test]
fn place_sets_anchor_and_remove_clears_it() {
    let mut s = Shape::new(vec![(1i64, 2i64), (3, 4)]);
    s.place(5, 6);
    assert_eq!(s.x, Some(5));
    assert_eq!(s.y, Some(6));
    assert!(s.is_placed);
    s.remove();
    assert_eq!(s.x, None);
    assert_eq!(s.y, None);
    assert!(!s.is_placed);
    assert_eq!(s.points, vec![(1, 2), (3, 4)]);
}

#[test]
fn corner_chain_links_and_copies() {
    let mut head = Corner::new(20.0f32, 0.0f32);
    assert_eq!(head.points(), vec![(20.0, 0.0)]);
    head.set_prev(Corner::new(0.0, 0.0));
    assert_eq!(head.points(), vec![(20.0, 0.0), (0.0, 0.0)]);
    let copy = head.prev().unwrap();
    assert_eq!(copy.points(), vec![(0.0, 0.0)]);
    assert_eq!(head.points(), vec![(20.0, 0.0), (0.0, 0.0)]);
    let mut other = Corner::new(1.0f32, 1.0f32);
    other.set_prev_rc(copy);
    assert_eq!(other.points(), vec![(1.0, 1.0), (0.0, 0.0)]);
    other.set_prev_box_opt(None);
    assert_eq!(other.points(), vec![(1.0, 1.0)]);
    let cloned = head.clone();
    assert_eq!(cloned.points(), head.points());
    assert_eq!(head.duplicate().points(), head.points());
}

#[test]
fn clean_up_changes_nothing() {
    let mut head = Corner::new(10i64, 0i64);
    head.set_prev(Corner::new(3, 2));
    let shapes = vec![Shape::new(vec![(0i64, 0i64), (4, 0), (4, 4), (0, 4)])];
    let before = head.points();
    head.clean_up(&shapes);
    assert_eq!(head.points(), before);
}

#[test]
fn attach_points_links_points_backwards() {
    let mut next = Corner::new(9i64, 9i64);
    let rest = Some(Box::new(Corner::new(0i64, 0i64)));
    next.attach_points(&vec![(1, 1), (2, 2), (3, 3)], rest);
    assert_eq!(next.points(), vec![(9, 9), (3, 3), (2, 2), (1, 1), (0, 0)]);
}

#[test]
fn relink_after_replaces_one_corner() {
    let mut head = Corner::new(4i64, 0i64);
    let mut c1 = Corner::new(3, 1);
    let mut c2 = Corner::new(2, 2);
    c2.set_prev(Corner::new(1, 3));
    c1.set_prev(c2);
    head.set_prev(c1);
    assert_eq!(head.points(), vec![(4, 0), (3, 1), (2, 2), (1, 3)]);
    let mut first = head.clone();
    first.relink_after(0, &vec![(7, 7), (8, 8)]);
    assert_eq!(first.points(), vec![(4, 0), (8, 8), (7, 7), (2, 2), (1, 3)]);
    let mut second = head.clone();
    second.relink_after(1, &vec![]);
    assert_eq!(second.points(), vec![(4, 0), (3, 1), (1, 3)]);
    let mut last = head.clone();
    last.relink_after(2, &vec![(5, 5)]);
    assert_eq!(last.points(), vec![(4, 0), (3, 1), (2, 2), (5, 5)]);
}

#[test]
fn gap_corners_by_case() {
    let up = (0i64, 2i64);
    let dia = (3i64, 2i64);
    let right = (3i64, 0i64);
    assert_eq!(gap_corners(true, true, up, dia, right), vec![]);
    assert_eq!(gap_corners(true, false, up, dia, right), vec![dia]);
    assert_eq!(gap_corners(false, true, up, dia, right), vec![dia]);
    assert_eq!(gap_corners(false, false, up, dia, right), vec![up, dia, right]);
}

#[test]
fn lowest_then_leftmost_first_of_equals() {
    // (x, y) keys, walked from the first corner.
    let corners = vec![Some((20, 5)), Some((5, 3)), Some((2, 1)), Some((1, 1)), Some((1, 1)), None];
    assert_eq!(lowest_leftmost(&corners, 100), Some(3));
    assert_eq!(get_corner_place(&corners, 100), Some(2));
}

#[test]
fn corner_place_of_first_corner_is_itself() {
    let corners = vec![Some((0, 0)), Some((5, 3))];
    assert_eq!(lowest_leftmost(&corners, 100), Some(0));
    assert_eq!(get_corner_place(&corners, 100), Some(0));
}

#[test]
fn corner_place_respects_bound_and_missing_corners() {
    assert_eq!(get_corner_place(&vec![], 100), None);
    assert_eq!(get_corner_place(&vec![None, None], 100), None);
    // Only a corner strictly lower-left of (bound, bound) qualifies.
    assert_eq!(get_corner_place(&vec![Some((100, 100)), Some((200, 100))], 100), None);
    assert_eq!(get_corner_place(&vec![Some((100, 100)), Some((99, 100))], 100), Some(0));
    assert_eq!(lowest_leftmost(&vec![Some((100, 100)), Some((99, 100))], 100), Some(1));
}

#[test]
fn placement_order_largest_first_ties_last_first() {
    assert_eq!(placement_order(&vec![3, 1, 3, 2]), vec![2, 0, 3, 1]);
    assert_eq!(placement_order(&vec![]), Vec::<usize>::new());
    assert_eq!(placement_order(&vec![7, 7, 7]), vec![2, 1, 0]);
    assert_eq!(placement_order(&vec![0, 1, 2, 3]), vec![3, 2, 1, 0]);
}

#[test]
fn first_max_above_start() {
    let keys = vec![Some(1), None, Some(5), Some(5), Some(-3)];
    assert_eq!(first_max_above(&keys, 0), Some(2));
    assert_eq!(first_max_above(&vec![Some(0), Some(-2), None], 0), None);
    assert_eq!(first_max_above(&vec![], 0), None);
    assert_eq!(first_max_above(&vec![Some(-5), Some(-1)], -10), Some(1));
}

#[test]
fn edge_hits_and_crossing_parity() {
    assert!(!clear_of_edges(&vec![false, false]));
    assert!(clear_of_edges(&vec![false, false, false]));
    assert!(!clear_of_edges(&vec![false, true, false, false]));
    assert!(!odd_crossings(&vec![]));
    assert!(odd_crossings(&vec![false, true, false]));
    assert!(!odd_crossings(&vec![true, false, true, false]));
    assert!(odd_crossings(&vec![true, true, true]));
}
