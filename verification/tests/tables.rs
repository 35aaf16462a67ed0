//! Distance tables and the nearest-neighbour order of their stops.

use route_solver::distance::DistanceTable;
use route_solver::nearest::visit_order;

fn table(rows: &[&[u64]]) -> DistanceTable {
    DistanceTable::from_rows(rows.iter().map(|r| r.to_vec()).collect()).expect("a square table")
}

#[test]
fn square_rows_make_a_table() {
    let t = table(&[&[0, 3], &[3, 0]]);
    assert_eq!(t.dim(), 2);
    assert_eq!(table(&[]).dim(), 0);
    assert_eq!(table(&[&[9]]).dim(), 1);
}

#[test]
fn table_hands_back_its_keys() {
    let t = table(&[&[0, 3, 8], &[4, 0, 6], &[7, 5, 0]]);
    assert_eq!(t.get(0, 1), Some(3));
    assert_eq!(t.get(1, 0), Some(4));
    assert_eq!(t.get(2, 1), Some(5));
    assert_eq!(t.get(2, 2), Some(0));
    assert_eq!(t.get(3, 0), None);
    assert_eq!(t.get(0, 3), None);
    assert_eq!(table(&[]).get(0, 0), None);
}

#[test]
fn ragged_rows_make_no_table() {
    assert!(DistanceTable::from_rows(vec![vec![0, 1], vec![1]]).is_none());
    assert!(DistanceTable::from_rows(vec![vec![0, 1, 2], vec![1, 0, 2]]).is_none());
    assert!(DistanceTable::from_rows(vec![vec![]]).is_none());
    assert!(DistanceTable::from_rows(vec![vec![0, 1], vec![1, 0], vec![2, 2]]).is_none());
}

#[test]
fn no_stop_beyond_the_start_means_no_visit() {
    assert_eq!(visit_order(&table(&[])), Vec::<usize>::new());
    assert_eq!(visit_order(&table(&[&[0]])), Vec::<usize>::new());
}

#[test]
fn one_stop_is_visited() {
    assert_eq!(visit_order(&table(&[&[0, 5], &[5, 0]])), vec![1]);
}

#[test]
fn visits_follow_the_row_of_the_stop_just_reached() {
    // From 0 the nearest is 2; from 2 the nearest left is 3; from 3, 1 before 4.
    let t = table(&[
        &[0, 7, 2, 9, 8],
        &[7, 0, 4, 1, 6],
        &[2, 4, 0, 3, 5],
        &[9, 1, 3, 0, 2],
        &[8, 6, 5, 2, 0],
    ]);
    assert_eq!(visit_order(&t), vec![2, 3, 1, 4]);
}

#[test]
fn equal_keys_are_taken_in_stop_order() {
    let t = table(&[&[0, 4, 4, 4], &[4, 0, 6, 6], &[4, 6, 0, 6], &[4, 6, 6, 0]]);
    assert_eq!(visit_order(&t), vec![1, 2, 3]);
    // The least key wins even when it comes last, and the first of two
    // equal least keys when it does not.
    let u = table(&[&[0, 5, 5, 1], &[9, 0, 9, 9], &[2, 2, 0, 2], &[0, 3, 3, 0]]);
    assert_eq!(visit_order(&u), vec![3, 1, 2]);
}

#[test]
fn rows_need_not_be_symmetric() {
    // Going from 1 to 2 is cheap, coming back is not: only row "from" counts.
    let t = table(&[&[0, 1, 2], &[1, 0, 1], &[2, 100, 0]]);
    assert_eq!(visit_order(&t), vec![1, 2]);
    let u = table(&[&[0, 2, 1], &[1, 0, 1], &[2, 100, 0]]);
    assert_eq!(visit_order(&u), vec![2, 1]);
}

#[test]
fn largest_keys_are_still_keys() {
    let m = u64::MAX;
    let t = table(&[&[0, m, m], &[m, 0, m], &[m, m, 0]]);
    assert_eq!(visit_order(&t), vec![1, 2]);
    let u = table(&[&[0, m, m - 1], &[m, 0, m], &[m, m, 0]]);
    assert_eq!(visit_order(&u), vec![2, 1]);
}
