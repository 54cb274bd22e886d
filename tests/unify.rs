use event_store::error::StoreError;
use event_store::unify::{last_rows, merge_plan};

#[test]
fn unifier_dedup() {
    let plan = merge_plan(&vec![vec![10, 11], vec![10]]).expect("no duplicates within a domain");
    assert_eq!(plan, vec![(0, 1), (1, 0)]);
}

#[test]
fn unifier_refuses_duplicates_within_a_domain() {
    assert_eq!(merge_plan(&vec![vec![1], vec![2, 3, 2]]), Err(StoreError::DuplicateIds));
}

#[test]
fn unifier_keeps_each_id_once() {
    let plan = merge_plan(&vec![vec![1, 2, 3], vec![3, 4], vec![], vec![1]]).expect("ok");
    assert_eq!(plan, vec![(0, 1), (1, 0), (1, 1), (3, 0)]);
}

#[test]
fn copy_keeps_last_row_per_id() {
    assert_eq!(last_rows(&vec![vec![5, 6, 5]]), vec![(0, 1), (0, 2)]);
    assert_eq!(last_rows(&vec![]), vec![]);
}
