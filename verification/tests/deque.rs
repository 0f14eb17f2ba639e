use std::collections::VecDeque;

use lib::{
    morloc_cons_deque, morloc_deque_add, morloc_fold1_deque, morloc_fold_deque, morloc_map_deque,
    morloc_pack_deque, morloc_safe_fold1_deque, morloc_snoc_deque, morloc_uncons_deque, morloc_unpack_deque,
    morloc_unsnoc_deque,
};

fn dq(xs: &[i64]) -> VecDeque<i64> {
    xs.iter().cloned().collect()
}

#[test]
fn deque_append_and_map() {
    assert_eq!(morloc_deque_add(&dq(&[1, 2]), &dq(&[3, 4])), dq(&[1, 2, 3, 4]));
    assert_eq!(morloc_deque_add(&dq(&[]), &dq(&[3])), dq(&[3]));
    assert_eq!(morloc_map_deque(|x: &i64| x + 1, &dq(&[1, 2])), dq(&[2, 3]));
}

#[test]
fn deque_folds() {
    assert_eq!(morloc_fold_deque(|a: &i64, x: &i64| a * 10 + x, &0, &dq(&[1, 2, 3])), 123);
    assert_eq!(morloc_fold1_deque(|a: &i64, x: &i64| a - x, &dq(&[10, 4])), 6);
    assert_eq!(morloc_safe_fold1_deque(|a: &i64, x: &i64| a - x, &dq(&[])), None);
    assert_eq!(morloc_safe_fold1_deque(|a: &i64, x: &i64| a - x, &dq(&[10, 4, 1])), Some(5));
}

#[test]
fn deque_stack_and_queue() {
    assert_eq!(morloc_cons_deque(&0, &dq(&[1, 2])), dq(&[0, 1, 2]));
    assert_eq!(morloc_snoc_deque(&dq(&[1, 2]), &3), dq(&[1, 2, 3]));
    assert_eq!(morloc_uncons_deque(&dq(&[1, 2, 3])), (1, dq(&[2, 3])));
    assert_eq!(morloc_unsnoc_deque(&dq(&[1, 2, 3])), (dq(&[1, 2]), 3));
    assert_eq!(morloc_uncons_deque(&dq(&[7])), (7, dq(&[])));
    assert_eq!(morloc_unsnoc_deque(&dq(&[7])), (dq(&[]), 7));
}

#[test]
fn pack_and_unpack_round_trip() {
    let xs = vec![3i64, 1, 4, 1, 5];
    let packed = morloc_pack_deque(&xs);
    assert_eq!(packed, dq(&xs));
    assert_eq!(morloc_unpack_deque(&packed), xs);
    assert_eq!(morloc_unpack_deque(&morloc_pack_deque::<i64>(&[])), Vec::<i64>::new());
}

#[test]
fn deque_uncons_undoes_cons() {
    let d = dq(&[8, 9]);
    let (h, t) = morloc_uncons_deque(&morloc_cons_deque(&7, &d));
    assert_eq!(h, 7);
    assert_eq!(t, d);
}
