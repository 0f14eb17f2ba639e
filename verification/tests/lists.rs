use lib::{
    morloc_cons_vec, morloc_fold1_vec, morloc_fold_vec, morloc_list_add, morloc_map_vec, morloc_safe_fold1_vec,
    morloc_snoc_vec, morloc_str_add, morloc_uncons_vec, morloc_unsnoc_vec,
};

#[test]
fn string_and_list_append() {
    assert_eq!(morloc_str_add("foo", "bar"), "foobar");
    assert_eq!(morloc_str_add("", "é"), "é");
    assert_eq!(morloc_list_add(&[1, 2], &[3]), vec![1, 2, 3]);
    assert_eq!(morloc_list_add::<i64>(&[], &[]), Vec::<i64>::new());
    let a = vec![String::from("x")];
    let b = vec![String::from("y"), String::from("z")];
    assert_eq!(morloc_list_add(&a, &b), vec!["x", "y", "z"]);
}

#[test]
fn map_over_list() {
    assert_eq!(morloc_map_vec(|x: &i64| x * 10, &[1, 2, 3]), vec![10, 20, 30]);
    assert_eq!(morloc_map_vec(|s: &String| s.len(), &[String::from("ab"), String::new()]), vec![2, 0]);
    assert_eq!(morloc_map_vec(|x: &i64| *x, &[]), Vec::<i64>::new());
}

#[test]
fn folds() {
    assert_eq!(morloc_fold_vec(|acc: &i64, x: &i64| acc - x, &10, &[1, 2, 3]), 4);
    assert_eq!(morloc_fold_vec(|acc: &String, x: &char| format!("{}{}", acc, x), &String::from(">"), &['a', 'b']), ">ab");
    assert_eq!(morloc_fold_vec(|acc: &i64, x: &i64| acc + x, &5, &[]), 5);
    assert_eq!(morloc_fold1_vec(|a: &i64, b: &i64| a - b, &[10, 1, 2]), 7);
    assert_eq!(morloc_fold1_vec(|a: &i64, b: &i64| (*a).max(*b), &[3]), 3);
    assert_eq!(morloc_safe_fold1_vec(|a: &i64, b: &i64| a * b, &[2, 3, 4]), Some(24));
    assert_eq!(morloc_safe_fold1_vec(|a: &i64, b: &i64| a * b, &[]), None);
}

#[test]
fn fold1_agrees_with_safe_fold1() {
    let xs = [5i64, -2, 9, 1];
    let f = |a: &i64, b: &i64| a * 2 + b;
    assert_eq!(Some(morloc_fold1_vec(f, &xs)), morloc_safe_fold1_vec(f, &xs));
}

#[test]
fn stack_and_queue() {
    assert_eq!(morloc_cons_vec(&0, &[1, 2]), vec![0, 1, 2]);
    assert_eq!(morloc_cons_vec(&0, &[]), vec![0]);
    assert_eq!(morloc_snoc_vec(&[1, 2], &3), vec![1, 2, 3]);
    assert_eq!(morloc_uncons_vec(&[1, 2, 3]), (1, vec![2, 3]));
    assert_eq!(morloc_uncons_vec(&[9]), (9, vec![]));
    assert_eq!(morloc_unsnoc_vec(&[1, 2, 3]), (vec![1, 2], 3));
    assert_eq!(morloc_unsnoc_vec(&[9]), (vec![], 9));
}

#[test]
fn uncons_undoes_cons() {
    let xs = vec![String::from("b"), String::from("c")];
    let consed = morloc_cons_vec(&String::from("a"), &xs);
    let (h, t) = morloc_uncons_vec(&consed);
    assert_eq!(h, "a");
    assert_eq!(t, xs);
}

#[test]
fn unsnoc_undoes_snoc() {
    let xs = vec![4i64, 5];
    let snoced = morloc_snoc_vec(&xs, &6);
    let (init, last) = morloc_unsnoc_vec(&snoced);
    assert_eq!(init, xs);
    assert_eq!(last, 6);
}

#[test]
fn fold1_is_fold_from_the_head() {
    let xs = [5i64, -2, 9, 1];
    let f = |a: &i64, b: &i64| a * 3 - b;
    assert_eq!(morloc_safe_fold1_vec(f, &xs), Some(morloc_fold_vec(f, &xs[0], &xs[1..])));
}
