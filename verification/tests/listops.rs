use lib::{
    morloc_dropWhile, morloc_enumerate, morloc_filter, morloc_find, morloc_fold_vec, morloc_groupBy,
    morloc_intersperse, morloc_iterate, morloc_partition, morloc_range, morloc_rangeStep, morloc_replicate,
    morloc_scanl, morloc_takeWhile, morloc_unique, morloc_unzip, morloc_zipWith,
};

#[test]
fn zip_with_stops_at_the_shorter() {
    assert_eq!(morloc_zipWith(|a: &i64, b: &i64| a + b, &[1, 2, 3], &[10, 20]), vec![11, 22]);
    assert_eq!(morloc_zipWith(|a: &i64, b: &char| format!("{}{}", a, b), &[1], &['x', 'y']), vec!["1x"]);
    assert_eq!(morloc_zipWith(|a: &i64, b: &i64| a * b, &[], &[1]), Vec::<i64>::new());
}

#[test]
fn filter_and_partition() {
    let xs = [1i64, 2, 3, 4, 5, 6];
    let even = |x: &i64| x % 2 == 0;
    assert_eq!(morloc_filter(even, &xs), vec![2, 4, 6]);
    assert_eq!(morloc_partition(even, &xs), (vec![2, 4, 6], vec![1, 3, 5]));
    assert_eq!(morloc_partition(even, &[]), (vec![], vec![]));
}

#[test]
fn partition_first_is_filter() {
    let xs = [7i64, -1, 0, 12, -5];
    let pos = |x: &i64| *x > 0;
    assert_eq!(morloc_partition(pos, &xs).0, morloc_filter(pos, &xs));
}

#[test]
fn unzip_pairs() {
    assert_eq!(morloc_unzip(&[(1, 'a'), (2, 'b')]), (vec![1, 2], vec!['a', 'b']));
    assert_eq!(morloc_unzip::<i64, char>(&[]), (vec![], vec![]));
}

#[test]
fn replicate_values() {
    assert_eq!(morloc_replicate(3, &String::from("x")), vec!["x", "x", "x"]);
    assert_eq!(morloc_replicate(0, &1i64), Vec::<i64>::new());
    assert_eq!(morloc_replicate(-4, &1i64), Vec::<i64>::new());
}

#[test]
fn take_and_drop_while() {
    let xs = [1i64, 2, 3, 10, 1, 2];
    let small = |x: &i64| *x < 5;
    assert_eq!(morloc_takeWhile(small, &xs), vec![1, 2, 3]);
    assert_eq!(morloc_dropWhile(small, &xs), vec![10, 1, 2]);
    assert_eq!(morloc_takeWhile(|x: &i64| *x > 100, &xs), Vec::<i64>::new());
    assert_eq!(morloc_dropWhile(|x: &i64| *x > 0, &xs), Vec::<i64>::new());
}

#[test]
fn take_while_then_drop_while_is_the_list() {
    let xs = [4i64, 8, 15, 16, 23, 42];
    let p = |x: &i64| x % 4 == 0;
    let mut both = morloc_takeWhile(p, &xs);
    both.extend(morloc_dropWhile(p, &xs));
    assert_eq!(both, xs.to_vec());
}

#[test]
fn scanl_accumulators() {
    assert_eq!(morloc_scanl(|a: &i64, x: &i64| a + x, &0, &[1, 2, 3]), vec![0, 1, 3, 6]);
    assert_eq!(morloc_scanl(|a: &i64, x: &i64| a + x, &5, &[]), vec![5]);
}

#[test]
fn scanl_last_is_fold() {
    let xs = [3i64, -1, 4, -1, 5];
    let f = |a: &i64, x: &i64| a * 2 - x;
    let scanned = morloc_scanl(f, &1, &xs);
    assert_eq!(*scanned.last().unwrap(), morloc_fold_vec(f, &1, &xs));
}

#[test]
fn enumerate_positions() {
    assert_eq!(morloc_enumerate(&['a', 'b', 'c']), vec![(0, 'a'), (1, 'b'), (2, 'c')]);
    assert_eq!(morloc_enumerate::<char>(&[]), vec![]);
}

#[test]
fn intersperse_separator() {
    assert_eq!(morloc_intersperse(&0, &[1, 2, 3]), vec![1, 0, 2, 0, 3]);
    assert_eq!(morloc_intersperse(&0, &[1]), vec![1]);
    assert_eq!(morloc_intersperse(&0, &[]), Vec::<i64>::new());
}

#[test]
fn iterate_function() {
    assert_eq!(morloc_iterate(4, |x: &i64| x * 2, &1), vec![1, 2, 4, 8]);
    assert_eq!(morloc_iterate(0, |x: &i64| x * 2, &1), Vec::<i64>::new());
    assert_eq!(morloc_iterate(-2, |x: &i64| x * 2, &1), Vec::<i64>::new());
    assert_eq!(morloc_iterate(1, |x: &i64| x * 2, &5), vec![5]);
}

#[test]
fn group_by_runs() {
    let same = |a: &i64, b: &i64| a == b;
    assert_eq!(morloc_groupBy(same, &[1, 1, 2, 3, 3, 3, 1]), vec![vec![1, 1], vec![2], vec![3, 3, 3], vec![1]]);
    assert_eq!(morloc_groupBy(same, &[]), Vec::<Vec<i64>>::new());
    // the predicate sees neighbours, not the first of the run
    let close = |a: &i64, b: &i64| (b - a).abs() <= 1;
    assert_eq!(morloc_groupBy(close, &[1, 2, 3, 7, 8, 20]), vec![vec![1, 2, 3], vec![7, 8], vec![20]]);
}

#[test]
fn find_first() {
    assert_eq!(morloc_find(|x: &i64| *x > 2, &[1, 3, 5]), Some(3));
    assert_eq!(morloc_find(|x: &i64| *x > 9, &[1, 3, 5]), None);
    assert_eq!(morloc_find(|x: &i64| *x > 9, &[]), None);
}

#[test]
fn unique_keeps_first_occurrences() {
    assert_eq!(morloc_unique(&[3, 1, 3, 2, 1, 3]), vec![3, 1, 2]);
    assert_eq!(morloc_unique::<i64>(&[]), vec![]);
    let words: Vec<String> = ["b", "a", "b"].iter().map(|s| s.to_string()).collect();
    assert_eq!(morloc_unique(&words), vec!["b", "a"]);
    // NaN equals nothing, not even itself
    let u = morloc_unique(&[f64::NAN, 1.0, f64::NAN]);
    assert_eq!(u.len(), 3);
}

#[test]
fn ranges() {
    assert_eq!(morloc_range(2, 5), vec![2, 3, 4]);
    assert_eq!(morloc_range(5, 5), Vec::<i64>::new());
    assert_eq!(morloc_range(5, 2), Vec::<i64>::new());
    assert_eq!(morloc_range(-2, 1), vec![-2, -1, 0]);
    assert_eq!(morloc_rangeStep(0, 10, 3), vec![0, 3, 6, 9]);
    assert_eq!(morloc_rangeStep(0, 9, 3), vec![0, 3, 6]);
    assert_eq!(morloc_rangeStep(0, 10, 0), Vec::<i64>::new());
    assert_eq!(morloc_rangeStep(0, 10, -1), Vec::<i64>::new());
    assert_eq!(morloc_rangeStep(5, 1, 2), Vec::<i64>::new());
    assert_eq!(morloc_rangeStep(i64::MAX - 3, i64::MAX, 2), vec![i64::MAX - 3, i64::MAX - 1]);
    assert_eq!(morloc_rangeStep(0, i64::MAX, i64::MAX), vec![0]);
}

#[test]
fn partition_second_is_filter_of_negation() {
    let xs = [7i64, -1, 0, 12, -5];
    let pos = |x: &i64| *x > 0;
    let (yes, no) = morloc_partition(pos, &xs);
    assert_eq!(no, morloc_filter(|x: &i64| !(*x > 0), &xs));
    assert_eq!(yes.len() + no.len(), xs.len());
}
