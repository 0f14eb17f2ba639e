use lib::{morloc_groupSort, morloc_merge_sort_by, morloc_sort, morloc_sortBy};

#[test]
fn sort_numbers() {
    assert_eq!(morloc_sort(&[3i64, 1, 2]), vec![1, 2, 3]);
    assert_eq!(morloc_sort::<i64>(&[]), vec![]);
    assert_eq!(morloc_sort(&[5i64, -1, 5, 0, -1, 9, 2]), vec![-1, -1, 0, 2, 5, 5, 9]);
    let words: Vec<String> = ["pear", "apple", "fig"].iter().map(|s| s.to_string()).collect();
    assert_eq!(morloc_sort(&words), vec!["apple", "fig", "pear"]);
}

#[test]
fn sort_is_a_permutation() {
    let xs = [9i64, 3, 7, 3, 1, 8, 2, 2, 6, 0, 5];
    let mut out = morloc_sort(&xs);
    let mut expected = xs.to_vec();
    expected.sort();
    assert_eq!(out, expected);
    out.reverse();
    assert_eq!(out.len(), xs.len());
}

#[test]
fn sort_with_nan_does_not_panic() {
    assert_eq!(
        morloc_sort(&[3.0f64, f64::NAN, 1.0, 2.0]).iter().map(|x| x.to_string()).collect::<Vec<_>>(),
        vec!["1", "2", "NaN", "3"]
    );
    assert_eq!(
        morloc_sort(&[5.0f64, 1.0, f64::NAN, 4.0, 2.0]).iter().map(|x| x.to_string()).collect::<Vec<_>>(),
        vec!["1", "2", "4", "NaN", "5"]
    );
}

#[test]
fn sort_by_is_stable() {
    let xs = [(2, 'a'), (1, 'b'), (2, 'c'), (1, 'd')];
    let by_key = |x: &(i64, char), y: &(i64, char)| x.0 < y.0;
    assert_eq!(morloc_sortBy(by_key, &xs), vec![(1, 'b'), (1, 'd'), (2, 'a'), (2, 'c')]);
    let descending = |x: &(i64, char), y: &(i64, char)| x.0 > y.0;
    assert_eq!(morloc_sortBy(descending, &xs), vec![(2, 'a'), (2, 'c'), (1, 'b'), (1, 'd')]);
}

#[test]
fn merge_sort_with_any_predicate_is_a_permutation() {
    let xs = [4i64, 1, 3, 1, 5, 9, 2, 6];
    let odd_first = |a: &i64, _b: &i64| a % 2 == 1;
    let mut out = morloc_merge_sort_by(&xs, odd_first);
    out.sort();
    let mut expected = xs.to_vec();
    expected.sort();
    assert_eq!(out, expected);
}

#[test]
fn group_sort_merges_equal_keys() {
    let xs = [(2i64, 'a'), (1, 'b'), (2, 'c'), (3, 'd'), (1, 'e')];
    assert_eq!(morloc_groupSort(&xs), vec![(1, vec!['b', 'e']), (2, vec!['a', 'c']), (3, vec!['d'])]);
    assert_eq!(morloc_groupSort::<i64, char>(&[]), vec![]);
    let ys = [(String::from("k"), 1i64)];
    assert_eq!(morloc_groupSort(&ys), vec![(String::from("k"), vec![1])]);
}
