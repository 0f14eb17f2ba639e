use lib::{morloc_at, morloc_slice};

fn ten() -> Vec<i64> {
    (0..10).collect()
}

#[test]
fn at_counts_negative_indices_from_the_end() {
    let xs = vec![String::from("a"), String::from("b"), String::from("c")];
    assert_eq!(morloc_at(Some(0), &xs), "a");
    assert_eq!(morloc_at(Some(2), &xs), "c");
    assert_eq!(morloc_at(Some(-1), &xs), "c");
    assert_eq!(morloc_at(Some(-3), &xs), "a");
}

#[test]
fn slice_like_python() {
    let xs = ten();
    let cases: Vec<(Option<i64>, Option<i64>, Option<i64>, Vec<i64>)> = vec![
        (None, None, None, vec![0, 1, 2, 3, 4, 5, 6, 7, 8, 9]),
        (Some(2), Some(5), None, vec![2, 3, 4]),
        (Some(-3), None, None, vec![7, 8, 9]),
        (None, Some(-2), None, vec![0, 1, 2, 3, 4, 5, 6, 7]),
        (None, None, Some(2), vec![0, 2, 4, 6, 8]),
        (None, None, Some(-1), vec![9, 8, 7, 6, 5, 4, 3, 2, 1, 0]),
        (Some(8), Some(2), Some(-2), vec![8, 6, 4]),
        (Some(-1), Some(-11), Some(-1), vec![9, 8, 7, 6, 5, 4, 3, 2, 1, 0]),
        (Some(5), None, Some(-1), vec![5, 4, 3, 2, 1, 0]),
        (None, Some(3), Some(-1), vec![9, 8, 7, 6, 5, 4]),
        (Some(20), None, None, vec![]),
        (Some(-20), Some(3), None, vec![0, 1, 2]),
        (None, None, Some(-3), vec![9, 6, 3, 0]),
        (Some(3), Some(3), None, vec![]),
        (Some(1), Some(9), Some(3), vec![1, 4, 7]),
        (Some(-100), Some(100), Some(4), vec![0, 4, 8]),
    ];
    for (start, stop, step, expected) in cases {
        assert_eq!(morloc_slice(start, stop, step, &xs), expected, "{:?} {:?} {:?}", start, stop, step);
    }
}

#[test]
fn slice_of_empty_list() {
    let xs: Vec<i64> = vec![];
    assert_eq!(morloc_slice(None, None, None, &xs), Vec::<i64>::new());
    assert_eq!(morloc_slice(None, None, Some(-1), &xs), Vec::<i64>::new());
    assert_eq!(morloc_slice(Some(-1), Some(5), Some(2), &xs), Vec::<i64>::new());
}

#[test]
fn slice_with_huge_steps() {
    let xs = ten();
    assert_eq!(morloc_slice(None, None, Some(i64::MAX), &xs), vec![0]);
    assert_eq!(morloc_slice(None, None, Some(i64::MIN), &xs), vec![9]);
}
