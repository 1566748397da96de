use langbench::kernel::{merge, merge_sort, parse_positive};

#[test]
fn merge_sort_sorts_the_whole_buffer() {
    let mut v = vec![5, -3, 9, 0, 9, -7, 2, 1];
    let n = v.len();
    merge_sort(&mut v, 0, n - 1);
    assert_eq!(v, [-7, -3, 0, 1, 2, 5, 9, 9]);
}

#[test]
fn merge_sort_touches_only_its_segment() {
    let mut v = vec![9, 8, 7, 6, 5, 4];
    merge_sort(&mut v, 1, 4);
    assert_eq!(v, [9, 5, 6, 7, 8, 4]);
}

#[test]
fn an_empty_or_single_segment_is_left_alone() {
    let mut v = vec![3, 1, 2];
    merge_sort(&mut v, 2, 2);
    merge_sort(&mut v, 2, 1);
    assert_eq!(v, [3, 1, 2]);
}

#[test]
fn merge_interleaves_two_sorted_runs_and_prefers_the_left_on_a_tie() {
    let mut v = vec![100, 1, 4, 4, 2, 4, 5, -100];
    merge(&mut v, 1, 3, 6);
    assert_eq!(v, [100, 1, 2, 4, 4, 4, 5, -100]);
}

#[test]
fn extreme_values_sort_without_overflow() {
    let mut v = vec![i32::MAX, i32::MIN, 0, i32::MIN, i32::MAX];
    merge_sort(&mut v, 0, 4);
    assert_eq!(v, [i32::MIN, i32::MIN, 0, i32::MAX, i32::MAX]);
}

#[test]
fn a_kernel_size_is_a_positive_integer() {
    assert_eq!(parse_positive("4096"), Some(4096));
    assert_eq!(parse_positive("+7"), Some(7));
    assert_eq!(parse_positive("0"), None);
    assert_eq!(parse_positive("-1"), None);
    assert_eq!(parse_positive("4294967296"), None);
    assert_eq!(parse_positive("4294967295"), Some(4294967295));
    assert_eq!(parse_positive("12a"), None);
    assert_eq!(parse_positive(""), None);
}
