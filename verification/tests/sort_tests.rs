use mathkit::sort::bubble;
use mathkit::sort::bubble_inplace;
use mathkit::sort::insertion;
use mathkit::sort::insertion_inplace;
use mathkit::sort::selection;
use mathkit::sort::selection_inplace;

#[test]
fn bubble_test() {
    let vec = vec![22, -31, 678, -131, 43, 7, -2];
    let mut sorted_vec = vec.clone();
    sorted_vec.sort();
    let my_sorted_vec = bubble(&vec);
    assert_eq!(my_sorted_vec, sorted_vec);
}

#[test]
fn selection_test() {
    let vec = vec![22, -31, 678, -131, 43, 7, -2];
    let mut sorted_vec = vec.clone();
    sorted_vec.sort();
    let my_sorted_vec = selection(&vec);
    assert_eq!(my_sorted_vec, sorted_vec);
}

#[test]
fn insertion_test() {
    let vec = vec![22, -31, 678, -131, 43, 7, -2];
    let mut sorted_vec = vec.clone();
    sorted_vec.sort();
    let my_sorted_vec = insertion(&vec);
    assert_eq!(my_sorted_vec, sorted_vec);
}

#[test]
fn all_sorters_agree_on_exact_result() {
    let vec = vec![22, -31, 678, -131, 43, 7, -2];
    let expected = vec![-131, -31, -2, 7, 22, 43, 678];
    assert_eq!(bubble(&vec), expected);
    assert_eq!(selection(&vec), expected);
    assert_eq!(insertion(&vec), expected);
}

#[test]
fn inplace_variants_sort() {
    let mut a = vec![5, 3, 9, 1, 1, -4];
    bubble_inplace(&mut a);
    assert_eq!(a, vec![-4, 1, 1, 3, 5, 9]);

    let mut b = vec![5, 3, 9, 1, 1, -4];
    selection_inplace(&mut b);
    assert_eq!(b, vec![-4, 1, 1, 3, 5, 9]);

    let mut c = vec![5, 3, 9, 1, 1, -4];
    insertion_inplace(&mut c);
    assert_eq!(c, vec![-4, 1, 1, 3, 5, 9]);
}

#[test]
fn empty_and_single_element_are_unchanged() {
    let empty: Vec<i64> = vec![];
    assert_eq!(bubble(&empty), empty);
    assert_eq!(selection(&empty), empty);
    assert_eq!(insertion(&empty), empty);

    let single = vec![42];
    assert_eq!(bubble(&single), single);
    assert_eq!(selection(&single), single);
    assert_eq!(insertion(&single), single);

    let mut e: Vec<i64> = vec![];
    bubble_inplace(&mut e);
    assert_eq!(e, Vec::<i64>::new());
    selection_inplace(&mut e);
    assert_eq!(e, Vec::<i64>::new());
    insertion_inplace(&mut e);
    assert_eq!(e, Vec::<i64>::new());

    let mut s = vec![7];
    bubble_inplace(&mut s);
    selection_inplace(&mut s);
    insertion_inplace(&mut s);
    assert_eq!(s, vec![7]);
}

#[test]
fn sorting_twice_equals_sorting_once() {
    let vec = vec![10, -2, 10, 0, 3, -2];
    let once = bubble(&vec);
    assert_eq!(bubble(&once), once);
    let once = selection(&vec);
    assert_eq!(selection(&once), once);
    let once = insertion(&vec);
    assert_eq!(insertion(&once), once);
}

#[test]
fn copying_variants_leave_input_untouched() {
    let vec = vec![3, 1, 2];
    let _ = bubble(&vec);
    assert_eq!(vec, vec![3, 1, 2]);
    let _ = selection(&vec);
    assert_eq!(vec, vec![3, 1, 2]);
    let _ = insertion(&vec);
    assert_eq!(vec, vec![3, 1, 2]);
}

#[test]
fn extreme_values_sort() {
    let vec = vec![i64::MAX, 0, i64::MIN, -1, 1];
    let expected = vec![i64::MIN, -1, 0, 1, i64::MAX];
    assert_eq!(bubble(&vec), expected);
    assert_eq!(selection(&vec), expected);
    assert_eq!(insertion(&vec), expected);
}

#[test]
fn already_sorted_and_reversed_inputs() {
    let sorted = vec![-5, 0, 0, 2, 9];
    assert_eq!(bubble(&sorted), sorted);
    assert_eq!(selection(&sorted), sorted);
    assert_eq!(insertion(&sorted), sorted);

    let reversed = vec![9, 2, 0, 0, -5];
    assert_eq!(bubble(&reversed), sorted);
    assert_eq!(selection(&reversed), sorted);
    assert_eq!(insertion(&reversed), sorted);
}
