use std::cmp::Ordering;

use android_localization::util::two_pointer_comparison;
use android_localization::util::two_pointer_traversal::{self, TraversalStep};

fn truncated(f: &f32) -> i32 {
    *f as i32
}

fn int_to_float(i: &i32, f: &f32) -> Ordering {
    i.cmp(&truncated(f))
}

fn float_to_int(f: &f32, i: &i32) -> Ordering {
    truncated(f).cmp(i)
}

/// The common items & the items only in either list, as a walk finds them
fn walk<A: Clone, B: Clone>(list1: &[A], list2: &[B], steps: &[TraversalStep]) -> (Vec<(A, B)>, Vec<A>, Vec<B>) {
    let mut common = vec![];
    let mut only_in_list1 = vec![];
    let mut only_in_list2 = vec![];
    for step in steps {
        match step {
            TraversalStep::Equal(i, j) => common.push((list1[*i].clone(), list2[*j].clone())),
            TraversalStep::ExtraInList1(i) => only_in_list1.push(list1[*i].clone()),
            TraversalStep::ExtraInList2(j) => only_in_list2.push(list2[*j].clone()),
        }
    }
    (common, only_in_list1, only_in_list2)
}

#[test]
fn compares_with_smallest_list1() {
    let list1: Vec<i32> = vec![1, 2, 3, 4, 5, 6, 7, 8];
    let list2: Vec<f32> = vec![3.0, 6.0, 8.0];

    let results: Vec<(i32, f32)> = two_pointer_comparison::compare(&list1, &list2, int_to_float)
        .into_iter()
        .map(|(a, b)| (list1[a], list2[b]))
        .collect();

    assert_eq!(results, vec![(3, 3.0), (6, 6.0), (8, 8.0)])
}

#[test]
fn compares_with_smallest_list2() {
    let list1: Vec<f32> = vec![3.0, 6.0, 8.0];
    let list2: Vec<i32> = vec![1, 2, 3, 4, 5, 6, 7, 8];

    let results: Vec<(f32, i32)> = two_pointer_comparison::compare(&list1, &list2, float_to_int)
        .into_iter()
        .map(|(a, b)| (list1[a], list2[b]))
        .collect();

    assert_eq!(results, vec![(3.0, 3), (6.0, 6), (8.0, 8)])
}

#[test]
fn common_and_extra_elements1() {
    let list1: Vec<i32> = vec![1, 2, 3, 4, 6, 7, 8];
    let list2: Vec<f32> = vec![-1.0, 3.0, 5.0, 8.0, 9.0];

    let steps = two_pointer_traversal::traverse(&list1, &list2, int_to_float);
    let (common, only_in_list1, only_in_list2) = walk(&list1, &list2, &steps);

    assert_eq!(common, vec![(3, 3.0), (8, 8.0)]);
    assert_eq!(only_in_list1, vec![1, 2, 4, 6, 7]);
    assert_eq!(only_in_list2, vec![-1.0, 5.0, 9.0])
}

#[test]
fn common_and_extra_elements2() {
    let list1: Vec<f32> = vec![-1.0, 3.0, 5.0, 8.0, 9.0];
    let list2: Vec<i32> = vec![1, 2, 3, 4, 6, 7, 8];

    let steps = two_pointer_traversal::traverse(&list1, &list2, float_to_int);
    let (common, only_in_list1, only_in_list2) = walk(&list1, &list2, &steps);

    assert_eq!(common, vec![(3.0, 3), (8.0, 8)]);
    assert_eq!(only_in_list1, vec![-1.0, 5.0, 9.0]);
    assert_eq!(only_in_list2, vec![1, 2, 4, 6, 7])
}

#[test]
fn only_common_elements() {
    let list1: Vec<i32> = vec![1, 2, 3];
    let list2: Vec<f32> = vec![1.0, 2.0, 3.0];

    let steps = two_pointer_traversal::traverse(&list1, &list2, int_to_float);
    let (common, only_in_list1, only_in_list2) = walk(&list1, &list2, &steps);

    assert_eq!(common, vec![(1, 1.0), (2, 2.0), (3, 3.0)]);
    assert_eq!(only_in_list1, Vec::<i32>::new());
    assert_eq!(only_in_list2, Vec::<f32>::new())
}

#[test]
fn only_extra_elements() {
    let list1: Vec<i32> = vec![1, 2, 3];
    let list2: Vec<f32> = vec![4.0, 5.0, 6.0];

    let steps = two_pointer_traversal::traverse(&list1, &list2, int_to_float);
    let (common, only_in_list1, only_in_list2) = walk(&list1, &list2, &steps);

    assert_eq!(common, Vec::<(i32, f32)>::new());
    assert_eq!(only_in_list1, vec![1, 2, 3]);
    assert_eq!(only_in_list2, vec![4.0, 5.0, 6.0]);
}

#[test]
fn traversal_compare_gives_the_common_index_pairs() {
    let list1: Vec<i32> = vec![1, 3, 5];
    let list2: Vec<f32> = vec![3.0, 4.0, 5.0];
    assert_eq!(two_pointer_traversal::compare(&list1, &list2, int_to_float), vec![(1, 0), (2, 2)]);
}

#[test]
fn diff_gives_the_indices_only_in_either_list() {
    let list1: Vec<i32> = vec![1, 3, 5];
    let list2: Vec<f32> = vec![3.0, 4.0, 5.0, 9.0];
    assert_eq!(
        two_pointer_traversal::diff(&list1, &list2, int_to_float),
        (vec![0], vec![1, 3])
    );
}

#[test]
fn comparison_stops_when_either_list_runs_out() {
    let list1: Vec<i32> = vec![];
    let list2: Vec<f32> = vec![1.0, 2.0];
    assert!(two_pointer_comparison::compare(&list1, &list2, int_to_float).is_empty());
}

#[test]
fn both_walks_find_the_same_pairs() {
    let list1: Vec<i32> = vec![1, 3, 4, 6, 9];
    let list2: Vec<f32> = vec![2.0, 3.0, 6.0, 7.0, 9.0, 11.0];
    assert_eq!(
        two_pointer_comparison::compare(&list1, &list2, int_to_float),
        two_pointer_traversal::compare(&list1, &list2, int_to_float)
    );
    assert_eq!(two_pointer_comparison::compare(&list1, &list2, int_to_float), vec![(1, 1), (3, 2), (4, 4)]);
}

#[test]
fn traversal_names_each_item_once_in_order() {
    let list1: Vec<i32> = vec![1, 3, 5, 8];
    let list2: Vec<f32> = vec![2.0, 3.0, 8.0, 9.0];
    let steps = two_pointer_traversal::traverse(&list1, &list2, int_to_float);
    let mut indices1 = vec![];
    let mut indices2 = vec![];
    for step in &steps {
        match step {
            TraversalStep::Equal(i, j) => {
                indices1.push(*i);
                indices2.push(*j);
            }
            TraversalStep::ExtraInList1(i) => indices1.push(*i),
            TraversalStep::ExtraInList2(j) => indices2.push(*j),
        }
    }
    assert_eq!(indices1, vec![0, 1, 2, 3]);
    assert_eq!(indices2, vec![0, 1, 2, 3]);
    assert_eq!(two_pointer_traversal::compare(&list1, &list2, int_to_float), vec![(1, 1), (3, 2)]);
}
