//! Walking two sorted lists side by side to find their common items

use vstd::prelude::*;
use std::cmp::Ordering;

use crate::names::{lemma_name_order_strict, lemma_name_order_total, lemma_name_order_transitive, name_lt, name_order, Named};
use crate::ops::sort::is_strictly_sorted_by_name;

verus! {

/// An index pair as the walk reports it
pub open spec fn index_pair(i: int, j: int) -> (usize, usize) {
    (i as usize, j as usize)
}

/// The pairs of indices at which the walk finds equal items, starting from
/// `list1[i]` & `list2[j]`: on `Less` the walk moves on in `list1`, on
/// `Greater` in `list2` & on `Equal` in both. It stops when either list runs out
pub open spec fn matches_from<A, B>(list1: Seq<A>, list2: Seq<B>, ord: spec_fn(A, B) -> Ordering, i: int, j: int) -> Seq<(usize, usize)>
    decreases list1.len() + list2.len() - i - j,
{
    if i < 0 || j < 0 || i >= list1.len() || j >= list2.len() {
        Seq::empty()
    } else if ord(list1[i], list2[j]) == Ordering::Less {
        matches_from(list1, list2, ord, i + 1, j)
    } else if ord(list1[i], list2[j]) == Ordering::Greater {
        matches_from(list1, list2, ord, i, j + 1)
    } else {
        seq![index_pair(i, j)] + matches_from(list1, list2, ord, i + 1, j + 1)
    }
}

/// The pairs of indices of equal items that a walk over both lists finds
pub open spec fn matching_pairs<A, B>(list1: Seq<A>, list2: Seq<B>, ord: spec_fn(A, B) -> Ordering) -> Seq<(usize, usize)> {
    matches_from(list1, list2, ord, 0, 0)
}

/// How often the walk from `list1[i]` & `list2[j]` on compares two items:
/// once per step, as long as both lists have items left
pub open spec fn comparisons_from<A, B>(list1: Seq<A>, list2: Seq<B>, ord: spec_fn(A, B) -> Ordering, i: int, j: int) -> nat
    decreases list1.len() + list2.len() - i - j,
{
    if i < 0 || j < 0 || i >= list1.len() || j >= list2.len() {
        0
    } else if ord(list1[i], list2[j]) == Ordering::Less {
        1 + comparisons_from(list1, list2, ord, i + 1, j)
    } else if ord(list1[i], list2[j]) == Ordering::Greater {
        1 + comparisons_from(list1, list2, ord, i, j + 1)
    } else {
        1 + comparisons_from(list1, list2, ord, i + 1, j + 1)
    }
}

/// How often a walk over both lists compares two items
pub open spec fn comparisons<A, B>(list1: Seq<A>, list2: Seq<B>, ord: spec_fn(A, B) -> Ordering) -> nat {
    comparisons_from(list1, list2, ord, 0, 0)
}

proof fn lemma_comparisons_from_bounded<A, B>(list1: Seq<A>, list2: Seq<B>, ord: spec_fn(A, B) -> Ordering, i: int, j: int)
    requires
        0 <= i <= list1.len(),
        0 <= j <= list2.len(),
    ensures
        comparisons_from(list1, list2, ord, i, j) <= list1.len() + list2.len() - i - j,
    decreases list1.len() + list2.len() - i - j,
{
    if i < list1.len() && j < list2.len() {
        lemma_comparisons_from_bounded(list1, list2, ord, i + 1, j);
        lemma_comparisons_from_bounded(list1, list2, ord, i, j + 1);
        lemma_comparisons_from_bounded(list1, list2, ord, i + 1, j + 1);
    }
}

/// A walk over both lists compares items at most as often as the two lists
/// have items together
pub proof fn lemma_comparisons_bounded<A, B>(list1: Seq<A>, list2: Seq<B>, ord: spec_fn(A, B) -> Ordering)
    ensures
        comparisons(list1, list2, ord) <= list1.len() + list2.len(),
{
    lemma_comparisons_from_bounded(list1, list2, ord, 0, 0);
}

/// The walk reports only indices within the lists
pub proof fn lemma_matches_in_range<A, B>(list1: Seq<A>, list2: Seq<B>, ord: spec_fn(A, B) -> Ordering, i: int, j: int)
    requires
        list1.len() <= usize::MAX,
        list2.len() <= usize::MAX,
    ensures
        forall|m: int|
            0 <= m < matches_from(list1, list2, ord, i, j).len() ==> (#[trigger] matches_from(list1, list2, ord, i, j)[m]).0
                < list1.len() && matches_from(list1, list2, ord, i, j)[m].1 < list2.len(),
    decreases list1.len() + list2.len() - i - j,
{
    if !(i < 0 || j < 0 || i >= list1.len() || j >= list2.len()) {
        if ord(list1[i], list2[j]) == Ordering::Less {
            lemma_matches_in_range(list1, list2, ord, i + 1, j);
            assert(matches_from(list1, list2, ord, i, j) == matches_from(list1, list2, ord, i + 1, j));
        } else if ord(list1[i], list2[j]) == Ordering::Greater {
            lemma_matches_in_range(list1, list2, ord, i, j + 1);
            assert(matches_from(list1, list2, ord, i, j) == matches_from(list1, list2, ord, i, j + 1));
        } else {
            lemma_matches_in_range(list1, list2, ord, i + 1, j + 1);
            let rest = matches_from(list1, list2, ord, i + 1, j + 1);
            assert(index_pair(i, j).0 == i && index_pair(i, j).1 == j);
            assert forall|m: int| 0 <= m < matches_from(list1, list2, ord, i, j).len() implies
                (#[trigger] matches_from(list1, list2, ord, i, j)[m]).0 < list1.len()
                    && matches_from(list1, list2, ord, i, j)[m].1 < list2.len() by {
                if m > 0 {
                    assert(matches_from(list1, list2, ord, i, j)[m] == rest[m - 1]);
                }
            }
        }
    }
}

/// The walk decides by the orderings alone: two pairs of lists whose items
/// compare alike at every position give the same pairs
pub proof fn lemma_matches_agree<A, B, C, D>(
    list1: Seq<A>,
    list2: Seq<B>,
    ord: spec_fn(A, B) -> Ordering,
    other1: Seq<C>,
    other2: Seq<D>,
    other_ord: spec_fn(C, D) -> Ordering,
    i: int,
    j: int,
)
    requires
        list1.len() == other1.len(),
        list2.len() == other2.len(),
        forall|a: int, b: int|
            0 <= a < list1.len() && 0 <= b < list2.len() ==> ord(#[trigger] list1[a], #[trigger] list2[b])
                == other_ord(other1[a], other2[b]),
    ensures
        matches_from(list1, list2, ord, i, j) == matches_from(other1, other2, other_ord, i, j),
    decreases list1.len() + list2.len() - i - j,
{
    if !(i < 0 || j < 0 || i >= list1.len() || j >= list2.len()) {
        assert(ord(list1[i], list2[j]) == other_ord(other1[i], other2[j]));
        lemma_matches_agree(list1, list2, ord, other1, other2, other_ord, i + 1, j);
        lemma_matches_agree(list1, list2, ord, other1, other2, other_ord, i, j + 1);
        lemma_matches_agree(list1, list2, ord, other1, other2, other_ord, i + 1, j + 1);
    }
}

/// The ordering a comparator gives for two items (when it gives just one)
pub open spec fn comparison_outcome<A, B, C: Fn(&A, &B) -> Ordering>(comparator: C, a: A, b: B) -> Ordering {
    choose|o: Ordering| call_ensures(comparator, (&a, &b), o)
}

/// Walks both lists with a comparator whose outcomes `ord` describes
pub fn compare_by<A, B, C>(list1: &[A], list2: &[B], comparator: C, Ghost(ord): Ghost<spec_fn(A, B) -> Ordering>) -> (r: Vec<(usize, usize)>)
    where
        C: Fn(&A, &B) -> Ordering,
    requires
        forall|a: A, b: B| call_requires(comparator, (&a, &b)),
        forall|a: A, b: B, o: Ordering| call_ensures(comparator, (&a, &b), o) ==> o == ord(a, b),
    ensures
        r@ == matching_pairs(list1@, list2@, ord),
{
    let mut result = Vec::new();
    let mut i: usize = 0;
    let mut j: usize = 0;
    let ghost mut gi: int = 0;
    let ghost mut gj: int = 0;
    let ghost mut calls: nat = 0;
    assert(Seq::<(usize, usize)>::empty() + matches_from(list1@, list2@, ord, 0, 0) =~= matches_from(list1@, list2@, ord, 0, 0));
    while i < list1.len() && j < list2.len()
        invariant
            gi == i,
            gj == j,
            calls + comparisons_from(list1@, list2@, ord, gi, gj) == comparisons(list1@, list2@, ord),
            i <= list1@.len(),
            j <= list2@.len(),
            forall|a: A, b: B| call_requires(comparator, (&a, &b)),
            forall|a: A, b: B, o: Ordering| call_ensures(comparator, (&a, &b), o) ==> o == ord(a, b),
            matching_pairs(list1@, list2@, ord) == result@ + matches_from(list1@, list2@, ord, gi, gj),
        decreases list1@.len() + list2@.len() - gi - gj,
    {
        let ordering = comparator(&list1[i], &list2[j]);
        proof {
            calls = calls + 1;
        }
        match ordering {
            Ordering::Less => {
                i = i + 1;
                proof {
                    gi = gi + 1;
                }
            },
            Ordering::Greater => {
                j = j + 1;
                proof {
                    gj = gj + 1;
                }
            },
            Ordering::Equal => {
                let ghost before = result@;
                result.push((i, j));
                proof {
                    assert(index_pair(gi, gj) == (i, j));
                    assert(before.push((i, j)) + matches_from(list1@, list2@, ord, gi + 1, gj + 1)
                        =~= before + (seq![index_pair(gi, gj)] + matches_from(list1@, list2@, ord, gi + 1, gj + 1)));
                }
                i = i + 1;
                j = j + 1;
                proof {
                    gi = gi + 1;
                    gj = gj + 1;
                }
            },
        }
    }
    assert(result@ + Seq::<(usize, usize)>::empty() =~= result@);
    // the comparator was called once per comparison of the walk
    assert(calls == comparisons(list1@, list2@, ord));
    result
}

/// Items from `list1` & `list2` are compared against each other using the
/// comparator & the index pairs of the equal items are returned, in order.
///
/// This works under a couple of assumptions
///     - Lists are sorted
///     - No repetitions in the lists
pub fn compare<A, B, C>(list1: &[A], list2: &[B], comparator: C) -> (r: Vec<(usize, usize)>)
    where
        C: Fn(&A, &B) -> Ordering,
    requires
        forall|a: A, b: B| call_requires(comparator, (&a, &b)),
        forall|a: A, b: B, o1: Ordering, o2: Ordering|
            call_ensures(comparator, (&a, &b), o1) && call_ensures(comparator, (&a, &b), o2) ==> o1 == o2,
    ensures
        r@ == matching_pairs(list1@, list2@, |a: A, b: B| comparison_outcome(comparator, a, b)),
{
    let ghost ord = |a: A, b: B| comparison_outcome(comparator, a, b);
    assert forall|a: A, b: B, o: Ordering| call_ensures(comparator, (&a, &b), o) implies o == ord(a, b) by {
        let c = choose|c: Ordering| call_ensures(comparator, (&a, &b), c);
        assert(call_ensures(comparator, (&a, &b), c));
    }
    compare_by(list1, list2, comparator, Ghost(ord))
}

proof fn lemma_matches_by_name_from<A: Named, B: Named>(list1: Seq<A>, list2: Seq<B>, i: int, j: int)
    requires
        is_strictly_sorted_by_name(list1),
        is_strictly_sorted_by_name(list2),
        list1.len() <= usize::MAX,
        list2.len() <= usize::MAX,
        0 <= i <= list1.len(),
        0 <= j <= list2.len(),
    ensures
        forall|a: int, b: int|
            0 <= a < list1.len() && 0 <= b < list2.len() ==> (#[trigger] matches_from(list1, list2, name_order(), i, j).contains(
                index_pair(a, b),
            ) <==> (i <= a && j <= b && list1[a].name_view() == list2[b].name_view())),
    decreases list1.len() + list2.len() - i - j,
{
    let ord = name_order::<A, B>();
    let found = matches_from(list1, list2, ord, i, j);
    if i < list1.len() && j < list2.len() {
        let (x, y) = (list1[i].name_view(), list2[j].name_view());
        lemma_name_order_total(x, y);
        lemma_name_order_strict(x, y);
        let (ni, nj) = if name_lt(x, y) {
            (i + 1, j)
        } else if name_lt(y, x) {
            (i, j + 1)
        } else {
            (i + 1, j + 1)
        };
        let rest = matches_from(list1, list2, ord, ni, nj);
        lemma_matches_by_name_from(list1, list2, ni, nj);
        assert forall|a: int, b: int| 0 <= a < list1.len() && 0 <= b < list2.len() implies (#[trigger] found.contains(
            index_pair(a, b),
        ) <==> (i <= a && j <= b && list1[a].name_view() == list2[b].name_view())) by {
            if i <= a && j <= b {
                if a > i {
                    assert(name_lt(x, list1[a].name_view()));
                    lemma_name_order_strict(x, list1[a].name_view());
                }
                if b > j {
                    assert(name_lt(y, list2[b].name_view()));
                    lemma_name_order_strict(y, list2[b].name_view());
                }
                if a > i && name_lt(y, x) {
                    lemma_name_order_transitive(y, x, list1[a].name_view());
                    lemma_name_order_strict(y, list1[a].name_view());
                }
                if b > j && name_lt(x, y) {
                    lemma_name_order_transitive(x, y, list2[b].name_view());
                    lemma_name_order_strict(x, list2[b].name_view());
                }
            }
            if name_lt(x, y) || name_lt(y, x) {
                assert(found == rest);
            } else {
                assert(found == seq![index_pair(i, j)] + rest);
                if rest.contains(index_pair(a, b)) {
                    let m = choose|m: int| 0 <= m < rest.len() && rest[m] == index_pair(a, b);
                    assert(found[m + 1] == rest[m]);
                }
                if found.contains(index_pair(a, b)) {
                    let m = choose|m: int| 0 <= m < found.len() && found[m] == index_pair(a, b);
                    if m > 0 {
                        assert(rest[m - 1] == found[m]);
                    } else {
                        assert(a == i && b == j);
                    }
                }
                if a == i && b == j {
                    assert(found[0] == index_pair(i, j));
                }
            }
        }
    }
}

/// On lists sorted by name without repeated names, the walk finds exactly the
/// pairs of items of the same name
pub proof fn lemma_matches_by_name<A: Named, B: Named>(list1: Seq<A>, list2: Seq<B>)
    requires
        is_strictly_sorted_by_name(list1),
        is_strictly_sorted_by_name(list2),
        list1.len() <= usize::MAX,
        list2.len() <= usize::MAX,
    ensures
        forall|a: int, b: int|
            0 <= a < list1.len() && 0 <= b < list2.len() ==> (#[trigger] matching_pairs(list1, list2, name_order()).contains(
                index_pair(a, b),
            ) <==> list1[a].name_view() == list2[b].name_view()),
{
    lemma_matches_by_name_from(list1, list2, 0, 0);
}

} // verus!
