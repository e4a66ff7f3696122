//! Walking two sorted lists side by side to find their common & extra items

use vstd::prelude::*;
use std::cmp::Ordering;

use crate::names::{lemma_name_order_strict, lemma_name_order_total, lemma_name_order_transitive, name_lt, name_order, Named};
use crate::ops::sort::is_strictly_sorted_by_name;
use crate::util::two_pointer_comparison::{
    comparison_outcome, comparisons, comparisons_from, index_pair, matches_from, matching_pairs,
};

verus! {

/// One step of a walk over two lists
#[derive(Clone, Copy, Debug, PartialEq, Eq)]
pub enum TraversalStep {
    /// `list1[.0]` & `list2[.1]` are equal
    Equal(usize, usize),
    /// `list1[.0]` has no equal in `list2`
    ExtraInList1(usize),
    /// `list2[.0]` has no equal in `list1`
    ExtraInList2(usize),
}

pub open spec fn equal_step(i: int, j: int) -> TraversalStep {
    TraversalStep::Equal(i as usize, j as usize)
}

pub open spec fn extra1_step(i: int) -> TraversalStep {
    TraversalStep::ExtraInList1(i as usize)
}

pub open spec fn extra2_step(j: int) -> TraversalStep {
    TraversalStep::ExtraInList2(j as usize)
}

/// The steps of the walk from `list1[i]` & `list2[j]` on. Once a list has run
/// out, the rest of the other one is extra
pub open spec fn steps_from<A, B>(list1: Seq<A>, list2: Seq<B>, ord: spec_fn(A, B) -> Ordering, i: int, j: int) -> Seq<TraversalStep>
    decreases list1.len() + list2.len() - i - j,
{
    if i < 0 || j < 0 || i > list1.len() || j > list2.len() || (i == list1.len() && j == list2.len()) {
        Seq::empty()
    } else if j >= list2.len() || (i < list1.len() && ord(list1[i], list2[j]) == Ordering::Less) {
        seq![extra1_step(i)] + steps_from(list1, list2, ord, i + 1, j)
    } else if i >= list1.len() || ord(list1[i], list2[j]) == Ordering::Greater {
        seq![extra2_step(j)] + steps_from(list1, list2, ord, i, j + 1)
    } else {
        seq![equal_step(i, j)] + steps_from(list1, list2, ord, i + 1, j + 1)
    }
}

/// All the steps of the walk over both lists
pub open spec fn traversal_steps<A, B>(list1: Seq<A>, list2: Seq<B>, ord: spec_fn(A, B) -> Ordering) -> Seq<TraversalStep> {
    steps_from(list1, list2, ord, 0, 0)
}

/// Steps built from indices in range carry those indices
proof fn lemma_step_indices(i: int, j: int)
    requires
        0 <= i <= usize::MAX,
        0 <= j <= usize::MAX,
    ensures
        equal_step(i, j) == TraversalStep::Equal(i as usize, j as usize),
        (i as usize) as int == i,
        (j as usize) as int == j,
        extra1_step(i) == TraversalStep::ExtraInList1(i as usize),
        extra2_step(j) == TraversalStep::ExtraInList2(j as usize),
{
}

/// Every step of a walk names only indices within the lists
pub open spec fn steps_in_range(steps: Seq<TraversalStep>, len1: nat, len2: nat) -> bool {
    forall|m: int| 0 <= m < steps.len() ==> match #[trigger] steps[m] {
        TraversalStep::Equal(i, j) => i < len1 && j < len2,
        TraversalStep::ExtraInList1(i) => i < len1,
        TraversalStep::ExtraInList2(j) => j < len2,
    }
}

/// The walk reports only indices within the lists
pub proof fn lemma_steps_in_range<A, B>(list1: Seq<A>, list2: Seq<B>, ord: spec_fn(A, B) -> Ordering, i: int, j: int)
    requires
        list1.len() <= usize::MAX,
        list2.len() <= usize::MAX,
    ensures
        steps_in_range(steps_from(list1, list2, ord, i, j), list1.len(), list2.len()),
    decreases list1.len() + list2.len() - i - j,
{
    let s = steps_from(list1, list2, ord, i, j);
    if i < 0 || j < 0 || i > list1.len() || j > list2.len() || (i == list1.len() && j == list2.len()) {
    } else if j >= list2.len() || (i < list1.len() && ord(list1[i], list2[j]) == Ordering::Less) {
        lemma_steps_in_range(list1, list2, ord, i + 1, j);
        let rest = steps_from(list1, list2, ord, i + 1, j);
        lemma_step_indices(i, j);
        assert forall|m: int| 0 <= m < s.len() implies match #[trigger] s[m] {
            TraversalStep::Equal(a, b) => a < list1.len() && b < list2.len(),
            TraversalStep::ExtraInList1(a) => a < list1.len(),
            TraversalStep::ExtraInList2(b) => b < list2.len(),
        } by {
            if m > 0 {
                assert(s[m] == rest[m - 1]);
            }
        }
    } else if i >= list1.len() || ord(list1[i], list2[j]) == Ordering::Greater {
        lemma_steps_in_range(list1, list2, ord, i, j + 1);
        let rest = steps_from(list1, list2, ord, i, j + 1);
        lemma_step_indices(i, j);
        assert forall|m: int| 0 <= m < s.len() implies match #[trigger] s[m] {
            TraversalStep::Equal(a, b) => a < list1.len() && b < list2.len(),
            TraversalStep::ExtraInList1(a) => a < list1.len(),
            TraversalStep::ExtraInList2(b) => b < list2.len(),
        } by {
            if m > 0 {
                assert(s[m] == rest[m - 1]);
            }
        }
    } else {
        lemma_steps_in_range(list1, list2, ord, i + 1, j + 1);
        let rest = steps_from(list1, list2, ord, i + 1, j + 1);
        lemma_step_indices(i, j);
        assert forall|m: int| 0 <= m < s.len() implies match #[trigger] s[m] {
            TraversalStep::Equal(a, b) => a < list1.len() && b < list2.len(),
            TraversalStep::ExtraInList1(a) => a < list1.len(),
            TraversalStep::ExtraInList2(b) => b < list2.len(),
        } by {
            if m > 0 {
                assert(s[m] == rest[m - 1]);
            }
        }
    }
}

/// The index pairs of the `Equal` steps
pub open spec fn equal_pairs(steps: Seq<TraversalStep>) -> Seq<(usize, usize)>
    decreases steps.len(),
{
    if steps.len() == 0 {
        Seq::empty()
    } else {
        match steps.last() {
            TraversalStep::Equal(i, j) => equal_pairs(steps.drop_last()).push((i, j)),
            _ => equal_pairs(steps.drop_last()),
        }
    }
}

/// The `Equal` pairs of two runs of steps are those of the first followed by
/// those of the second
proof fn lemma_equal_pairs_append(a: Seq<TraversalStep>, b: Seq<TraversalStep>)
    ensures
        equal_pairs(a + b) == equal_pairs(a) + equal_pairs(b),
    decreases b.len(),
{
    if b.len() == 0 {
        assert(a + b =~= a);
        assert(equal_pairs(a) + equal_pairs(b) =~= equal_pairs(a));
    } else {
        lemma_equal_pairs_append(a, b.drop_last());
        assert((a + b).drop_last() =~= a + b.drop_last());
        assert((a + b).last() == b.last());
        match b.last() {
            TraversalStep::Equal(i, j) => {
                assert(equal_pairs(a) + equal_pairs(b.drop_last()).push((i, j)) =~= (equal_pairs(a) + equal_pairs(
                    b.drop_last(),
                )).push((i, j)));
            },
            _ => {},
        }
    }
}

/// The `Equal` pairs of a run of steps that starts with one step
proof fn lemma_equal_pairs_first(step: TraversalStep, rest: Seq<TraversalStep>)
    ensures
        equal_pairs(seq![step] + rest) == match step {
            TraversalStep::Equal(i, j) => seq![(i, j)] + equal_pairs(rest),
            _ => equal_pairs(rest),
        },
{
    lemma_equal_pairs_append(seq![step], rest);
    let none = seq![step].drop_last();
    assert(none.len() == 0);
    assert(equal_pairs(none) =~= Seq::<(usize, usize)>::empty());
    assert(seq![step].last() == step);
    match step {
        TraversalStep::Equal(i, j) => {
            assert(equal_pairs(seq![step]) =~= seq![(i, j)]);
        },
        _ => {
            assert(equal_pairs(seq![step]) =~= Seq::<(usize, usize)>::empty());
            assert(Seq::<(usize, usize)>::empty() + equal_pairs(rest) =~= equal_pairs(rest));
        },
    }
}

proof fn lemma_walks_agree_from<A, B>(list1: Seq<A>, list2: Seq<B>, ord: spec_fn(A, B) -> Ordering, i: int, j: int)
    requires
        0 <= i <= list1.len(),
        0 <= j <= list2.len(),
    ensures
        equal_pairs(steps_from(list1, list2, ord, i, j)) == matches_from(list1, list2, ord, i, j),
    decreases list1.len() + list2.len() - i - j,
{
    if i == list1.len() && j == list2.len() {
        assert(equal_pairs(Seq::<TraversalStep>::empty()) =~= Seq::<(usize, usize)>::empty());
    } else if j >= list2.len() || (i < list1.len() && ord(list1[i], list2[j]) == Ordering::Less) {
        lemma_walks_agree_from(list1, list2, ord, i + 1, j);
        lemma_equal_pairs_first(extra1_step(i), steps_from(list1, list2, ord, i + 1, j));
        if j >= list2.len() {
            assert(matches_from(list1, list2, ord, i + 1, j) =~= Seq::<(usize, usize)>::empty());
        }
    } else if i >= list1.len() || ord(list1[i], list2[j]) == Ordering::Greater {
        lemma_walks_agree_from(list1, list2, ord, i, j + 1);
        lemma_equal_pairs_first(extra2_step(j), steps_from(list1, list2, ord, i, j + 1));
        if i >= list1.len() {
            assert(matches_from(list1, list2, ord, i, j + 1) =~= Seq::<(usize, usize)>::empty());
        }
    } else {
        lemma_walks_agree_from(list1, list2, ord, i + 1, j + 1);
        lemma_equal_pairs_first(equal_step(i, j), steps_from(list1, list2, ord, i + 1, j + 1));
        assert(equal_step(i, j) == TraversalStep::Equal(index_pair(i, j).0, index_pair(i, j).1));
    }
}

/// The walk that reports every step finds the same equal pairs as the walk
/// that reports only the equal pairs: `compare` of either module gives the same
/// pairs for the same lists & comparator
pub proof fn lemma_walks_agree<A, B>(list1: Seq<A>, list2: Seq<B>, ord: spec_fn(A, B) -> Ordering)
    ensures
        equal_pairs(traversal_steps(list1, list2, ord)) == matching_pairs(list1, list2, ord),
{
    lemma_walks_agree_from(list1, list2, ord, 0, 0);
}

/// The indices of the `ExtraInList1` steps
pub open spec fn extras_in_list1(steps: Seq<TraversalStep>) -> Seq<usize>
    decreases steps.len(),
{
    if steps.len() == 0 {
        Seq::empty()
    } else {
        match steps.last() {
            TraversalStep::ExtraInList1(i) => extras_in_list1(steps.drop_last()).push(i),
            _ => extras_in_list1(steps.drop_last()),
        }
    }
}

/// The indices of the `ExtraInList2` steps
pub open spec fn extras_in_list2(steps: Seq<TraversalStep>) -> Seq<usize>
    decreases steps.len(),
{
    if steps.len() == 0 {
        Seq::empty()
    } else {
        match steps.last() {
            TraversalStep::ExtraInList2(j) => extras_in_list2(steps.drop_last()).push(j),
            _ => extras_in_list2(steps.drop_last()),
        }
    }
}

/// Items from `list1` & `list2` are compared against each other using the
/// comparator (whose outcomes `ord` describes) & every step of the walk is
/// reported
pub fn traverse_by<A, B, C>(list1: &[A], list2: &[B], comparator: C, Ghost(ord): Ghost<spec_fn(A, B) -> Ordering>) -> (r: Vec<TraversalStep>)
    where
        C: Fn(&A, &B) -> Ordering,
    requires
        forall|a: A, b: B| call_requires(comparator, (&a, &b)),
        forall|a: A, b: B, o: Ordering| call_ensures(comparator, (&a, &b), o) ==> o == ord(a, b),
    ensures
        r@ == traversal_steps(list1@, list2@, ord),
{
    let mut steps = Vec::new();
    let mut i: usize = 0;
    let mut j: usize = 0;
    let ghost mut gi: int = 0;
    let ghost mut gj: int = 0;
    let ghost mut calls: nat = 0;
    assert(Seq::<TraversalStep>::empty() + steps_from(list1@, list2@, ord, 0, 0) =~= steps_from(list1@, list2@, ord, 0, 0));
    while i < list1.len() || j < list2.len()
        invariant
            gi == i,
            gj == j,
            calls + comparisons_from(list1@, list2@, ord, gi, gj) == comparisons(list1@, list2@, ord),
            i <= list1@.len(),
            j <= list2@.len(),
            forall|a: A, b: B| call_requires(comparator, (&a, &b)),
            forall|a: A, b: B, o: Ordering| call_ensures(comparator, (&a, &b), o) ==> o == ord(a, b),
            traversal_steps(list1@, list2@, ord) == steps@ + steps_from(list1@, list2@, ord, gi, gj),
        decreases list1@.len() + list2@.len() - gi - gj,
    {
        let ordering = if j >= list2.len() {
            Ordering::Less
        } else if i >= list1.len() {
            Ordering::Greater
        } else {
            proof {
                calls = calls + 1;
            }
            comparator(&list1[i], &list2[j])
        };
        let ghost before = steps@;
        match ordering {
            Ordering::Less => {
                steps.push(TraversalStep::ExtraInList1(i));
                proof {
                    assert(extra1_step(gi) == TraversalStep::ExtraInList1(i));
                    assert(before.push(TraversalStep::ExtraInList1(i)) + steps_from(list1@, list2@, ord, gi + 1, gj)
                        =~= before + (seq![extra1_step(gi)] + steps_from(list1@, list2@, ord, gi + 1, gj)));
                    gi = gi + 1;
                }
                i = i + 1;
            },
            Ordering::Greater => {
                steps.push(TraversalStep::ExtraInList2(j));
                proof {
                    assert(extra2_step(gj) == TraversalStep::ExtraInList2(j));
                    assert(before.push(TraversalStep::ExtraInList2(j)) + steps_from(list1@, list2@, ord, gi, gj + 1)
                        =~= before + (seq![extra2_step(gj)] + steps_from(list1@, list2@, ord, gi, gj + 1)));
                    gj = gj + 1;
                }
                j = j + 1;
            },
            Ordering::Equal => {
                steps.push(TraversalStep::Equal(i, j));
                proof {
                    assert(equal_step(gi, gj) == TraversalStep::Equal(i, j));
                    assert(before.push(TraversalStep::Equal(i, j)) + steps_from(list1@, list2@, ord, gi + 1, gj + 1)
                        =~= before + (seq![equal_step(gi, gj)] + steps_from(list1@, list2@, ord, gi + 1, gj + 1)));
                    gi = gi + 1;
                    gj = gj + 1;
                }
                i = i + 1;
                j = j + 1;
            },
        }
    }
    assert(steps@ + Seq::<TraversalStep>::empty() =~= steps@);
    // the comparator was called once per comparison of the walk
    assert(calls == comparisons(list1@, list2@, ord));
    steps
}

/// The outcomes `comparator` gives, when it gives one outcome per pair of items
proof fn lemma_outcomes_describe<A, B, C: Fn(&A, &B) -> Ordering>(comparator: C)
    requires
        forall|a: A, b: B, o1: Ordering, o2: Ordering|
            call_ensures(comparator, (&a, &b), o1) && call_ensures(comparator, (&a, &b), o2) ==> o1 == o2,
    ensures
        forall|a: A, b: B, o: Ordering| call_ensures(comparator, (&a, &b), o) ==> o == comparison_outcome(comparator, a, b),
{
    assert forall|a: A, b: B, o: Ordering| call_ensures(comparator, (&a, &b), o) implies o == comparison_outcome(comparator, a, b) by {
        let c = choose|c: Ordering| call_ensures(comparator, (&a, &b), c);
        assert(call_ensures(comparator, (&a, &b), c));
    }
}

/// Items from list1 & list2 are compared against each other using the
/// comparator & every step of the walk is reported: which items are equal &
/// which items of either list have no equal in the other.
///
/// This works under a couple of assumptions
///     - Lists are sorted
///     - No repetitions in the lists
pub fn traverse<A, B, C>(list1: &[A], list2: &[B], comparator: C) -> (r: Vec<TraversalStep>)
    where
        C: Fn(&A, &B) -> Ordering,
    requires
        forall|a: A, b: B| call_requires(comparator, (&a, &b)),
        forall|a: A, b: B, o1: Ordering, o2: Ordering|
            call_ensures(comparator, (&a, &b), o1) && call_ensures(comparator, (&a, &b), o2) ==> o1 == o2,
    ensures
        r@ == traversal_steps(list1@, list2@, |a: A, b: B| comparison_outcome(comparator, a, b)),
{
    proof {
        lemma_outcomes_describe(comparator);
    }
    traverse_by(list1, list2, comparator, Ghost(|a: A, b: B| comparison_outcome(comparator, a, b)))
}

/// The index pairs of the `Equal` steps, in order
pub fn equal_pairs_of(steps: &[TraversalStep]) -> (r: Vec<(usize, usize)>)
    ensures
        r@ == equal_pairs(steps@),
{
    let mut r = Vec::new();
    let mut k: usize = 0;
    assert(steps@.take(0) =~= Seq::<TraversalStep>::empty());
    while k < steps.len()
        invariant
            k <= steps@.len(),
            r@ == equal_pairs(steps@.take(k as int)),
        decreases steps@.len() - k,
    {
        assert(steps@.take(k + 1).drop_last() =~= steps@.take(k as int));
        match steps[k] {
            TraversalStep::Equal(i, j) => r.push((i, j)),
            _ => {},
        }
        k = k + 1;
    }
    assert(steps@.take(k as int) =~= steps@);
    r
}

/// The indices of the `ExtraInList1` & of the `ExtraInList2` steps, in order
pub fn extras_of(steps: &[TraversalStep]) -> (r: (Vec<usize>, Vec<usize>))
    ensures
        r.0@ == extras_in_list1(steps@),
        r.1@ == extras_in_list2(steps@),
{
    let mut extra1 = Vec::new();
    let mut extra2 = Vec::new();
    let mut k: usize = 0;
    assert(steps@.take(0) =~= Seq::<TraversalStep>::empty());
    while k < steps.len()
        invariant
            k <= steps@.len(),
            extra1@ == extras_in_list1(steps@.take(k as int)),
            extra2@ == extras_in_list2(steps@.take(k as int)),
        decreases steps@.len() - k,
    {
        assert(steps@.take(k + 1).drop_last() =~= steps@.take(k as int));
        match steps[k] {
            TraversalStep::ExtraInList1(i) => extra1.push(i),
            TraversalStep::ExtraInList2(j) => extra2.push(j),
            _ => {},
        }
        k = k + 1;
    }
    assert(steps@.take(k as int) =~= steps@);
    (extra1, extra2)
}

/// Look @ the docs for [traverse]: reports the index pairs of equal items
pub fn compare<A, B, C>(list1: &[A], list2: &[B], comparator: C) -> (r: Vec<(usize, usize)>)
    where
        C: Fn(&A, &B) -> Ordering,
    requires
        forall|a: A, b: B| call_requires(comparator, (&a, &b)),
        forall|a: A, b: B, o1: Ordering, o2: Ordering|
            call_ensures(comparator, (&a, &b), o1) && call_ensures(comparator, (&a, &b), o2) ==> o1 == o2,
    ensures
        r@ == equal_pairs(traversal_steps(list1@, list2@, |a: A, b: B| comparison_outcome(comparator, a, b))),
{
    let steps = traverse(list1, list2, comparator);
    equal_pairs_of(steps.as_slice())
}

/// Look @ the docs for [traverse]: reports the indices of the items of
/// `list1` that have no equal in `list2` & vice versa
pub fn diff<A, B, C>(list1: &[A], list2: &[B], comparator: C) -> (r: (Vec<usize>, Vec<usize>))
    where
        C: Fn(&A, &B) -> Ordering,
    requires
        forall|a: A, b: B| call_requires(comparator, (&a, &b)),
        forall|a: A, b: B, o1: Ordering, o2: Ordering|
            call_ensures(comparator, (&a, &b), o1) && call_ensures(comparator, (&a, &b), o2) ==> o1 == o2,
    ensures
        r.0@ == extras_in_list1(traversal_steps(list1@, list2@, |a: A, b: B| comparison_outcome(comparator, a, b))),
        r.1@ == extras_in_list2(traversal_steps(list1@, list2@, |a: A, b: B| comparison_outcome(comparator, a, b))),
{
    let steps = traverse(list1, list2, comparator);
    extras_of(steps.as_slice())
}

/// `lt` is a strict total order: irreflexive, transitive & total
pub open spec fn is_strict_total_order<K>(lt: spec_fn(K, K) -> bool) -> bool {
    &&& forall|x: K| !#[trigger] lt(x, x)
    &&& forall|x: K, y: K, z: K| #[trigger] lt(x, y) && #[trigger] lt(y, z) ==> lt(x, z)
    &&& forall|x: K, y: K| x != y ==> #[trigger] lt(x, y) || #[trigger] lt(y, x)
}

/// `ord` compares items by their keys: `Less` when the first key comes before
/// the second, `Equal` when they are the same, else `Greater`
pub open spec fn orders_by_keys<A, B, K>(
    ord: spec_fn(A, B) -> Ordering,
    k1: spec_fn(A) -> K,
    k2: spec_fn(B) -> K,
    lt: spec_fn(K, K) -> bool,
) -> bool {
    forall|a: A, b: B|
        #[trigger] ord(a, b) == if lt(k1(a), k2(b)) {
            Ordering::Less
        } else if k1(a) == k2(b) {
            Ordering::Equal
        } else {
            Ordering::Greater
        }
}

/// The keys of the items of a list strictly increase: the list is sorted with
/// no repetitions
pub open spec fn strictly_increasing<T, K>(list: Seq<T>, key: spec_fn(T) -> K, lt: spec_fn(K, K) -> bool) -> bool {
    forall|x: int, y: int| 0 <= x < y < list.len() ==> lt(key(#[trigger] list[x]), key(#[trigger] list[y]))
}

/// Two lists sorted without repetitions under a strict total order on keys,
/// & a comparator that compares by those keys
pub open spec fn walks_by_keys<A, B, K>(
    list1: Seq<A>,
    list2: Seq<B>,
    ord: spec_fn(A, B) -> Ordering,
    k1: spec_fn(A) -> K,
    k2: spec_fn(B) -> K,
    lt: spec_fn(K, K) -> bool,
) -> bool {
    &&& is_strict_total_order(lt)
    &&& orders_by_keys(ord, k1, k2, lt)
    &&& strictly_increasing(list1, k1, lt)
    &&& strictly_increasing(list2, k2, lt)
}

/// Whether some item of `list` from `j` on has the key `k`
pub open spec fn has_key_from<T, K>(list: Seq<T>, key: spec_fn(T) -> K, j: int, k: K) -> bool {
    exists|b: int| j <= b < list.len() && key(#[trigger] list[b]) == k
}

proof fn lemma_lt_strict<K>(lt: spec_fn(K, K) -> bool, a: K, b: K)
    requires
        is_strict_total_order(lt),
    ensures
        !lt(a, a),
        lt(a, b) ==> !lt(b, a) && a != b,
{
    assert(!lt(a, a));
    assert(!lt(b, b));
    if lt(a, b) && lt(b, a) {
        assert(lt(a, a));
    }
}

proof fn lemma_lt_total<K>(lt: spec_fn(K, K) -> bool, a: K, b: K)
    requires
        is_strict_total_order(lt),
    ensures
        a == b || lt(a, b) || lt(b, a),
{
}

proof fn lemma_lt_transitive<K>(lt: spec_fn(K, K) -> bool, a: K, b: K, c: K)
    requires
        is_strict_total_order(lt),
        lt(a, b),
        lt(b, c),
    ensures
        lt(a, c),
{
}

/// No item from `j` on carries a key that comes before the key of `list[j]`
proof fn lemma_no_smaller_key_from<T, K>(list: Seq<T>, key: spec_fn(T) -> K, lt: spec_fn(K, K) -> bool, j: int, k: K)
    requires
        is_strict_total_order(lt),
        strictly_increasing(list, key, lt),
        0 <= j < list.len(),
        lt(k, key(list[j])),
    ensures
        !has_key_from(list, key, j, k),
{
    assert forall|b: int| j <= b < list.len() implies key(#[trigger] list[b]) != k by {
        if b > j {
            assert(lt(key(list[j]), key(list[b])));
            lemma_lt_transitive(lt, k, key(list[j]), key(list[b]));
        }
        lemma_lt_strict(lt, k, key(list[b]));
    }
}

/// On lists whose names strictly increase, the walk from `list1[i]` &
/// `list2[j]` on finds as equal exactly the items of the same key, & as extra
/// exactly the items whose key the other list lacks (from there on)
proof fn lemma_walk_by_key_from<A, B, K>(
    list1: Seq<A>,
    list2: Seq<B>,
    ord: spec_fn(A, B) -> Ordering,
    k1: spec_fn(A) -> K,
    k2: spec_fn(B) -> K,
    lt: spec_fn(K, K) -> bool,
    i: int,
    j: int,
)
    requires
        walks_by_keys(list1, list2, ord, k1, k2, lt),
        list1.len() <= usize::MAX,
        list2.len() <= usize::MAX,
        0 <= i <= list1.len(),
        0 <= j <= list2.len(),
    ensures
        forall|a: int, b: int|
            0 <= a < list1.len() && 0 <= b < list2.len() ==> (#[trigger] steps_from(list1, list2, ord, i, j).contains(
                equal_step(a, b),
            ) <==> (i <= a && j <= b && k1(list1[a]) == k2(list2[b]))),
        forall|a: int|
            0 <= a < list1.len() ==> (#[trigger] steps_from(list1, list2, ord, i, j).contains(extra1_step(a))
                <==> (i <= a && !has_key_from(list2, k2, j, k1(list1[a])))),
        forall|b: int|
            0 <= b < list2.len() ==> (#[trigger] steps_from(list1, list2, ord, i, j).contains(extra2_step(b))
                <==> (j <= b && !has_key_from(list1, k1, i, k2(list2[b])))),
    decreases list1.len() + list2.len() - i - j, 1int,
{
    let steps = steps_from(list1, list2, ord, i, j);
    if i == list1.len() && j == list2.len() {
        assert(steps.len() == 0);
    } else {
        let in_1 = i < list1.len();
        let in_2 = j < list2.len();
        let takes_1 = !in_2 || (in_1 && lt(k1(list1[i]), k2(list2[j])));
        let takes_2 = !takes_1 && (!in_1 || lt(k2(list2[j]), k1(list1[i])));
        if in_1 && in_2 {
            lemma_lt_total(lt, k1(list1[i]), k2(list2[j]));
            lemma_lt_strict(lt, k1(list1[i]), k2(list2[j]));
        }
        if takes_1 {
            let rest = steps_from(list1, list2, ord, i + 1, j);
            lemma_walk_by_key_from(list1, list2, ord, k1, k2, lt, i + 1, j);
            assert(steps == seq![extra1_step(i)] + rest);
            if in_2 {
                lemma_no_smaller_key_from(list2, k2, lt, j, k1(list1[i]));
            }
            assert forall|a: int, b: int| 0 <= a < list1.len() && 0 <= b < list2.len() implies (#[trigger] steps.contains(
                equal_step(a, b),
            ) <==> (i <= a && j <= b && k1(list1[a]) == k2(list2[b]))) by {
                assert(steps.contains(equal_step(a, b)) <==> rest.contains(equal_step(a, b))) by {
                    if rest.contains(equal_step(a, b)) {
                        let m = choose|m: int| 0 <= m < rest.len() && rest[m] == equal_step(a, b);
                        assert(steps[m + 1] == rest[m]);
                    }
                    if steps.contains(equal_step(a, b)) {
                        let m = choose|m: int| 0 <= m < steps.len() && steps[m] == equal_step(a, b);
                        assert(m > 0);
                        assert(rest[m - 1] == steps[m]);
                    }
                }
                if a == i && j <= b {
                    assert(k2(list2[b]) != k1(list1[i]));
                }
            }
            assert forall|a: int| 0 <= a < list1.len() implies (#[trigger] steps.contains(extra1_step(a)) <==> (i <= a
                && !has_key_from(list2, k2, j, k1(list1[a])))) by {
                if a == i {
                    assert(steps[0] == extra1_step(i));
                } else {
                    assert(steps.contains(extra1_step(a)) <==> rest.contains(extra1_step(a))) by {
                        if rest.contains(extra1_step(a)) {
                            let m = choose|m: int| 0 <= m < rest.len() && rest[m] == extra1_step(a);
                            assert(steps[m + 1] == rest[m]);
                        }
                        if steps.contains(extra1_step(a)) {
                            let m = choose|m: int| 0 <= m < steps.len() && steps[m] == extra1_step(a);
                            if m == 0 {
                                assert(a == i);
                            } else {
                                assert(rest[m - 1] == steps[m]);
                            }
                        }
                    }
                }
            }
            assert forall|b: int| 0 <= b < list2.len() implies (#[trigger] steps.contains(extra2_step(b)) <==> (j <= b
                && !has_key_from(list1, k1, i, k2(list2[b])))) by {
                assert(steps.contains(extra2_step(b)) <==> rest.contains(extra2_step(b))) by {
                    if rest.contains(extra2_step(b)) {
                        let m = choose|m: int| 0 <= m < rest.len() && rest[m] == extra2_step(b);
                        assert(steps[m + 1] == rest[m]);
                    }
                    if steps.contains(extra2_step(b)) {
                        let m = choose|m: int| 0 <= m < steps.len() && steps[m] == extra2_step(b);
                        assert(m > 0);
                        assert(rest[m - 1] == steps[m]);
                    }
                }
                if j <= b {
                    assert(has_key_from(list1, k1, i, k2(list2[b])) <==> has_key_from(list1, k1, i + 1, k2(list2[b])))
                        by {
                        if has_key_from(list1, k1, i, k2(list2[b])) {
                            let a = choose|a: int| i <= a < list1.len() && k1(#[trigger] list1[a]) == k2(list2[b]);
                            assert(k2(list2[b]) != k1(list1[i]));
                            assert(a != i);
                        }
                    }
                }
            }
        } else if takes_2 {
            let rest = steps_from(list1, list2, ord, i, j + 1);
            lemma_walk_by_key_from(list1, list2, ord, k1, k2, lt, i, j + 1);
            assert(steps == seq![extra2_step(j)] + rest);
            if in_1 {
                lemma_no_smaller_key_from(list1, k1, lt, i, k2(list2[j]));
            }
            assert forall|a: int, b: int| 0 <= a < list1.len() && 0 <= b < list2.len() implies (#[trigger] steps.contains(
                equal_step(a, b),
            ) <==> (i <= a && j <= b && k1(list1[a]) == k2(list2[b]))) by {
                assert(steps.contains(equal_step(a, b)) <==> rest.contains(equal_step(a, b))) by {
                    if rest.contains(equal_step(a, b)) {
                        let m = choose|m: int| 0 <= m < rest.len() && rest[m] == equal_step(a, b);
                        assert(steps[m + 1] == rest[m]);
                    }
                    if steps.contains(equal_step(a, b)) {
                        let m = choose|m: int| 0 <= m < steps.len() && steps[m] == equal_step(a, b);
                        assert(m > 0);
                        assert(rest[m - 1] == steps[m]);
                    }
                }
                if b == j && i <= a {
                    assert(k1(list1[a]) != k2(list2[j]));
                }
            }
            assert forall|b: int| 0 <= b < list2.len() implies (#[trigger] steps.contains(extra2_step(b)) <==> (j <= b
                && !has_key_from(list1, k1, i, k2(list2[b])))) by {
                if b == j {
                    assert(steps[0] == extra2_step(j));
                } else {
                    assert(steps.contains(extra2_step(b)) <==> rest.contains(extra2_step(b))) by {
                        if rest.contains(extra2_step(b)) {
                            let m = choose|m: int| 0 <= m < rest.len() && rest[m] == extra2_step(b);
                            assert(steps[m + 1] == rest[m]);
                        }
                        if steps.contains(extra2_step(b)) {
                            let m = choose|m: int| 0 <= m < steps.len() && steps[m] == extra2_step(b);
                            if m == 0 {
                                assert(b == j);
                            } else {
                                assert(rest[m - 1] == steps[m]);
                            }
                        }
                    }
                }
            }
            assert forall|a: int| 0 <= a < list1.len() implies (#[trigger] steps.contains(extra1_step(a)) <==> (i <= a
                && !has_key_from(list2, k2, j, k1(list1[a])))) by {
                assert(steps.contains(extra1_step(a)) <==> rest.contains(extra1_step(a))) by {
                    if rest.contains(extra1_step(a)) {
                        let m = choose|m: int| 0 <= m < rest.len() && rest[m] == extra1_step(a);
                        assert(steps[m + 1] == rest[m]);
                    }
                    if steps.contains(extra1_step(a)) {
                        let m = choose|m: int| 0 <= m < steps.len() && steps[m] == extra1_step(a);
                        assert(m > 0);
                        assert(rest[m - 1] == steps[m]);
                    }
                }
                if i <= a {
                    assert(has_key_from(list2, k2, j, k1(list1[a])) <==> has_key_from(list2, k2, j + 1, k1(list1[a])))
                        by {
                        if has_key_from(list2, k2, j, k1(list1[a])) {
                            let b = choose|b: int| j <= b < list2.len() && k2(#[trigger] list2[b]) == k1(list1[a]);
                            assert(k1(list1[a]) != k2(list2[j]));
                            assert(b != j);
                        }
                    }
                }
            }
        } else {
            lemma_walk_by_key_equal_step(list1, list2, ord, k1, k2, lt, i, j);
        }
    }
}

/// The equal step of the walk, for `lemma_walk_by_key_from`
proof fn lemma_walk_by_key_equal_step<A, B, K>(
    list1: Seq<A>,
    list2: Seq<B>,
    ord: spec_fn(A, B) -> Ordering,
    k1: spec_fn(A) -> K,
    k2: spec_fn(B) -> K,
    lt: spec_fn(K, K) -> bool,
    i: int,
    j: int,
)
    requires
        walks_by_keys(list1, list2, ord, k1, k2, lt),
        list1.len() <= usize::MAX,
        list2.len() <= usize::MAX,
        0 <= i < list1.len(),
        0 <= j < list2.len(),
        k1(list1[i]) == k2(list2[j]),
    ensures
        forall|a: int, b: int|
            0 <= a < list1.len() && 0 <= b < list2.len() ==> (#[trigger] steps_from(list1, list2, ord, i, j).contains(
                equal_step(a, b),
            ) <==> (i <= a && j <= b && k1(list1[a]) == k2(list2[b]))),
        forall|a: int|
            0 <= a < list1.len() ==> (#[trigger] steps_from(list1, list2, ord, i, j).contains(extra1_step(a))
                <==> (i <= a && !has_key_from(list2, k2, j, k1(list1[a])))),
        forall|b: int|
            0 <= b < list2.len() ==> (#[trigger] steps_from(list1, list2, ord, i, j).contains(extra2_step(b))
                <==> (j <= b && !has_key_from(list1, k1, i, k2(list2[b])))),
    decreases list1.len() + list2.len() - i - j, 0int,
{
    let steps = steps_from(list1, list2, ord, i, j);
    let rest = steps_from(list1, list2, ord, i + 1, j + 1);
    lemma_lt_strict(lt, k1(list1[i]), k2(list2[j]));
    lemma_walk_by_key_from(list1, list2, ord, k1, k2, lt, i + 1, j + 1);
    assert(steps == seq![equal_step(i, j)] + rest);
    let key = k1(list1[i]);
    assert forall|a: int, b: int| 0 <= a < list1.len() && 0 <= b < list2.len() implies (#[trigger] steps.contains(
        equal_step(a, b),
    ) <==> (i <= a && j <= b && k1(list1[a]) == k2(list2[b]))) by {
        if a == i && b == j {
            assert(steps[0] == equal_step(i, j));
        } else {
            assert(steps.contains(equal_step(a, b)) <==> rest.contains(equal_step(a, b))) by {
                if rest.contains(equal_step(a, b)) {
                    let m = choose|m: int| 0 <= m < rest.len() && rest[m] == equal_step(a, b);
                    assert(steps[m + 1] == rest[m]);
                }
                if steps.contains(equal_step(a, b)) {
                    let m = choose|m: int| 0 <= m < steps.len() && steps[m] == equal_step(a, b);
                    if m == 0 {
                        assert(a == i && b == j);
                    } else {
                        assert(rest[m - 1] == steps[m]);
                    }
                }
            }
            if a == i && b > j {
                assert(lt(k2(list2[j]), k2(list2[b])));
                lemma_lt_strict(lt, k2(list2[j]), k2(list2[b]));
            }
            if b == j && a > i {
                assert(lt(k1(list1[i]), k1(list1[a])));
                lemma_lt_strict(lt, k1(list1[i]), k1(list1[a]));
            }
        }
    }
    assert forall|a: int| 0 <= a < list1.len() implies (#[trigger] steps.contains(extra1_step(a)) <==> (i <= a
        && !has_key_from(list2, k2, j, k1(list1[a])))) by {
        assert(steps.contains(extra1_step(a)) <==> rest.contains(extra1_step(a))) by {
            if rest.contains(extra1_step(a)) {
                let m = choose|m: int| 0 <= m < rest.len() && rest[m] == extra1_step(a);
                assert(steps[m + 1] == rest[m]);
            }
            if steps.contains(extra1_step(a)) {
                let m = choose|m: int| 0 <= m < steps.len() && steps[m] == extra1_step(a);
                assert(m > 0);
                assert(rest[m - 1] == steps[m]);
            }
        }
        if a == i {
            assert(k2(list2[j]) == k1(list1[a]));
        } else if a > i {
            assert(lt(key, k1(list1[a])));
            lemma_lt_strict(lt, key, k1(list1[a]));
            assert(has_key_from(list2, k2, j, k1(list1[a])) <==> has_key_from(list2, k2, j + 1, k1(list1[a]))) by {
                if has_key_from(list2, k2, j, k1(list1[a])) {
                    let b = choose|b: int| j <= b < list2.len() && k2(#[trigger] list2[b]) == k1(list1[a]);
                    assert(b != j);
                }
            }
        }
    }
    assert forall|b: int| 0 <= b < list2.len() implies (#[trigger] steps.contains(extra2_step(b)) <==> (j <= b
        && !has_key_from(list1, k1, i, k2(list2[b])))) by {
        assert(steps.contains(extra2_step(b)) <==> rest.contains(extra2_step(b))) by {
            if rest.contains(extra2_step(b)) {
                let m = choose|m: int| 0 <= m < rest.len() && rest[m] == extra2_step(b);
                assert(steps[m + 1] == rest[m]);
            }
            if steps.contains(extra2_step(b)) {
                let m = choose|m: int| 0 <= m < steps.len() && steps[m] == extra2_step(b);
                assert(m > 0);
                assert(rest[m - 1] == steps[m]);
            }
        }
        if b == j {
            assert(k1(list1[i]) == k2(list2[b]));
        } else if b > j {
            assert(lt(key, k2(list2[b])));
            lemma_lt_strict(lt, key, k2(list2[b]));
            assert(has_key_from(list1, k1, i, k2(list2[b])) <==> has_key_from(list1, k1, i + 1, k2(list2[b]))) by {
                if has_key_from(list1, k1, i, k2(list2[b])) {
                    let a = choose|a: int| i <= a < list1.len() && k1(#[trigger] list1[a]) == k2(list2[b]);
                    assert(a != i);
                }
            }
        }
    }
}

/// The steps name every item of `list1` exactly once, in order
pub open spec fn list1_indices(steps: Seq<TraversalStep>) -> Seq<usize>
    decreases steps.len(),
{
    if steps.len() == 0 {
        Seq::empty()
    } else {
        match steps[0] {
            TraversalStep::Equal(i, _) => seq![i] + list1_indices(steps.drop_first()),
            TraversalStep::ExtraInList1(i) => seq![i] + list1_indices(steps.drop_first()),
            TraversalStep::ExtraInList2(_) => list1_indices(steps.drop_first()),
        }
    }
}

/// The indices of the items of `list2` that the steps name, in order
pub open spec fn list2_indices(steps: Seq<TraversalStep>) -> Seq<usize>
    decreases steps.len(),
{
    if steps.len() == 0 {
        Seq::empty()
    } else {
        match steps[0] {
            TraversalStep::Equal(_, j) => seq![j] + list2_indices(steps.drop_first()),
            TraversalStep::ExtraInList2(j) => seq![j] + list2_indices(steps.drop_first()),
            TraversalStep::ExtraInList1(_) => list2_indices(steps.drop_first()),
        }
    }
}

/// The indices from `start` up to (not including) `end`, in order
pub open spec fn indices_from(start: int, end: nat) -> Seq<usize> {
    Seq::new((end - start) as nat, |k: int| (start + k) as usize)
}

/// The index `i`, as the steps carry it
pub open spec fn step_index(i: int) -> usize {
    i as usize
}

/// No indices are left from the end on; else the first one comes first
proof fn lemma_indices_from_unfold(start: int, end: nat)
    requires
        0 <= start <= end,
    ensures
        start == end ==> indices_from(start, end) == Seq::<usize>::empty(),
        start < end ==> indices_from(start, end) == seq![step_index(start)] + indices_from(start + 1, end),
{
    if start == end {
        assert(indices_from(start, end) =~= Seq::<usize>::empty());
    } else {
        assert(indices_from(start, end) =~= seq![step_index(start)] + indices_from(start + 1, end));
    }
}

proof fn lemma_walk_visits_each_item_once_from<A, B>(
    list1: Seq<A>,
    list2: Seq<B>,
    ord: spec_fn(A, B) -> Ordering,
    i: int,
    j: int,
)
    requires
        0 <= i <= list1.len(),
        0 <= j <= list2.len(),
    ensures
        list1_indices(steps_from(list1, list2, ord, i, j)) == indices_from(i, list1.len()),
        list2_indices(steps_from(list1, list2, ord, i, j)) == indices_from(j, list2.len()),
    decreases list1.len() + list2.len() - i - j,
{
    let steps = steps_from(list1, list2, ord, i, j);
    lemma_indices_from_unfold(i, list1.len());
    lemma_indices_from_unfold(j, list2.len());
    if i == list1.len() && j == list2.len() {
    } else {
        let (ni, nj) = if j >= list2.len() || (i < list1.len() && ord(list1[i], list2[j]) == Ordering::Less) {
            (i + 1, j)
        } else if i >= list1.len() || ord(list1[i], list2[j]) == Ordering::Greater {
            (i, j + 1)
        } else {
            (i + 1, j + 1)
        };
        lemma_walk_visits_each_item_once_from(list1, list2, ord, ni, nj);
        let rest = steps_from(list1, list2, ord, ni, nj);
        assert(steps.drop_first() =~= rest);
    }
}

/// Whatever the comparator, the walk names every item of either list exactly
/// once, in the order of the list (as equal to an item of the other list, or
/// as extra)
pub proof fn lemma_walk_visits_each_item_once<A, B>(list1: Seq<A>, list2: Seq<B>, ord: spec_fn(A, B) -> Ordering)
    ensures
        list1_indices(traversal_steps(list1, list2, ord)) == indices_from(0, list1.len()),
        list2_indices(traversal_steps(list1, list2, ord)) == indices_from(0, list2.len()),
{
    lemma_walk_visits_each_item_once_from(list1, list2, ord, 0, 0);
}

/// On lists sorted without repetitions under a strict total order on keys, with
/// a comparator that compares by those keys, the walk finds as equal exactly
/// the pairs of items with the same key, & as extra exactly the items whose key
/// the other list lacks (each item is named once, in order: see
/// `lemma_walk_visits_each_item_once`)
pub proof fn lemma_walk_by_key<A, B, K>(
    list1: Seq<A>,
    list2: Seq<B>,
    ord: spec_fn(A, B) -> Ordering,
    k1: spec_fn(A) -> K,
    k2: spec_fn(B) -> K,
    lt: spec_fn(K, K) -> bool,
)
    requires
        walks_by_keys(list1, list2, ord, k1, k2, lt),
        list1.len() <= usize::MAX,
        list2.len() <= usize::MAX,
    ensures
        forall|a: int, b: int|
            0 <= a < list1.len() && 0 <= b < list2.len() ==> (#[trigger] traversal_steps(list1, list2, ord).contains(
                equal_step(a, b),
            ) <==> k1(list1[a]) == k2(list2[b])),
        forall|a: int|
            0 <= a < list1.len() ==> (#[trigger] traversal_steps(list1, list2, ord).contains(extra1_step(a))
                <==> !has_key_from(list2, k2, 0, k1(list1[a]))),
        forall|b: int|
            0 <= b < list2.len() ==> (#[trigger] traversal_steps(list1, list2, ord).contains(extra2_step(b))
                <==> !has_key_from(list1, k1, 0, k2(list2[b]))),
{
    lemma_walk_by_key_from(list1, list2, ord, k1, k2, lt, 0, 0);
}

/// Whether some item of `list` from `j` on carries the name `name`
pub open spec fn has_name_from<T: Named>(list: Seq<T>, j: int, name: Seq<char>) -> bool {
    exists|b: int| j <= b < list.len() && (#[trigger] list[b]).name_view() == name
}

/// On lists sorted by name without repeated names, the walk finds as equal
/// exactly the items of the same name, & as extra exactly the items whose name
/// the other list lacks
pub proof fn lemma_walk_by_name<A: Named, B: Named>(list1: Seq<A>, list2: Seq<B>)
    requires
        is_strictly_sorted_by_name(list1),
        is_strictly_sorted_by_name(list2),
        list1.len() <= usize::MAX,
        list2.len() <= usize::MAX,
    ensures
        forall|a: int, b: int|
            0 <= a < list1.len() && 0 <= b < list2.len() ==> (#[trigger] traversal_steps(list1, list2, name_order()).contains(
                equal_step(a, b),
            ) <==> list1[a].name_view() == list2[b].name_view()),
        forall|a: int|
            0 <= a < list1.len() ==> (#[trigger] traversal_steps(list1, list2, name_order()).contains(extra1_step(a))
                <==> !has_name_from(list2, 0, list1[a].name_view())),
        forall|b: int|
            0 <= b < list2.len() ==> (#[trigger] traversal_steps(list1, list2, name_order()).contains(extra2_step(b))
                <==> !has_name_from(list1, 0, list2[b].name_view())),
{
    let k1 = |a: A| a.name_view();
    let k2 = |b: B| b.name_view();
    let lt = |x: Seq<char>, y: Seq<char>| name_lt(x, y);
    let ord = name_order::<A, B>();
    assert forall|x: Seq<char>| !#[trigger] lt(x, x) by {
        lemma_name_order_strict(x, x);
    }
    assert forall|x: Seq<char>, y: Seq<char>, z: Seq<char>| #[trigger] lt(x, y) && #[trigger] lt(y, z) implies lt(x, z) by {
        lemma_name_order_transitive(x, y, z);
    }
    assert forall|x: Seq<char>, y: Seq<char>| x != y implies #[trigger] lt(x, y) || #[trigger] lt(y, x) by {
        lemma_name_order_total(x, y);
    }
    assert(orders_by_keys(ord, k1, k2, lt));
    assert forall|x: int, y: int| 0 <= x < y < list1.len() implies lt(k1(#[trigger] list1[x]), k1(#[trigger] list1[y])) by {
        assert(name_lt(list1[x].name_view(), list1[y].name_view()));
    }
    assert forall|x: int, y: int| 0 <= x < y < list2.len() implies lt(k2(#[trigger] list2[x]), k2(#[trigger] list2[y])) by {
        assert(name_lt(list2[x].name_view(), list2[y].name_view()));
    }
    lemma_walk_by_key(list1, list2, ord, k1, k2, lt);
    assert forall|a: int| 0 <= a < list1.len() implies has_key_from(list2, k2, 0, k1(list1[a])) == has_name_from(
        list2,
        0,
        #[trigger] list1[a].name_view(),
    ) by {
        if has_name_from(list2, 0, list1[a].name_view()) {
            let b = choose|b: int| 0 <= b < list2.len() && (#[trigger] list2[b]).name_view() == list1[a].name_view();
            assert(k2(list2[b]) == k1(list1[a]));
        }
        if has_key_from(list2, k2, 0, k1(list1[a])) {
            let b = choose|b: int| 0 <= b < list2.len() && k2(#[trigger] list2[b]) == k1(list1[a]);
            assert(list2[b].name_view() == list1[a].name_view());
        }
    }
    assert forall|b: int| 0 <= b < list2.len() implies has_key_from(list1, k1, 0, k2(list2[b])) == has_name_from(
        list1,
        0,
        #[trigger] list2[b].name_view(),
    ) by {
        if has_name_from(list1, 0, list2[b].name_view()) {
            let a = choose|a: int| 0 <= a < list1.len() && (#[trigger] list1[a]).name_view() == list2[b].name_view();
            assert(k1(list1[a]) == k2(list2[b]));
        }
        if has_key_from(list1, k1, 0, k2(list2[b])) {
            let a = choose|a: int| 0 <= a < list1.len() && k1(#[trigger] list1[a]) == k2(list2[b]);
            assert(list1[a].name_view() == list2[b].name_view());
        }
    }
}

} // verus!
