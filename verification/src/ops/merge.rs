//! Merging two lists of strings into one list grouped by name

use vstd::prelude::*;

use crate::android_string::AndroidString;
use crate::names::{lemma_name_order_strict, name_lt, name_lt_exec, Named};
use crate::ops::sort::{
    alike_by_name, is_sorted_by_name, lemma_lt_le_transitive, lemma_not_lt_transitive, lemma_sort_is_permutation,
    lemma_sort_is_sorted, lemma_sort_is_stable, sort_android_strings_by_name, sort_by_name,
    with_name, carries_name,
};

verus! {

/// Merge of two lists sorted by name; on equal names, `a`'s strings come first
pub open spec fn merge_by_name<T: Named>(a: Seq<T>, b: Seq<T>) -> Seq<T>
    decreases a.len() + b.len(),
{
    if a.len() == 0 {
        b
    } else if b.len() == 0 {
        a
    } else if !name_lt(b[0].name_view(), a[0].name_view()) {
        seq![a[0]] + merge_by_name(a.drop_first(), b)
    } else {
        seq![b[0]] + merge_by_name(a, b.drop_first())
    }
}

/// What `merge_and_group_strings` makes of its two lists
pub open spec fn merged_and_grouped(strings_1: Seq<AndroidString>, strings_2: Seq<AndroidString>) -> Seq<AndroidString> {
    merge_by_name(sort_by_name(strings_1), sort_by_name(strings_2))
}

/// While grouping strings, strings from `strings_1` take precedence over
/// `strings_2` in case both strings have the same name. Both lists end up
/// sorted by name
pub fn merge_and_group_strings(strings_1: &mut [AndroidString], strings_2: &mut [AndroidString]) -> (r: Vec<AndroidString>)
    ensures
        final(strings_1)@ == sort_by_name(old(strings_1)@),
        final(strings_2)@ == sort_by_name(old(strings_2)@),
        r@ == merged_and_grouped(old(strings_1)@, old(strings_2)@),
{
    sort_android_strings_by_name(strings_1);
    sort_android_strings_by_name(strings_2);
    let ghost a = strings_1@;
    let ghost b = strings_2@;
    let mut result = Vec::new();
    let mut i1: usize = 0;
    let mut i2: usize = 0;
    assert(a.skip(0) =~= a);
    assert(b.skip(0) =~= b);
    while i1 < strings_1.len() || i2 < strings_2.len()
        invariant
            a == strings_1@,
            b == strings_2@,
            i1 <= a.len(),
            i2 <= b.len(),
            merge_by_name(a, b) == result@ + merge_by_name(a.skip(i1 as int), b.skip(i2 as int)),
        decreases a.len() + b.len() - i1 - i2,
    {
        let ghost ra = a.skip(i1 as int);
        let ghost rb = b.skip(i2 as int);
        if i1 < strings_1.len() && (i2 >= strings_2.len() || !name_lt_exec(strings_2[i2].name(), strings_1[i1].name())) {
            let s = strings_1[i1].duplicate();
            proof {
                assert(s == ra[0]);
                assert(ra.drop_first() =~= a.skip(i1 + 1));
                if rb.len() == 0 {
                    assert(ra =~= seq![ra[0]] + ra.drop_first());
                }
                assert(result@.push(s) + merge_by_name(ra.drop_first(), rb) =~= result@ + (seq![s] + merge_by_name(ra.drop_first(), rb)));
            }
            result.push(s);
            i1 = i1 + 1;
        } else {
            let s = strings_2[i2].duplicate();
            proof {
                assert(s == rb[0]);
                assert(rb.drop_first() =~= b.skip(i2 + 1));
                if ra.len() == 0 {
                    assert(rb =~= seq![rb[0]] + rb.drop_first());
                }
                assert(result@.push(s) + merge_by_name(ra, rb.drop_first()) =~= result@ + (seq![s] + merge_by_name(ra, rb.drop_first())));
            }
            result.push(s);
            i2 = i2 + 1;
        }
    }
    proof {
        assert(a.skip(i1 as int) =~= Seq::<AndroidString>::empty());
        assert(b.skip(i2 as int) =~= Seq::<AndroidString>::empty());
        assert(result@ + Seq::<AndroidString>::empty() =~= result@);
    }
    result
}

/// Every element of a merge satisfies what all elements of both lists satisfy
proof fn lemma_merge_preserves<T: Named>(a: Seq<T>, b: Seq<T>, p: spec_fn(T) -> bool)
    requires
        forall|k: int| 0 <= k < a.len() ==> p(#[trigger] a[k]),
        forall|k: int| 0 <= k < b.len() ==> p(#[trigger] b[k]),
    ensures
        forall|k: int| 0 <= k < merge_by_name(a, b).len() ==> p(#[trigger] merge_by_name(a, b)[k]),
        merge_by_name(a, b).len() == a.len() + b.len(),
    decreases a.len() + b.len(),
{
    if a.len() > 0 && b.len() > 0 {
        if !name_lt(b[0].name_view(), a[0].name_view()) {
            lemma_merge_preserves(a.drop_first(), b, p);
        } else {
            lemma_merge_preserves(a, b.drop_first(), p);
        }
    }
}

/// Merging two sorted lists gives a sorted list
pub proof fn lemma_merge_is_sorted<T: Named>(a: Seq<T>, b: Seq<T>)
    requires
        is_sorted_by_name(a),
        is_sorted_by_name(b),
    ensures
        is_sorted_by_name(merge_by_name(a, b)),
    decreases a.len() + b.len(),
{
    if a.len() > 0 && b.len() > 0 {
        let m = merge_by_name(a, b);
        if !name_lt(b[0].name_view(), a[0].name_view()) {
            let x = a[0];
            assert(is_sorted_by_name(a.drop_first())) by {
                assert forall|i: int, j: int| 0 <= i < j < a.drop_first().len() implies
                    !name_lt(#[trigger] a.drop_first()[j].name_view(), #[trigger] a.drop_first()[i].name_view()) by {
                    assert(a.drop_first()[j] == a[j + 1]);
                    assert(a.drop_first()[i] == a[i + 1]);
                }
            }
            lemma_merge_is_sorted(a.drop_first(), b);
            assert forall|k: int| 0 <= k < b.len() implies !name_lt((#[trigger] b[k]).name_view(), x.name_view()) by {
                if k > 0 {
                    lemma_not_lt_transitive(x.name_view(), b[0].name_view(), b[k].name_view());
                }
            }
            assert forall|k: int| 0 <= k < a.drop_first().len() implies !name_lt((#[trigger] a.drop_first()[k]).name_view(), x.name_view()) by {
                assert(a.drop_first()[k] == a[k + 1]);
            }
            lemma_merge_preserves(a.drop_first(), b, |e: T| !name_lt(e.name_view(), x.name_view()));
            let rest = merge_by_name(a.drop_first(), b);
            assert forall|i: int, j: int| 0 <= i < j < m.len() implies
                !name_lt(#[trigger] m[j].name_view(), #[trigger] m[i].name_view()) by {
                if i > 0 {
                    assert(m[i] == rest[i - 1]);
                }
                assert(m[j] == rest[j - 1]);
            }
        } else {
            let x = b[0];
            assert(is_sorted_by_name(b.drop_first())) by {
                assert forall|i: int, j: int| 0 <= i < j < b.drop_first().len() implies
                    !name_lt(#[trigger] b.drop_first()[j].name_view(), #[trigger] b.drop_first()[i].name_view()) by {
                    assert(b.drop_first()[j] == b[j + 1]);
                    assert(b.drop_first()[i] == b[i + 1]);
                }
            }
            lemma_merge_is_sorted(a, b.drop_first());
            lemma_name_order_strict(x.name_view(), a[0].name_view());
            assert forall|k: int| 0 <= k < a.len() implies !name_lt((#[trigger] a[k]).name_view(), x.name_view()) by {
                if k > 0 {
                    lemma_lt_le_transitive(x.name_view(), a[0].name_view(), a[k].name_view());
                    lemma_name_order_strict(x.name_view(), a[k].name_view());
                }
            }
            assert forall|k: int| 0 <= k < b.drop_first().len() implies !name_lt((#[trigger] b.drop_first()[k]).name_view(), x.name_view()) by {
                assert(b.drop_first()[k] == b[k + 1]);
            }
            lemma_merge_preserves(a, b.drop_first(), |e: T| !name_lt(e.name_view(), x.name_view()));
            let rest = merge_by_name(a, b.drop_first());
            assert forall|i: int, j: int| 0 <= i < j < m.len() implies
                !name_lt(#[trigger] m[j].name_view(), #[trigger] m[i].name_view()) by {
                if i > 0 {
                    assert(m[i] == rest[i - 1]);
                }
                assert(m[j] == rest[j - 1]);
            }
        }
    }
}

/// Merging neither loses nor adds strings
pub proof fn lemma_merge_is_permutation<T: Named>(a: Seq<T>, b: Seq<T>)
    ensures
        merge_by_name(a, b).to_multiset() == a.to_multiset().add(b.to_multiset()),
    decreases a.len() + b.len(),
{
    broadcast use vstd::seq_lib::group_to_multiset_ensures;

    if a.len() == 0 {
        assert(a.to_multiset() =~= vstd::multiset::Multiset::empty());
        assert(a.to_multiset().add(b.to_multiset()) =~= b.to_multiset());
    } else if b.len() == 0 {
        assert(b.to_multiset() =~= vstd::multiset::Multiset::empty());
        assert(a.to_multiset().add(b.to_multiset()) =~= a.to_multiset());
    } else if !name_lt(b[0].name_view(), a[0].name_view()) {
        lemma_merge_is_permutation(a.drop_first(), b);
        assert(a =~= seq![a[0]] + a.drop_first());
        vstd::seq_lib::lemma_multiset_commutative(seq![a[0]], a.drop_first());
        vstd::seq_lib::lemma_multiset_commutative(seq![a[0]], merge_by_name(a.drop_first(), b));
        assert(merge_by_name(a, b).to_multiset() =~= a.to_multiset().add(b.to_multiset()));
    } else {
        lemma_merge_is_permutation(a, b.drop_first());
        assert(b =~= seq![b[0]] + b.drop_first());
        vstd::seq_lib::lemma_multiset_commutative(seq![b[0]], b.drop_first());
        vstd::seq_lib::lemma_multiset_commutative(seq![b[0]], merge_by_name(a, b.drop_first()));
        assert(merge_by_name(a, b).to_multiset() =~= a.to_multiset().add(b.to_multiset()));
    }
}

/// Filtering a list with one element put in front
proof fn lemma_filter_prepend<T>(x: T, s: Seq<T>, f: spec_fn(T) -> bool)
    ensures
        (seq![x] + s).filter(f) == if f(x) { seq![x] + s.filter(f) } else { s.filter(f) },
{
    Seq::filter_distributes_over_add(seq![x], s, f);
    assert(seq![x].filter(f) =~= if f(x) { seq![x] } else { Seq::<T>::empty() }) by {
        reveal_with_fuel(Seq::filter, 2);
        assert(seq![x].drop_last() =~= Seq::<T>::empty());
    }
    assert(Seq::<T>::empty() + s.filter(f) =~= s.filter(f));
}

/// A sorted list without its first element is still sorted
proof fn lemma_sorted_drop_first<T: Named>(a: Seq<T>)
    requires
        is_sorted_by_name(a),
        a.len() > 0,
    ensures
        is_sorted_by_name(a.drop_first()),
{
    assert forall|i: int, j: int| 0 <= i < j < a.drop_first().len() implies
        !name_lt(#[trigger] a.drop_first()[j].name_view(), #[trigger] a.drop_first()[i].name_view()) by {
        assert(a.drop_first()[j] == a[j + 1]);
        assert(a.drop_first()[i] == a[i + 1]);
    }
}

#[verifier::spinoff_prover]
#[verifier::rlimit(50)]
/// In a merge of sorted lists, the strings of a name are those of `a` followed by those of `b`
pub proof fn lemma_merge_groups<T: Named>(a: Seq<T>, b: Seq<T>, name: Seq<char>)
    requires
        is_sorted_by_name(a),
        is_sorted_by_name(b),
    ensures
        with_name(merge_by_name(a, b), name) == with_name(a, name) + with_name(b, name),
    decreases a.len() + b.len(),
{
    let f = carries_name::<T>(name);
    if a.len() == 0 {
        assert(a.filter(f) =~= Seq::<T>::empty()) by {
            reveal(Seq::filter);
        }
        assert(Seq::<T>::empty() + b.filter(f) =~= b.filter(f));
    } else if b.len() == 0 {
        assert(b.filter(f) =~= Seq::<T>::empty()) by {
            reveal(Seq::filter);
        }
        assert(a.filter(f) + Seq::<T>::empty() =~= a.filter(f));
    } else if !name_lt(b[0].name_view(), a[0].name_view()) {
        let x = a[0];
        let rest = merge_by_name(a.drop_first(), b);
        lemma_sorted_drop_first(a);
        lemma_merge_groups(a.drop_first(), b, name);
        assert(a =~= seq![x] + a.drop_first());
        lemma_filter_prepend(x, rest, f);
        lemma_filter_prepend(x, a.drop_first(), f);
        if f(x) {
            assert(seq![x] + (a.drop_first().filter(f) + b.filter(f))
                =~= (seq![x] + a.drop_first().filter(f)) + b.filter(f));
        }
    } else {
        let x = b[0];
        let rest = merge_by_name(a, b.drop_first());
        lemma_sorted_drop_first(b);
        lemma_merge_groups(a, b.drop_first(), name);
        assert(b =~= seq![x] + b.drop_first());
        lemma_filter_prepend(x, rest, f);
        lemma_filter_prepend(x, b.drop_first(), f);
        if f(x) {
            // no string of `a` can carry `x`'s name as all of them come after `x`
            assert forall|k: int| 0 <= k < a.len() implies !f(#[trigger] a[k]) by {
                lemma_name_order_strict(x.name_view(), a[0].name_view());
                if k > 0 {
                    lemma_lt_le_transitive(x.name_view(), a[0].name_view(), a[k].name_view());
                    lemma_name_order_strict(x.name_view(), a[k].name_view());
                }
            }
            a.lemma_all_neg_filter_empty(f);
            assert(a.filter(f) =~= Seq::<T>::empty());
            assert(seq![x] + (Seq::<T>::empty() + b.drop_first().filter(f))
                =~= Seq::<T>::empty() + (seq![x] + b.drop_first().filter(f)));
        }
    }
}

/// Strings of a name from the first list come before those from the second,
/// each in the order it had
pub proof fn lemma_merge_and_group_precedence(strings_1: Seq<AndroidString>, strings_2: Seq<AndroidString>, name: Seq<char>)
    ensures
        with_name(merged_and_grouped(strings_1, strings_2), name)
            == with_name(strings_1, name) + with_name(strings_2, name),
{
    lemma_sort_is_sorted(strings_1);
    lemma_sort_is_sorted(strings_2);
    lemma_merge_groups(sort_by_name(strings_1), sort_by_name(strings_2), name);
    lemma_sort_is_stable(strings_1, name);
    lemma_sort_is_stable(strings_2, name);
}

/// The merged list is sorted by name & holds exactly the strings of both lists
pub proof fn lemma_merge_and_group_sorted_permutation(strings_1: Seq<AndroidString>, strings_2: Seq<AndroidString>)
    ensures
        is_sorted_by_name(merged_and_grouped(strings_1, strings_2)),
        merged_and_grouped(strings_1, strings_2).to_multiset()
            == strings_1.to_multiset().add(strings_2.to_multiset()),
{
    lemma_sort_is_sorted(strings_1);
    lemma_sort_is_sorted(strings_2);
    lemma_merge_is_sorted(sort_by_name(strings_1), sort_by_name(strings_2));
    lemma_merge_is_permutation(sort_by_name(strings_1), sort_by_name(strings_2));
    lemma_sort_is_permutation(strings_1);
    lemma_sort_is_permutation(strings_2);
}

/// Merging decides by names alone: lists alike by name merge into lists alike by name
pub proof fn lemma_merge_alike<A: Named, B: Named>(a: Seq<A>, b: Seq<A>, a2: Seq<B>, b2: Seq<B>, rel: spec_fn(A, B) -> bool)
    requires
        alike_by_name(a, a2, rel),
        alike_by_name(b, b2, rel),
    ensures
        alike_by_name(merge_by_name(a, b), merge_by_name(a2, b2), rel),
    decreases a.len() + b.len(),
{
    if a.len() > 0 && b.len() > 0 {
        assert(a[0].name_view() == a2[0].name_view() && b[0].name_view() == b2[0].name_view());
        if !name_lt(b[0].name_view(), a[0].name_view()) {
            let (da, da2) = (a.drop_first(), a2.drop_first());
            assert(alike_by_name(da, da2, rel)) by {
                assert forall|i: int| 0 <= i < da.len() implies (#[trigger] da[i]).name_view() == (#[trigger] da2[i]).name_view()
                    && rel(da[i], da2[i]) by {
                    assert(da[i] == a[i + 1] && da2[i] == a2[i + 1]);
                }
            }
            lemma_merge_alike(da, b, da2, b2, rel);
            let (m, m2) = (merge_by_name(da, b), merge_by_name(da2, b2));
            assert forall|i: int| 0 <= i < (seq![a[0]] + m).len() implies (#[trigger] (seq![a[0]] + m)[i]).name_view()
                == (#[trigger] (seq![a2[0]] + m2)[i]).name_view() && rel((seq![a[0]] + m)[i], (seq![a2[0]] + m2)[i]) by {
                if i > 0 {
                    assert((seq![a[0]] + m)[i] == m[i - 1] && (seq![a2[0]] + m2)[i] == m2[i - 1]);
                }
            }
        } else {
            let (db, db2) = (b.drop_first(), b2.drop_first());
            assert(alike_by_name(db, db2, rel)) by {
                assert forall|i: int| 0 <= i < db.len() implies (#[trigger] db[i]).name_view() == (#[trigger] db2[i]).name_view()
                    && rel(db[i], db2[i]) by {
                    assert(db[i] == b[i + 1] && db2[i] == b2[i + 1]);
                }
            }
            lemma_merge_alike(a, db, a2, db2, rel);
            let (m, m2) = (merge_by_name(a, db), merge_by_name(a2, db2));
            assert forall|i: int| 0 <= i < (seq![b[0]] + m).len() implies (#[trigger] (seq![b[0]] + m)[i]).name_view()
                == (#[trigger] (seq![b2[0]] + m2)[i]).name_view() && rel((seq![b[0]] + m)[i], (seq![b2[0]] + m2)[i]) by {
                if i > 0 {
                    assert((seq![b[0]] + m)[i] == m[i - 1] && (seq![b2[0]] + m2)[i] == m2[i - 1]);
                }
            }
        }
    }
}

} // verus!
