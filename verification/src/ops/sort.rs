//! Stable sorting of strings by their names

use vstd::prelude::*;
use std::cmp::Ordering;

use crate::android_string::AndroidString;
use crate::localized_string::LocalizedString;
use crate::names::{
    compare_names, lemma_name_order_strict, lemma_name_order_total, lemma_name_order_transitive,
    name_cmp, name_lt, name_lt_exec, Named,
};

verus! {

/// `x` placed into `s` right after the last element whose name doesn't come
/// after `x`'s name (when `s` is sorted, the result is sorted too)
pub open spec fn insert_by_name<T: Named>(s: Seq<T>, x: T) -> Seq<T>
    decreases s.len(),
{
    if s.len() == 0 {
        seq![x]
    } else if name_lt(x.name_view(), s.last().name_view()) {
        insert_by_name(s.drop_last(), x).push(s.last())
    } else {
        s.push(x)
    }
}

/// `s` stably sorted by name: strings with the same name keep their relative order
pub open spec fn sort_by_name<T: Named>(s: Seq<T>) -> Seq<T>
    decreases s.len(),
{
    if s.len() == 0 {
        s
    } else {
        insert_by_name(sort_by_name(s.drop_last()), s.last())
    }
}

/// The names of a list strictly increase (so no name is repeated)
pub open spec fn is_strictly_sorted_by_name<T: Named>(s: Seq<T>) -> bool {
    forall|p: int, q: int| 0 <= p < q < s.len() ==> name_lt(#[trigger] s[p].name_view(), #[trigger] s[q].name_view())
}

/// No element's name comes before the name of an element in front of it
pub open spec fn is_sorted_by_name<T: Named>(s: Seq<T>) -> bool {
    forall|i: int, j: int|
        0 <= i < j < s.len() ==> !name_lt(#[trigger] s[j].name_view(), #[trigger] s[i].name_view())
}

/// The elements of `s` that carry the name `name`, in order
pub open spec fn with_name<T: Named>(s: Seq<T>, name: Seq<char>) -> Seq<T> {
    s.filter(carries_name(name))
}

/// Whether a string carries the name `name`
pub open spec fn carries_name<T: Named>(name: Seq<char>) -> spec_fn(T) -> bool {
    |x: T| x.name_view() == name
}

/// `a < b <= c` gives `a < c`
pub proof fn lemma_lt_le_transitive(a: Seq<char>, b: Seq<char>, c: Seq<char>)
    requires
        name_lt(a, b),
        !name_lt(c, b),
    ensures
        name_lt(a, c),
{
    lemma_name_order_total(b, c);
    if name_lt(b, c) {
        lemma_name_order_transitive(a, b, c);
    }
}

/// `a <= b <= c` gives `a <= c`
pub proof fn lemma_not_lt_transitive(a: Seq<char>, b: Seq<char>, c: Seq<char>)
    requires
        !name_lt(b, a),
        !name_lt(c, b),
    ensures
        !name_lt(c, a),
{
    lemma_name_order_total(a, b);
    lemma_name_order_total(b, c);
    lemma_name_order_strict(a, c);
    if name_lt(a, b) && name_lt(b, c) {
        lemma_name_order_transitive(a, b, c);
    }
}

/// Whether some element of `s` carries the name `name`
pub open spec fn has_name<T: Named>(s: Seq<T>, name: Seq<char>) -> bool {
    exists|k: int| 0 <= k < s.len() && (#[trigger] s[k]).name_view() == name
}

/// Sorting keeps the set of names
pub proof fn lemma_sort_has_name<T: Named>(s: Seq<T>, name: Seq<char>)
    ensures
        has_name(sort_by_name(s), name) == has_name(s, name),
{
    broadcast use vstd::seq_lib::group_to_multiset_ensures;

    lemma_sort_is_permutation(s);
    let t = sort_by_name(s);
    if has_name(s, name) {
        let k = choose|k: int| 0 <= k < s.len() && (#[trigger] s[k]).name_view() == name;
        assert(s.contains(s[k]));
        assert(t.to_multiset().count(s[k]) > 0);
        assert(t.contains(s[k]));
    }
    if has_name(t, name) {
        let k = choose|k: int| 0 <= k < t.len() && (#[trigger] t[k]).name_view() == name;
        assert(t.contains(t[k]));
        assert(s.to_multiset().count(t[k]) > 0);
        assert(s.contains(t[k]));
    }
}

/// Every element of `insert_by_name(s, x)` satisfies what all of `s` & `x` satisfy
proof fn lemma_insert_preserves<T: Named>(s: Seq<T>, x: T, p: spec_fn(T) -> bool)
    requires
        forall|k: int| 0 <= k < s.len() ==> p(#[trigger] s[k]),
        p(x),
    ensures
        forall|k: int| 0 <= k < insert_by_name(s, x).len() ==> p(#[trigger] insert_by_name(s, x)[k]),
        insert_by_name(s, x).len() == s.len() + 1,
    decreases s.len(),
{
    if s.len() > 0 && name_lt(x.name_view(), s.last().name_view()) {
        lemma_insert_preserves(s.drop_last(), x, p);
    }
}

proof fn lemma_insert_sorted<T: Named>(s: Seq<T>, x: T)
    requires
        is_sorted_by_name(s),
    ensures
        is_sorted_by_name(insert_by_name(s, x)),
    decreases s.len(),
{
    if s.len() == 0 {
    } else if name_lt(x.name_view(), s.last().name_view()) {
        let l = s.last();
        lemma_insert_sorted(s.drop_last(), x);
        lemma_name_order_strict(x.name_view(), l.name_view());
        lemma_insert_preserves(s.drop_last(), x, |e: T| !name_lt(l.name_view(), e.name_view()));
    } else {
        assert forall|i: int| 0 <= i < s.len() implies !name_lt(x.name_view(), #[trigger] s[i].name_view()) by {
            if i < s.len() - 1 {
                lemma_not_lt_transitive(s[i].name_view(), s.last().name_view(), x.name_view());
            }
        }
    }
}

/// A sorted list comes out of `sort_by_name`
pub proof fn lemma_sort_is_sorted<T: Named>(s: Seq<T>)
    ensures
        is_sorted_by_name(sort_by_name(s)),
    decreases s.len(),
{
    if s.len() > 0 {
        lemma_sort_is_sorted(s.drop_last());
        lemma_insert_sorted(sort_by_name(s.drop_last()), s.last());
    }
}

proof fn lemma_insert_multiset<T: Named>(s: Seq<T>, x: T)
    ensures
        insert_by_name(s, x).to_multiset() == s.to_multiset().insert(x),
    decreases s.len(),
{
    broadcast use vstd::seq_lib::group_to_multiset_ensures;

    if s.len() > 0 && name_lt(x.name_view(), s.last().name_view()) {
        lemma_insert_multiset(s.drop_last(), x);
        assert(s =~= s.drop_last().push(s.last()));
        assert(insert_by_name(s, x).to_multiset() =~= s.to_multiset().insert(x));
    }
}

/// Sorting neither loses nor adds strings
pub proof fn lemma_sort_is_permutation<T: Named>(s: Seq<T>)
    ensures
        sort_by_name(s).to_multiset() == s.to_multiset(),
        sort_by_name(s).len() == s.len(),
    decreases s.len(),
{
    broadcast use vstd::seq_lib::group_to_multiset_ensures;

    if s.len() > 0 {
        lemma_sort_is_permutation(s.drop_last());
        lemma_insert_multiset(sort_by_name(s.drop_last()), s.last());
        assert(s =~= s.drop_last().push(s.last()));
        sort_by_name(s).to_multiset_ensures();
        s.to_multiset_ensures();
    }
}

proof fn lemma_insert_with_name<T: Named>(s: Seq<T>, x: T, name: Seq<char>)
    ensures
        with_name(insert_by_name(s, x), name) == with_name(s.push(x), name),
    decreases s.len(),
{
    broadcast use Seq::lemma_filter_push;

    if s.len() > 0 && name_lt(x.name_view(), s.last().name_view()) {
        let l = s.last();
        let d = s.drop_last();
        lemma_insert_with_name(d, x, name);
        lemma_name_order_strict(x.name_view(), l.name_view());
        assert(d.push(l) =~= s);
        assert(with_name(insert_by_name(s, x), name) == with_name(insert_by_name(d, x).push(l), name));
        assert(with_name(s.push(x), name) == with_name(d.push(l).push(x), name));
    }
}

/// Sorting is stable: the strings sharing a name keep their relative order
pub proof fn lemma_sort_is_stable<T: Named>(s: Seq<T>, name: Seq<char>)
    ensures
        with_name(sort_by_name(s), name) == with_name(s, name),
    decreases s.len(),
{
    broadcast use Seq::lemma_filter_push;

    if s.len() > 0 {
        let d = s.drop_last();
        lemma_sort_is_stable(d, name);
        lemma_insert_with_name(sort_by_name(d), s.last(), name);
        assert(d.push(s.last()) =~= s);
        assert(with_name(s, name) == with_name(d.push(s.last()), name));
    }
}

/// A sorted list is left as it is by sorting
pub proof fn lemma_sort_sorted_is_identity<T: Named>(s: Seq<T>)
    requires
        is_sorted_by_name(s),
    ensures
        sort_by_name(s) == s,
    decreases s.len(),
{
    if s.len() > 0 {
        let d = s.drop_last();
        assert(is_sorted_by_name(d));
        lemma_sort_sorted_is_identity(d);
        if d.len() > 0 {
            assert(d.last() == s[s.len() - 2]);
        }
        assert(d.push(s.last()) =~= s);
    }
}

/// Sorting twice sorts no more than sorting once
pub proof fn lemma_sort_idempotent<T: Named>(s: Seq<T>)
    ensures
        sort_by_name(sort_by_name(s)) == sort_by_name(s),
{
    lemma_sort_is_sorted(s);
    lemma_sort_sorted_is_identity(sort_by_name(s));
}

/// Two lists of the same length whose elements at each position carry the
/// same name & are related by `rel`
pub open spec fn alike_by_name<A: Named, B: Named>(a: Seq<A>, b: Seq<B>, rel: spec_fn(A, B) -> bool) -> bool {
    &&& a.len() == b.len()
    &&& forall|i: int| 0 <= i < a.len() ==> (#[trigger] a[i]).name_view() == (#[trigger] b[i]).name_view()
        && rel(a[i], b[i])
}

proof fn lemma_insert_alike<A: Named, B: Named>(a: Seq<A>, b: Seq<B>, x: A, y: B, rel: spec_fn(A, B) -> bool)
    requires
        alike_by_name(a, b, rel),
        x.name_view() == y.name_view(),
        rel(x, y),
    ensures
        alike_by_name(insert_by_name(a, x), insert_by_name(b, y), rel),
    decreases a.len(),
{
    if a.len() > 0 {
        assert(a.last() == a[a.len() - 1] && b.last() == b[b.len() - 1]);
        if name_lt(x.name_view(), a.last().name_view()) {
            let (da, db) = (a.drop_last(), b.drop_last());
            assert(alike_by_name(da, db, rel)) by {
                assert forall|i: int| 0 <= i < da.len() implies (#[trigger] da[i]).name_view() == (#[trigger] db[i]).name_view()
                    && rel(da[i], db[i]) by {
                    assert(da[i] == a[i] && db[i] == b[i]);
                }
            }
            lemma_insert_alike(da, db, x, y, rel);
            lemma_insert_preserves(da, x, |e: A| true);
            lemma_insert_preserves(db, y, |e: B| true);
            let (ia, ib) = (insert_by_name(da, x), insert_by_name(db, y));
            assert forall|i: int| 0 <= i < ia.push(a.last()).len() implies (#[trigger] ia.push(a.last())[i]).name_view()
                == (#[trigger] ib.push(b.last())[i]).name_view() && rel(ia.push(a.last())[i], ib.push(b.last())[i]) by {
                if i < ia.len() {
                    assert(ia.push(a.last())[i] == ia[i] && ib.push(b.last())[i] == ib[i]);
                }
            }
        } else {
            assert forall|i: int| 0 <= i < a.push(x).len() implies (#[trigger] a.push(x)[i]).name_view()
                == (#[trigger] b.push(y)[i]).name_view() && rel(a.push(x)[i], b.push(y)[i]) by {
                if i < a.len() {
                    assert(a.push(x)[i] == a[i] && b.push(y)[i] == b[i]);
                }
            }
        }
    }
}

/// Sorting decides by names alone: lists alike by name sort into lists alike by name
pub proof fn lemma_sort_alike<A: Named, B: Named>(a: Seq<A>, b: Seq<B>, rel: spec_fn(A, B) -> bool)
    requires
        alike_by_name(a, b, rel),
    ensures
        alike_by_name(sort_by_name(a), sort_by_name(b), rel),
    decreases a.len(),
{
    if a.len() > 0 {
        let (da, db) = (a.drop_last(), b.drop_last());
        assert(alike_by_name(da, db, rel)) by {
            assert forall|i: int| 0 <= i < da.len() implies (#[trigger] da[i]).name_view() == (#[trigger] db[i]).name_view()
                && rel(da[i], db[i]) by {
                assert(da[i] == a[i] && db[i] == b[i]);
            }
        }
        lemma_sort_alike(da, db, rel);
        assert(a.last() == a[a.len() - 1] && b.last() == b[b.len() - 1]);
        lemma_insert_alike(sort_by_name(da), sort_by_name(db), a.last(), b.last(), rel);
    }
}

/// No two items of a list carry the same name
pub open spec fn has_distinct_names<T: Named>(s: Seq<T>) -> bool {
    forall|p: int, q: int| 0 <= p < q < s.len() ==> #[trigger] s[p].name_view() != #[trigger] s[q].name_view()
}

/// Two items that satisfy `pred` make the filtered list at least two long
proof fn lemma_filter_two<T>(s: Seq<T>, pred: spec_fn(T) -> bool, p: int, q: int)
    requires
        0 <= p < q < s.len(),
        pred(s[p]),
        pred(s[q]),
    ensures
        s.filter(pred).len() >= 2,
    decreases s.len(),
{
    broadcast use Seq::lemma_filter_push, Seq::lemma_filter_contains;

    let d = s.drop_last();
    assert(d.push(s.last()) =~= s);
    assert(d[p] == s[p]);
    if q == s.len() - 1 {
        assert(d.filter(pred).contains(d[p]));
        assert(s.filter(pred) == d.filter(pred).push(s.last()));
    } else {
        assert(d[q] == s[q]);
        lemma_filter_two(d, pred, p, q);
    }
}

/// In a list without repeated names, at most one item carries a name
proof fn lemma_distinct_names_at_most_one<T: Named>(s: Seq<T>, name: Seq<char>)
    requires
        has_distinct_names(s),
    ensures
        with_name(s, name).len() <= 1,
    decreases s.len(),
{
    broadcast use Seq::lemma_filter_push, Seq::lemma_filter_pred, Seq::lemma_filter_contains_rev;

    if s.len() > 0 {
        let d = s.drop_last();
        assert(has_distinct_names(d)) by {
            assert forall|p: int, q: int| 0 <= p < q < d.len() implies #[trigger] d[p].name_view()
                != #[trigger] d[q].name_view() by {
                assert(d[p] == s[p] && d[q] == s[q]);
            }
        }
        lemma_distinct_names_at_most_one(d, name);
        assert(d.push(s.last()) =~= s);
        if s.last().name_view() == name && with_name(d, name).len() > 0 {
            let x = with_name(d, name)[0];
            assert(carries_name(name)(x));
            assert(d.filter(carries_name(name)).contains(x)) by {
                assert(d.filter(carries_name(name))[0] == x);
            }
            assert(d.contains(x));
            let k = choose|k: int| 0 <= k < d.len() && d[k] == x;
            assert(s[k].name_view() == s[s.len() - 1].name_view());
        }
    }
}

/// Sorting a list without repeated names makes its names strictly increase
pub proof fn lemma_sort_distinct_is_strict<T: Named>(s: Seq<T>)
    requires
        has_distinct_names(s),
    ensures
        is_strictly_sorted_by_name(sort_by_name(s)),
{
    let t = sort_by_name(s);
    lemma_sort_is_sorted(s);
    assert forall|p: int, q: int| 0 <= p < q < t.len() implies name_lt(#[trigger] t[p].name_view(), #[trigger] t[q].name_view())
        by {
        lemma_name_order_total(t[p].name_view(), t[q].name_view());
        if t[p].name_view() == t[q].name_view() {
            let name = t[p].name_view();
            lemma_filter_two(t, carries_name::<T>(name), p, q);
            lemma_sort_is_stable(s, name);
            lemma_distinct_names_at_most_one(s, name);
        }
    }
}

/// Sorting keeps what a list contains
pub proof fn lemma_sort_contains<T: Named>(s: Seq<T>, x: T)
    ensures
        sort_by_name(s).contains(x) == s.contains(x),
{
    lemma_sort_is_permutation(s);
    s.to_multiset_ensures();
    sort_by_name(s).to_multiset_ensures();
    assert(s.contains(x) <==> s.to_multiset().count(x) > 0);
    assert(sort_by_name(s).contains(x) <==> sort_by_name(s).to_multiset().count(x) > 0);
}

/// Swaps the neighbours `s[j - 1]` & `s[j]`
fn swap_with_previous<T>(s: &mut [T], j: usize)
    requires
        0 < j < old(s)@.len(),
    ensures
        final(s)@ == old(s)@.update(j - 1, old(s)@[j as int]).update(j as int, old(s)@[j - 1]),
{
    let (left, right) = s.split_at_mut(j);
    core::mem::swap(&mut left[j - 1], &mut right[0]);
    assert(final(s)@ =~= old(s)@.update(j - 1, old(s)@[j as int]).update(j as int, old(s)@[j - 1]));
}

/// Stably sorts `s` in place by name
pub fn sort_slice_by_name<T: Named>(s: &mut [T])
    ensures
        final(s)@ == sort_by_name(old(s)@),
{
    let n = s.len();
    let ghost orig = s@;
    let mut i: usize = 0;
    assert(orig.take(0) =~= Seq::<T>::empty());
    assert(s@.take(0) =~= Seq::<T>::empty());
    while i < n
        invariant
            n == s@.len(),
            orig.len() == n,
            i <= n,
            s@.take(i as int) == sort_by_name(orig.take(i as int)),
            s@.skip(i as int) == orig.skip(i as int),
        decreases n - i,
    {
        let ghost x = s@[i as int];
        let ghost p = s@.take(i as int);
        proof {
            assert(x == s@.skip(i as int)[0]);
            assert(x == orig[i as int]);
            assert(orig.take(i + 1).drop_last() =~= orig.take(i as int));
            assert(orig.take(i + 1).last() == orig[i as int]);
            lemma_sort_is_permutation(orig.take(i as int));
            assert(p =~= p.take(i as int));
            assert(s@.subrange(i + 1, i + 1) =~= p.subrange(i as int, i as int));
            assert(insert_by_name(p, x) =~= insert_by_name(p.take(i as int), x) + p.subrange(i as int, i as int));
            assert(s@.skip(i + 1) =~= orig.skip(i + 1)) by {
                assert forall|k: int| 0 <= k < n - i - 1 implies #[trigger] s@.skip(i + 1)[k] == orig.skip(i + 1)[k] by {
                    assert(s@.skip(i + 1)[k] == s@.skip(i as int)[k + 1]);
                    assert(orig.skip(i + 1)[k] == orig.skip(i as int)[k + 1]);
                }
            }
        }
        let mut j: usize = i;
        while j > 0 && name_lt_exec(s[j].name_str(), s[j - 1].name_str())
            invariant
                0 <= j <= i < n,
                n == s@.len(),
                p.len() == i,
                s@[j as int] == x,
                s@.take(j as int) == p.take(j as int),
                s@.subrange(j + 1, i + 1) == p.subrange(j as int, i as int),
                s@.skip(i + 1) == orig.skip(i + 1),
                insert_by_name(p, x) == insert_by_name(p.take(j as int), x) + p.subrange(j as int, i as int),
            decreases j,
        {
            proof {
                assert(s@[j - 1] == p[j - 1]) by {
                    assert(s@.take(j as int)[j - 1] == s@[j - 1]);
                }
                let pj = p.take(j as int);
                assert(pj.drop_last() =~= p.take(j - 1));
                assert(pj.last() == p[j - 1]);
                assert(p.subrange(j - 1, i as int) =~= seq![p[j - 1]] + p.subrange(j as int, i as int));
                assert(insert_by_name(pj, x) == insert_by_name(p.take(j - 1), x).push(p[j - 1]));
                assert(insert_by_name(p.take(j - 1), x).push(p[j - 1]) + p.subrange(j as int, i as int)
                    =~= insert_by_name(p.take(j - 1), x) + p.subrange(j - 1, i as int));
            }
            let ghost before = s@;
            swap_with_previous(s, j);
            proof {
                assert(s@.take(j - 1) =~= p.take(j - 1));
                assert(s@.subrange(j as int, i + 1) =~= p.subrange(j - 1, i as int));
                assert(s@.skip(i + 1) =~= before.skip(i + 1));
            }
            j = j - 1;
        }
        proof {
            if j == 0 {
                assert(p.take(0) =~= Seq::<T>::empty());
            } else {
                let pj = p.take(j as int);
                assert(pj.last() == p[j - 1]);
                assert(s@[j - 1] == s@.take(j as int)[j - 1]);
                assert(!name_lt(x.name_view(), pj.last().name_view()));
                assert(insert_by_name(pj, x) == pj.push(x));
            }
            assert(s@.take(i + 1) =~= insert_by_name(p, x));
            assert(orig.take(i + 1).drop_last() =~= orig.take(i as int));
        }
        i = i + 1;
    }
    assert(orig.take(n as int) =~= orig);
    assert(s@.take(n as int) =~= s@);
}

/// In place, stable sorting
pub fn sort_android_strings_by_name(strings: &mut [AndroidString])
    ensures
        final(strings)@ == sort_by_name(old(strings)@),
{
    sort_slice_by_name(strings)
}

/// In place, stable sorting
pub fn sort_localized_strings_by_name(strings: &mut [LocalizedString])
    ensures
        final(strings)@ == sort_by_name(old(strings)@),
{
    sort_slice_by_name(strings)
}

/// Orders two strings by their names
pub fn compare_android_strings(s1: &AndroidString, s2: &AndroidString) -> (r: Ordering)
    ensures
        r == name_cmp(s1@.name, s2@.name),
{
    compare_names(s1.name(), s2.name())
}

} // verus!
