//! Dropping repeated strings

use vstd::prelude::*;

use crate::android_string::AndroidString;
use crate::names::{lemma_name_order_strict, lemma_name_order_total, strs_equal, name_lt, Named};
use crate::ops::sort::{alike_by_name, carries_name, is_sorted_by_name, with_name};

verus! {

/// `s` with every string dropped whose name equals that of the last kept
/// string (so only the first string of each run of same-named strings stays)
pub open spec fn dedup_by_name<T: Named>(s: Seq<T>) -> Seq<T>
    decreases s.len(),
{
    if s.len() == 0 {
        s
    } else {
        let kept = dedup_by_name(s.drop_last());
        if kept.len() > 0 && kept.last().name_view() == s.last().name_view() {
            kept
        } else {
            kept.push(s.last())
        }
    }
}

/// This methods assumes that all the strings that have the same name are grouped
/// together. If such groups are present, only the first string from those groups
/// will be let through
pub fn dedup_grouped_strings(android_strings: &mut Vec<AndroidString>)
    ensures
        final(android_strings)@ == dedup_by_name(old(android_strings)@),
{
    let ghost orig = android_strings@;
    let mut kept: Vec<AndroidString> = Vec::new();
    let mut i: usize = 0;
    assert(orig.take(0) =~= Seq::<AndroidString>::empty());
    while i < android_strings.len()
        invariant
            orig == android_strings@,
            i <= orig.len(),
            kept@ == dedup_by_name(orig.take(i as int)),
        decreases orig.len() - i,
    {
        proof {
            assert(orig.take(i + 1).drop_last() =~= orig.take(i as int));
        }
        let n = kept.len();
        if n == 0 || !strs_equal(kept[n - 1].name(), android_strings[i].name()) {
            kept.push(android_strings[i].duplicate());
        }
        i = i + 1;
    }
    assert(orig.take(i as int) =~= orig);
    *android_strings = kept;
}

/// No two neighbouring strings of a deduplicated list share a name
pub proof fn lemma_dedup_neighbours_differ<T: Named>(s: Seq<T>)
    ensures
        forall|i: int|
            0 <= i < dedup_by_name(s).len() - 1 ==> (#[trigger] dedup_by_name(s)[i]).name_view()
                != dedup_by_name(s)[i + 1].name_view(),
    decreases s.len(),
{
    if s.len() > 0 {
        let d = s.drop_last();
        let kept = dedup_by_name(d);
        lemma_dedup_neighbours_differ(d);
        let r = dedup_by_name(s);
        assert forall|i: int| 0 <= i < r.len() - 1 implies (#[trigger] r[i]).name_view() != r[i + 1].name_view() by {
            if r != kept {
                assert(r == kept.push(s.last()));
                if i < kept.len() - 1 {
                    assert(r[i] == kept[i]);
                    assert(r[i + 1] == kept[i + 1]);
                } else {
                    assert(r[i] == kept.last());
                }
            }
        }
    }
}

/// The last string kept carries the name of the list's last string
proof fn lemma_dedup_last<T: Named>(s: Seq<T>)
    requires
        s.len() > 0,
    ensures
        dedup_by_name(s).len() > 0,
        dedup_by_name(s).last().name_view() == s.last().name_view(),
    decreases s.len(),
{
}

/// Strings of the same name stand together: between two strings of a name
/// there are only strings of that name
pub open spec fn is_grouped_by_name<T: Named>(s: Seq<T>) -> bool {
    forall|i: int, j: int, k: int|
        0 <= i < j < k < s.len() && #[trigger] s[i].name_view() == #[trigger] s[k].name_view()
            ==> #[trigger] s[j].name_view() == s[i].name_view()
}

/// A list sorted by name has its strings grouped by name
pub proof fn lemma_sorted_is_grouped<T: Named>(s: Seq<T>)
    requires
        is_sorted_by_name(s),
    ensures
        is_grouped_by_name(s),
{
    assert forall|i: int, j: int, k: int|
        0 <= i < j < k < s.len() && #[trigger] s[i].name_view() == #[trigger] s[k].name_view()
        implies #[trigger] s[j].name_view() == s[i].name_view() by {
        assert(!name_lt(s[j].name_view(), s[i].name_view()));
        assert(!name_lt(s[k].name_view(), s[j].name_view()));
        lemma_name_order_total(s[i].name_view(), s[j].name_view());
        lemma_name_order_strict(s[j].name_view(), s[k].name_view());
    }
}

/// The first element of `s`, if any
pub open spec fn first_only<T>(s: Seq<T>) -> Seq<T> {
    if s.len() == 0 {
        s
    } else {
        seq![s[0]]
    }
}

/// Of a list whose strings are grouped by name, deduplication lets through
/// just the first string of each name
pub proof fn lemma_dedup_keeps_first<T: Named>(s: Seq<T>, name: Seq<char>)
    requires
        is_grouped_by_name(s),
    ensures
        with_name(dedup_by_name(s), name) == first_only(with_name(s, name)),
    decreases s.len(),
{
    broadcast use Seq::lemma_filter_push;

    let f = carries_name::<T>(name);
    if s.len() == 0 {
        assert(s.filter(f) =~= Seq::<T>::empty()) by {
            reveal(Seq::filter);
        }
    } else {
        let d = s.drop_last();
        let x = s.last();
        let kept = dedup_by_name(d);
        assert(is_grouped_by_name(d)) by {
            assert forall|i: int, j: int, k: int|
                0 <= i < j < k < d.len() && #[trigger] d[i].name_view() == #[trigger] d[k].name_view()
                implies #[trigger] d[j].name_view() == d[i].name_view() by {
                assert(d[i] == s[i]);
                assert(d[j] == s[j]);
                assert(d[k] == s[k]);
            }
        }
        lemma_dedup_keeps_first(d, name);
        assert(d.push(x) =~= s);
        assert(s.filter(f) == if f(x) { d.filter(f).push(x) } else { d.filter(f) }) by {
            d.lemma_filter_push(x, f);
        }
        if kept.len() > 0 && kept.last().name_view() == x.name_view() {
            if f(x) {
                lemma_dedup_last(d);
                // `d`'s last string carries the name, so `d` has strings of it
                assert(f(d[d.len() - 1]));
                d.lemma_filter_contains(f, d.len() - 1);
                assert(d.filter(f).len() > 0);
                assert(first_only(d.filter(f).push(x)) =~= first_only(d.filter(f)));
            }
        } else {
            kept.lemma_filter_push(x, f);
            if f(x) {
                // no string of `d` carries the name, else `d`'s last string would too
                assert forall|k: int| 0 <= k < d.len() implies !f(#[trigger] d[k]) by {
                    if f(d[k]) {
                        lemma_dedup_last(d);
                        if k < d.len() - 1 {
                            assert(s[k].name_view() == s[s.len() - 1].name_view());
                            assert(s[d.len() - 1].name_view() == s[k].name_view());
                        }
                        assert(d.last().name_view() == name);
                    }
                }
                d.lemma_all_neg_filter_empty(f);
                assert(d.filter(f) =~= Seq::<T>::empty());
                assert(first_only(Seq::<T>::empty().push(x)) =~= Seq::<T>::empty().push(x));
            }
        }
    }
}

/// Dropping duplicates decides by names alone: lists alike by name keep
/// lists alike by name
pub proof fn lemma_dedup_alike<A: Named, B: Named>(s: Seq<A>, s2: Seq<B>, rel: spec_fn(A, B) -> bool)
    requires
        alike_by_name(s, s2, rel),
    ensures
        alike_by_name(dedup_by_name(s), dedup_by_name(s2), rel),
    decreases s.len(),
{
    if s.len() > 0 {
        let (d, d2) = (s.drop_last(), s2.drop_last());
        assert(alike_by_name(d, d2, rel)) by {
            assert forall|i: int| 0 <= i < d.len() implies (#[trigger] d[i]).name_view() == (#[trigger] d2[i]).name_view()
                && rel(d[i], d2[i]) by {
                assert(d[i] == s[i] && d2[i] == s2[i]);
            }
        }
        lemma_dedup_alike(d, d2, rel);
        let (k, k2) = (dedup_by_name(d), dedup_by_name(d2));
        assert(s.last() == s[s.len() - 1] && s2.last() == s2[s2.len() - 1]);
        if k.len() > 0 {
            assert(k.last() == k[k.len() - 1] && k2.last() == k2[k2.len() - 1]);
        }
        if !(k.len() > 0 && k.last().name_view() == s.last().name_view()) {
            assert forall|i: int| 0 <= i < k.push(s.last()).len() implies (#[trigger] k.push(s.last())[i]).name_view()
                == (#[trigger] k2.push(s2.last())[i]).name_view() && rel(k.push(s.last())[i], k2.push(s2.last())[i]) by {
                if i < k.len() {
                    assert(k.push(s.last())[i] == k[i] && k2.push(s2.last())[i] == k2[i]);
                }
            }
        }
    }
}

} // verus!
