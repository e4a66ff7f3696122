//! Picking strings out of lists

use vstd::prelude::*;

use crate::android_string::AndroidString;
use crate::names::{
    lemma_name_order_strict, lemma_name_order_total, strs_equal, name_lt, name_lt_exec, Named,
};
use crate::ops::sort::{
    has_name, is_sorted_by_name, lemma_lt_le_transitive, lemma_sort_has_name, lemma_sort_is_sorted,
    sort_android_strings_by_name, sort_by_name,
};

verus! {

/// Strings that are to be localized
pub open spec fn localizable_strings_of(strings: Seq<AndroidString>) -> Seq<AndroidString> {
    strings.filter(|s: AndroidString| s@.is_localizable)
}

/// The strings of `all` (sorted by name) whose names don't occur in `lacking`
pub open spec fn missing_strings_of(lacking: Seq<AndroidString>, all: Seq<AndroidString>) -> Seq<AndroidString> {
    sort_by_name(all).filter(|s: AndroidString| !has_name(lacking, s@.name))
}

/// Keeps only those strings that are to be localized, in order
pub fn find_localizable_strings(strings: Vec<AndroidString>) -> (r: Vec<AndroidString>)
    ensures
        r@ == localizable_strings_of(strings@),
{
    broadcast use Seq::lemma_filter_push;

    let ghost pred = |s: AndroidString| s@.is_localizable;
    let mut result = Vec::new();
    let mut i: usize = 0;
    assert(strings@.take(0) =~= Seq::<AndroidString>::empty());
    while i < strings.len()
        invariant
            i <= strings@.len(),
            pred == (|s: AndroidString| s@.is_localizable),
            result@ == strings@.take(i as int).filter(pred),
        decreases strings@.len() - i,
    {
        proof {
            let t = strings@.take(i as int);
            assert(strings@.take(i + 1) =~= t.push(strings@[i as int]));
            t.lemma_filter_push(strings@[i as int], pred);
        }
        if strings[i].is_localizable() {
            let s = strings[i].duplicate();
            assert(s == strings@[i as int]);
            result.push(s);
        }
        i = i + 1;
    }
    assert(strings@.take(i as int) =~= strings@);
    assert(pred =~= |s: AndroidString| s@.is_localizable);
    result
}

/// Finds the strings of `all_strings` that `lacking_strings` doesn't have a
/// string of the same name for. Both lists end up sorted by name & so does
/// the result
pub fn find_missing_strings(lacking_strings: &mut [AndroidString], all_strings: &mut [AndroidString]) -> (r: Vec<AndroidString>)
    ensures
        final(lacking_strings)@ == sort_by_name(old(lacking_strings)@),
        final(all_strings)@ == sort_by_name(old(all_strings)@),
        r@ == missing_strings_of(old(lacking_strings)@, old(all_strings)@),
{
    broadcast use Seq::lemma_filter_push;

    sort_android_strings_by_name(lacking_strings);
    sort_android_strings_by_name(all_strings);
    let ghost lacking = lacking_strings@;
    let ghost all = all_strings@;
    proof {
        lemma_sort_is_sorted(old(lacking_strings)@);
        lemma_sort_is_sorted(old(all_strings)@);
        assert forall|n: Seq<char>| #[trigger] has_name(lacking, n) == has_name(old(lacking_strings)@, n) by {
            lemma_sort_has_name(old(lacking_strings)@, n);
        }
    }
    let ghost keep = |s: AndroidString| !has_name(lacking, s@.name);
    let mut result = Vec::new();
    let mut li: usize = 0;
    let mut ai: usize = 0;
    assert(all.take(0) =~= Seq::<AndroidString>::empty());
    while ai < all_strings.len()
        invariant
            lacking == lacking_strings@,
            all == all_strings@,
            is_sorted_by_name(lacking),
            is_sorted_by_name(all),
            li <= lacking.len(),
            ai <= all.len(),
            ai < all.len() ==> forall|k: int| 0 <= k < li ==> name_lt(#[trigger] lacking[k]@.name, all[ai as int]@.name),
            keep == (|s: AndroidString| !has_name(lacking, s@.name)),
            result@ == all.take(ai as int).filter(keep),
        decreases all.len() - ai,
    {
        let ghost current = all[ai as int];
        while li < lacking_strings.len() && name_lt_exec(lacking_strings[li].name(), all_strings[ai].name())
            invariant
                lacking == lacking_strings@,
                all == all_strings@,
                li <= lacking.len(),
                ai < all.len(),
                current == all[ai as int],
                forall|k: int| 0 <= k < li ==> name_lt(#[trigger] lacking[k]@.name, current@.name),
            decreases lacking.len() - li,
        {
            li = li + 1;
        }
        let found = li < lacking_strings.len() && strs_equal(lacking_strings[li].name(), all_strings[ai].name());
        proof {
            if found {
                assert(has_name(lacking, current@.name));
            } else {
                if li < lacking.len() {
                    lemma_name_order_total(lacking[li as int]@.name, current@.name);
                }
                assert forall|k: int| 0 <= k < lacking.len() implies (#[trigger] lacking[k])@.name != current@.name by {
                    lemma_name_order_strict(lacking[k]@.name, current@.name);
                    if k > li {
                        assert(!name_lt(lacking[k].name_view(), lacking[li as int].name_view()));
                        lemma_lt_le_transitive(current@.name, lacking[li as int]@.name, lacking[k]@.name);
                        lemma_name_order_strict(current@.name, lacking[k]@.name);
                    }
                }
            }
            assert(all.take(ai + 1) =~= all.take(ai as int).push(current));
            all.take(ai as int).lemma_filter_push(current, keep);
        }
        if !found {
            result.push(all_strings[ai].duplicate());
        }
        proof {
            if ai + 1 < all.len() {
                assert forall|k: int| 0 <= k < li implies name_lt(#[trigger] lacking[k]@.name, all[ai + 1]@.name) by {
                    assert(!name_lt(all[ai + 1].name_view(), all[ai as int].name_view()));
                    lemma_lt_le_transitive(lacking[k]@.name, current@.name, all[ai + 1]@.name);
                }
            }
        }
        ai = ai + 1;
    }
    assert(all.take(ai as int) =~= all);
    assert(keep =~= |s: AndroidString| !has_name(old(lacking_strings)@, s@.name));
    result
}

} // verus!
