//! Turning localized strings back into Android strings

use vstd::prelude::*;
use std::cmp::Ordering;

use crate::android_string::{views_of, AndroidString, AndroidStringView};
use crate::localized_string::LocalizedString;
use crate::names::{compare_names, name_cmp, name_order, strs_equal, Named};
use crate::ops::sort::{
    has_distinct_names, lemma_sort_contains, lemma_sort_distinct_is_strict, lemma_sort_is_permutation,
    sort_android_strings_by_name, sort_by_name, sort_localized_strings_by_name,
};
use crate::util::two_pointer_comparison::{
    compare_by, index_pair, lemma_matches_by_name, lemma_matches_in_range, matching_pairs,
};

verus! {

/// For each matched pair (localized string, default string) whose default
/// values agree, the localized string as an Android string that keeps the
/// default string's localizability
pub open spec fn extracted_from(
    localized: Seq<LocalizedString>,
    defaults: Seq<AndroidString>,
    pairs: Seq<(usize, usize)>,
) -> Seq<AndroidStringView>
    decreases pairs.len(),
{
    if pairs.len() == 0 {
        Seq::empty()
    } else {
        let rest = extracted_from(localized, defaults, pairs.drop_last());
        let l = localized[pairs.last().0 as int];
        let d = defaults[pairs.last().1 as int];
        if l@.default == d@.value {
            rest.push(AndroidStringView { name: l@.name, value: l@.localized, is_localizable: d@.is_localizable })
        } else {
            rest
        }
    }
}

/// What `extract_android_strings_from_localized` makes of its two lists
pub open spec fn extracted(localized: Seq<LocalizedString>, defaults: Seq<AndroidString>) -> Seq<AndroidStringView> {
    let l = sort_by_name(localized);
    let d = sort_by_name(defaults);
    extracted_from(l, d, matching_pairs(l, d, name_order()))
}

/// Orders a localized string & a default string by their names
fn compare_localized_to_default(localized: &LocalizedString, default: &AndroidString) -> (o: Ordering)
    ensures
        o == name_cmp(localized@.name, default@.name),
{
    compare_names(localized.name(), default.name())
}

/// Localized strings will be converted into `AndroidString` only if both the name
/// & the default value from `LocalizedString` match up with whatever is in the
/// default string. Both lists end up sorted by name
pub fn extract_android_strings_from_localized(
    localized_strings: &mut [LocalizedString],
    default_strings: &mut [AndroidString],
) -> (r: Vec<AndroidString>)
    ensures
        final(localized_strings)@ == sort_by_name(old(localized_strings)@),
        final(default_strings)@ == sort_by_name(old(default_strings)@),
        views_of(r@) == extracted(old(localized_strings)@, old(default_strings)@),
{
    sort_android_strings_by_name(default_strings);
    sort_localized_strings_by_name(localized_strings);
    let pairs = compare_by(
        localized_strings,
        default_strings,
        compare_localized_to_default,
        Ghost(name_order()),
    );
    let ghost ls = localized_strings@;
    let ghost ds = default_strings@;
    let n1 = localized_strings.len();
    let n2 = default_strings.len();
    proof {
        lemma_matches_in_range(ls, ds, name_order(), 0, 0);
    }
    let mut result: Vec<AndroidString> = Vec::new();
    let mut k: usize = 0;
    let ghost mut gk: int = 0;
    assert(pairs@.take(0) =~= Seq::<(usize, usize)>::empty());
    assert(views_of(result@) =~= Seq::<AndroidStringView>::empty());
    while k < pairs.len()
        invariant
            gk == k,
            k <= pairs@.len(),
            ls == localized_strings@,
            ds == default_strings@,
            pairs@ == matching_pairs(ls, ds, name_order()),
            forall|m: int| 0 <= m < pairs@.len() ==> (#[trigger] pairs@[m]).0 < ls.len() && pairs@[m].1 < ds.len(),
            views_of(result@) == extracted_from(ls, ds, pairs@.take(gk)),
        decreases pairs@.len() - gk,
    {
        let (i, j) = pairs[k];
        proof {
            assert(pairs@.take(gk + 1).drop_last() =~= pairs@.take(gk));
            assert(pairs@.take(gk + 1).last() == pairs@[gk]);
        }
        if strs_equal(localized_strings[i].default(), default_strings[j].value()) {
            let s = AndroidString::new(
                String::from_str(localized_strings[i].name()),
                String::from_str(localized_strings[i].localized()),
                default_strings[j].is_localizable(),
            );
            let ghost before = result@;
            result.push(s);
            assert(views_of(result@) =~= views_of(before).push(s@));
        }
        k = k + 1;
        proof {
            gk = gk + 1;
        }
    }
    assert(pairs@.take(gk) =~= pairs@);
    result
}

/// What a localized string becomes where its default value agrees
pub open spec fn extracted_view(localized: LocalizedString, default: AndroidString) -> AndroidStringView {
    AndroidStringView { name: localized@.name, value: localized@.localized, is_localizable: default@.is_localizable }
}

proof fn lemma_extracted_from_contains(
    localized: Seq<LocalizedString>,
    defaults: Seq<AndroidString>,
    pairs: Seq<(usize, usize)>,
    v: AndroidStringView,
)
    requires
        forall|k: int| 0 <= k < pairs.len() ==> (#[trigger] pairs[k]).0 < localized.len() && pairs[k].1 < defaults.len(),
        localized.len() <= usize::MAX,
        defaults.len() <= usize::MAX,
    ensures
        extracted_from(localized, defaults, pairs).contains(v) <==> exists|a: int, b: int|
            0 <= a < localized.len() && 0 <= b < defaults.len() && #[trigger] pairs.contains(index_pair(a, b))
                && localized[a]@.default == defaults[b]@.value && v == extracted_view(localized[a], defaults[b]),
    decreases pairs.len(),
{
    if pairs.len() > 0 {
        let d = pairs.drop_last();
        let last = pairs.last();
        assert(last == pairs[pairs.len() - 1]);
        let (a0, b0) = (last.0 as int, last.1 as int);
        assert(index_pair(a0, b0) == last);
        lemma_extracted_from_contains(localized, defaults, d, v);
        assert(d.push(last) =~= pairs);
        assert forall|e: (usize, usize)| pairs.contains(e) == (d.contains(e) || e == last) by {
            if pairs.contains(e) && e != last {
                let k = choose|k: int| 0 <= k < pairs.len() && pairs[k] == e;
                assert(d[k] == pairs[k]);
            }
            if d.contains(e) {
                let k = choose|k: int| 0 <= k < d.len() && d[k] == e;
                assert(pairs[k] == d[k]);
            }
            if e == last {
                assert(pairs[pairs.len() - 1] == e);
            }
        }
        let rest = extracted_from(localized, defaults, d);
        let found = extracted_from(localized, defaults, pairs);
        let agree = localized[a0]@.default == defaults[b0]@.value;
        assert(agree ==> found == rest.push(extracted_view(localized[a0], defaults[b0])));
        assert(!agree ==> found == rest);
        if found.contains(v) {
            if rest.contains(v) {
                let (a, b) = choose|a: int, b: int|
                    0 <= a < localized.len() && 0 <= b < defaults.len() && #[trigger] d.contains(index_pair(a, b))
                        && localized[a]@.default == defaults[b]@.value && v == extracted_view(localized[a], defaults[b]);
                assert(pairs.contains(index_pair(a, b)));
            } else {
                assert(agree);
                assert(pairs.contains(index_pair(a0, b0)));
            }
        }
        if exists|a: int, b: int|
            0 <= a < localized.len() && 0 <= b < defaults.len() && #[trigger] pairs.contains(index_pair(a, b))
                && localized[a]@.default == defaults[b]@.value && v == extracted_view(localized[a], defaults[b]) {
            let (a, b) = choose|a: int, b: int|
                0 <= a < localized.len() && 0 <= b < defaults.len() && #[trigger] pairs.contains(index_pair(a, b))
                    && localized[a]@.default == defaults[b]@.value && v == extracted_view(localized[a], defaults[b]);
            if d.contains(index_pair(a, b)) {
                assert(rest.contains(v));
                let k = choose|k: int| 0 <= k < rest.len() && rest[k] == v;
                if agree {
                    assert(found[k] == rest[k]);
                }
                assert(found.contains(v));
            } else {
                assert(index_pair(a, b) == last);
                assert((a as usize) as int == a && (b as usize) as int == b);
                assert(a == a0 && b == b0);
                assert(found[rest.len() as int] == v);
            }
        }
    }
}

/// Where no name repeats, the strings extracted are exactly the localized
/// strings whose default value is still the value of the default string of
/// the same name, each keeping that default string's localizability
pub proof fn lemma_extracted_by_name(localized: Seq<LocalizedString>, defaults: Seq<AndroidString>, v: AndroidStringView)
    requires
        has_distinct_names(localized),
        has_distinct_names(defaults),
        localized.len() <= usize::MAX,
        defaults.len() <= usize::MAX,
    ensures
        extracted(localized, defaults).contains(v) <==> exists|l: LocalizedString, d: AndroidString|
            #[trigger] localized.contains(l) && #[trigger] defaults.contains(d) && l@.name == d@.name && l@.default
                == d@.value && v == extracted_view(l, d),
{
    let sl = sort_by_name(localized);
    let sd = sort_by_name(defaults);
    lemma_sort_is_permutation(localized);
    lemma_sort_is_permutation(defaults);
    lemma_sort_distinct_is_strict(localized);
    lemma_sort_distinct_is_strict(defaults);
    let pairs = matching_pairs(sl, sd, name_order());
    lemma_matches_in_range(sl, sd, name_order(), 0, 0);
    lemma_matches_by_name(sl, sd);
    lemma_extracted_from_contains(sl, sd, pairs, v);
    if extracted(localized, defaults).contains(v) {
        let (a, b) = choose|a: int, b: int|
            0 <= a < sl.len() && 0 <= b < sd.len() && #[trigger] pairs.contains(index_pair(a, b))
                && sl[a]@.default == sd[b]@.value && v == extracted_view(sl[a], sd[b]);
        lemma_sort_contains(localized, sl[a]);
        lemma_sort_contains(defaults, sd[b]);
        assert(sl.contains(sl[a]) && sd.contains(sd[b]));
        assert(sl[a].name_view() == sl[a]@.name && sd[b].name_view() == sd[b]@.name);
        assert(localized.contains(sl[a]) && defaults.contains(sd[b]));
    }
    if exists|l: LocalizedString, d: AndroidString|
        #[trigger] localized.contains(l) && #[trigger] defaults.contains(d) && l@.name == d@.name && l@.default
            == d@.value && v == extracted_view(l, d) {
        let (l, d) = choose|l: LocalizedString, d: AndroidString|
            #[trigger] localized.contains(l) && #[trigger] defaults.contains(d) && l@.name == d@.name && l@.default
                == d@.value && v == extracted_view(l, d);
        lemma_sort_contains(localized, l);
        lemma_sort_contains(defaults, d);
        let a = choose|a: int| 0 <= a < sl.len() && sl[a] == l;
        let b = choose|b: int| 0 <= b < sd.len() && sd[b] == d;
        assert(l.name_view() == l@.name && d.name_view() == d@.name);
        assert(pairs.contains(index_pair(a, b)));
    }
}

} // verus!
