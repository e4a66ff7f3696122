//! Merging localized texts back into the strings of foreign locales (the
//! reading & writing of files stays with the caller)

use vstd::prelude::*;

use crate::android_string::{views_of, AndroidString, AndroidStringView};
use crate::localized_string::LocalizedString;
use crate::names::{strs_equal, Named};
use crate::ops::dedup::{dedup_by_name, dedup_grouped_strings, lemma_dedup_alike, lemma_dedup_keeps_first, lemma_sorted_is_grouped};
use crate::ops::extract::{extract_android_strings_from_localized, extracted, extracted_view, lemma_extracted_by_name};
use crate::ops::filter::{find_localizable_strings, localizable_strings_of};
use crate::ops::merge::{
    lemma_merge_alike, lemma_merge_and_group_precedence, lemma_merge_and_group_sorted_permutation, merge_and_group_strings,
    merged_and_grouped,
};
use crate::ops::sort::{alike_by_name, carries_name, has_distinct_names, lemma_sort_alike, sort_by_name, with_name};
use crate::util::foreign_locale_ids_finder::pair_texts;

verus! {

/// Strings holding the given views
pub open spec fn strings_with_views(views: Seq<AndroidStringView>) -> Seq<AndroidString> {
    choose|strings: Seq<AndroidString>| views_of(strings) == views
}

/// Two strings hold the same
pub open spec fn same_view() -> spec_fn(AndroidString, AndroidString) -> bool {
    |a: AndroidString, b: AndroidString| a@ == b@
}

/// The strings of a foreign locale after merging localized texts in: the
/// localized strings whose default values still agree with the default
/// strings, along with the existing localizable strings of the locale, grouped
/// by name where the newly localized ones come first & only the first of each
/// name is kept
pub open spec fn foreign_strings_to_write(
    localized: Seq<LocalizedString>,
    defaults: Seq<AndroidString>,
    existing: Seq<AndroidString>,
) -> Seq<AndroidStringView> {
    views_of(
        dedup_by_name(
            merged_and_grouped(strings_with_views(extracted(localized, defaults)), localizable_strings_of(existing)),
        ),
    )
}

/// Lists alike by view hold the same views
proof fn lemma_alike_same_views(a: Seq<AndroidString>, b: Seq<AndroidString>)
    requires
        alike_by_name(a, b, same_view()),
    ensures
        views_of(a) == views_of(b),
{
    assert forall|i: int| 0 <= i < a.len() implies views_of(a)[i] == views_of(b)[i] by {
        assert(same_view()(a[i], b[i]));
    }
    assert(views_of(a) =~= views_of(b));
}

/// Lists holding the same views are alike by view
proof fn lemma_same_views_alike(a: Seq<AndroidString>, b: Seq<AndroidString>)
    requires
        views_of(a) == views_of(b),
    ensures
        alike_by_name(a, b, same_view()),
{
    assert(a.len() == views_of(a).len() && b.len() == views_of(b).len());
    assert forall|i: int| 0 <= i < a.len() implies (#[trigger] a[i]).name_view() == (#[trigger] b[i]).name_view()
        && same_view()(a[i], b[i]) by {
        assert(views_of(a)[i] == views_of(b)[i]);
        assert(views_of(a)[i] == a[i]@ && views_of(b)[i] == b[i]@);
        assert(a[i].name_view() == a[i]@.name && b[i].name_view() == b[i]@.name);
    }
}

/// Where a localized text was taken (its name & default value agree with a
/// default string), its string is among the strings written: whatever strings
/// the locale had before, the newly localized string wins
proof fn lemma_taken_text_kept(
    chosen: Seq<AndroidString>,
    already: Seq<AndroidString>,
    localized: Seq<LocalizedString>,
    defaults: Seq<AndroidString>,
    l: LocalizedString,
    d: AndroidString,
)
    requires
        has_distinct_names(localized),
        has_distinct_names(defaults),
        localized.len() <= usize::MAX,
        defaults.len() <= usize::MAX,
        views_of(chosen) == extracted(localized, defaults),
        localized.contains(l),
        defaults.contains(d),
        l@.name == d@.name,
        l@.default == d@.value,
    ensures
        views_of(dedup_by_name(merged_and_grouped(chosen, already))).contains(extracted_view(l, d)),
{
    broadcast use Seq::lemma_filter_contains, Seq::lemma_filter_pred, Seq::lemma_filter_contains_rev;

    let v = extracted_view(l, d);
    let name = l@.name;
    lemma_extracted_by_name(localized, defaults, v);
    let k = choose|k: int| 0 <= k < views_of(chosen).len() && views_of(chosen)[k] == v;
    assert(chosen[k]@ == v);
    assert(carries_name::<AndroidString>(name)(chosen[k]));
    let w = with_name(chosen, name);
    assert(w.contains(chosen[k]));
    let first = w[0];
    assert(carries_name::<AndroidString>(name)(first));
    assert(w.len() > 0);
    assert(w.contains(first));
    assert(chosen.contains(first));
    let kf = choose|kf: int| 0 <= kf < chosen.len() && chosen[kf] == first;
    assert(views_of(chosen)[kf] == first@);
    lemma_extracted_by_name(localized, defaults, first@);
    let (l2, d2) = choose|l2: LocalizedString, d2: AndroidString|
        #[trigger] localized.contains(l2) && #[trigger] defaults.contains(d2) && l2@.name == d2@.name && l2@.default
            == d2@.value && first@ == extracted_view(l2, d2);
    let (il, il2) = (choose|i: int| 0 <= i < localized.len() && localized[i] == l, choose|i: int|
        0 <= i < localized.len() && localized[i] == l2);
    if il != il2 {
        if il < il2 {
            assert(localized[il].name_view() != localized[il2].name_view());
        } else {
            assert(localized[il2].name_view() != localized[il].name_view());
        }
    }
    let (id, id2) = (choose|i: int| 0 <= i < defaults.len() && defaults[i] == d, choose|i: int|
        0 <= i < defaults.len() && defaults[i] == d2);
    if id != id2 {
        if id < id2 {
            assert(defaults[id].name_view() != defaults[id2].name_view());
        } else {
            assert(defaults[id2].name_view() != defaults[id].name_view());
        }
    }
    assert(first@ == v);
    let merged = merged_and_grouped(chosen, already);
    lemma_merge_and_group_precedence(chosen, already, name);
    lemma_merge_and_group_sorted_permutation(chosen, already);
    lemma_sorted_is_grouped(merged);
    lemma_dedup_keeps_first(merged, name);
    let kept = dedup_by_name(merged);
    assert((w + with_name(already, name))[0] == first);
    assert(with_name(kept, name) == seq![first]);
    assert(seq![first][0] == first);
    assert(with_name(kept, name).contains(first));
    assert(kept.contains(first));
    let kk = choose|kk: int| 0 <= kk < kept.len() && kept[kk] == first;
    assert(views_of(kept)[kk] == v);
}

/// Where no localized name nor default name repeats, every localized text
/// whose name & default value agree with a default string is written out for
/// the locale (with the localized value, & that default string's
/// localizability), whether or not the locale had a string of that name
pub proof fn lemma_localized_texts_written(
    localized: Seq<LocalizedString>,
    defaults: Seq<AndroidString>,
    existing: Seq<AndroidString>,
    extracted_strings: Seq<AndroidString>,
    l: LocalizedString,
    d: AndroidString,
)
    requires
        has_distinct_names(localized),
        has_distinct_names(defaults),
        localized.len() <= usize::MAX,
        defaults.len() <= usize::MAX,
        views_of(extracted_strings) == extracted(localized, defaults),
        localized.contains(l),
        defaults.contains(d),
        l@.name == d@.name,
        l@.default == d@.value,
    ensures
        foreign_strings_to_write(localized, defaults, existing).contains(
            AndroidStringView { name: l@.name, value: l@.localized, is_localizable: d@.is_localizable },
        ),
{
    let chosen = strings_with_views(extracted(localized, defaults));
    assert(views_of(chosen) == extracted(localized, defaults));
    lemma_taken_text_kept(chosen, localizable_strings_of(existing), localized, defaults, l, d);
}

/// Where no localized text was taken for the name of an existing localizable
/// string of the locale, that string is written out as it was (where the
/// locale's strings don't repeat a name)
pub proof fn lemma_untouched_strings_kept(
    localized: Seq<LocalizedString>,
    defaults: Seq<AndroidString>,
    existing: Seq<AndroidString>,
    extracted_strings: Seq<AndroidString>,
    e: AndroidString,
)
    requires
        views_of(extracted_strings) == extracted(localized, defaults),
        has_distinct_names(localized),
        has_distinct_names(defaults),
        has_distinct_names(existing),
        localized.len() <= usize::MAX,
        defaults.len() <= usize::MAX,
        existing.contains(e),
        e@.is_localizable,
        !exists|l: LocalizedString, d: AndroidString|
            #[trigger] localized.contains(l) && #[trigger] defaults.contains(d) && l@.name == d@.name && l@.default
                == d@.value && l@.name == e@.name,
    ensures
        foreign_strings_to_write(localized, defaults, existing).contains(e@),
{
    broadcast use Seq::lemma_filter_contains, Seq::lemma_filter_pred, Seq::lemma_filter_contains_rev;

    let name = e@.name;
    let chosen = strings_with_views(extracted(localized, defaults));
    assert(views_of(chosen) == extracted(localized, defaults));
    let already = localizable_strings_of(existing);
    // no extracted string carries the name
    let w = with_name(chosen, name);
    if w.len() > 0 {
        let first = w[0];
        assert(w.contains(first));
        assert(carries_name::<AndroidString>(name)(first));
        assert(chosen.contains(first));
        let kf = choose|kf: int| 0 <= kf < chosen.len() && chosen[kf] == first;
        assert(views_of(chosen)[kf] == first@);
        lemma_extracted_by_name(localized, defaults, first@);
        let (l2, d2) = choose|l2: LocalizedString, d2: AndroidString|
            #[trigger] localized.contains(l2) && #[trigger] defaults.contains(d2) && l2@.name == d2@.name && l2@.default
                == d2@.value && first@ == extracted_view(l2, d2);
        assert(l2@.name == name);
        assert(false);
    }
    // the only localizable existing string carrying the name is `e`
    let ie = choose|i: int| 0 <= i < existing.len() && existing[i] == e;
    assert(already.contains(e));
    let wa = with_name(already, name);
    assert(wa.contains(e));
    let fa = wa[0];
    assert(wa.contains(fa));
    assert(carries_name::<AndroidString>(name)(fa));
    assert(already.contains(fa));
    assert(existing.contains(fa));
    let ifa = choose|i: int| 0 <= i < existing.len() && existing[i] == fa;
    if ifa != ie {
        if ifa < ie {
            assert(existing[ifa].name_view() != existing[ie].name_view());
        } else {
            assert(existing[ie].name_view() != existing[ifa].name_view());
        }
    }
    assert(fa == e);
    let merged = merged_and_grouped(chosen, already);
    lemma_merge_and_group_precedence(chosen, already, name);
    lemma_merge_and_group_sorted_permutation(chosen, already);
    lemma_sorted_is_grouped(merged);
    lemma_dedup_keeps_first(merged, name);
    let kept = dedup_by_name(merged);
    assert(w + wa =~= wa);
    assert(with_name(kept, name) == seq![e]);
    assert(seq![e][0] == e);
    assert(with_name(kept, name).contains(e));
    assert(kept.contains(e));
    let kk = choose|kk: int| 0 <= kk < kept.len() && kept[kk] == e;
    assert(views_of(kept)[kk] == e@);
}

/// Merges localized strings into the existing strings of a foreign locale:
/// gives the strings to write out for the locale & whether they differ from
/// the existing ones. The default strings end up sorted by name
pub fn handle_localized_strings(
    localized_strings: Vec<LocalizedString>,
    localizable_default_strings: &mut [AndroidString],
    existing_foreign_strings: Vec<AndroidString>,
) -> (r: (Vec<AndroidString>, bool))
    ensures
        final(localizable_default_strings)@ == sort_by_name(old(localizable_default_strings)@),
        views_of(r.0@) == foreign_strings_to_write(
            localized_strings@,
            old(localizable_default_strings)@,
            existing_foreign_strings@,
        ),
        r.1 == (views_of(r.0@) != views_of(existing_foreign_strings@)),
        has_distinct_names(localized_strings@) && has_distinct_names(old(localizable_default_strings)@) ==> forall|
            l: LocalizedString,
            d: AndroidString,
        |
            #![trigger localized_strings@.contains(l), old(localizable_default_strings)@.contains(d)]
            localized_strings@.contains(l) && old(localizable_default_strings)@.contains(d) && l@.name == d@.name
                && l@.default == d@.value ==> views_of(r.0@).contains(
                AndroidStringView { name: l@.name, value: l@.localized, is_localizable: d@.is_localizable },
            ),
        has_distinct_names(localized_strings@) && has_distinct_names(old(localizable_default_strings)@)
            && has_distinct_names(existing_foreign_strings@) ==> forall|e: AndroidString|
            #[trigger] existing_foreign_strings@.contains(e) && e@.is_localizable && !(exists|
                l: LocalizedString,
                d: AndroidString,
            |
                #[trigger] localized_strings@.contains(l) && #[trigger] old(localizable_default_strings)@.contains(d)
                    && l@.name == d@.name && l@.default == d@.value && l@.name == e@.name) ==> views_of(r.0@).contains(
                e@,
            ),
{
    let ghost defaults = localizable_default_strings@;
    let ghost existing = existing_foreign_strings@;
    let _localized_count: usize = localized_strings.len();
    let _default_count: usize = localizable_default_strings.len();
    let existing_copy = copy_strings(existing_foreign_strings.as_slice());
    let mut already_localized_foreign_strings = find_localizable_strings(existing_foreign_strings);
    let mut localized = localized_strings;
    let mut new_localized_foreign_strings = extract_android_strings_from_localized(
        localized.as_mut_slice(),
        localizable_default_strings,
    );
    let ghost new = new_localized_foreign_strings@;
    let ghost already = already_localized_foreign_strings@;
    let mut to_be_written_foreign_strings = merge_and_group_strings(
        new_localized_foreign_strings.as_mut_slice(),
        already_localized_foreign_strings.as_mut_slice(),
    );
    dedup_grouped_strings(&mut to_be_written_foreign_strings);
    proof {
        let chosen = strings_with_views(extracted(localized_strings@, defaults));
        assert(views_of(chosen) == extracted(localized_strings@, defaults));
        lemma_same_views_alike(new, chosen);
        lemma_same_views_alike(already, already);
        lemma_sort_alike(new, chosen, same_view());
        lemma_sort_alike(already, already, same_view());
        lemma_merge_alike(sort_by_name(new), sort_by_name(already), sort_by_name(chosen), sort_by_name(already), same_view());
        lemma_dedup_alike(merged_and_grouped(new, already), merged_and_grouped(chosen, already), same_view());
        lemma_alike_same_views(
            dedup_by_name(merged_and_grouped(new, already)),
            dedup_by_name(merged_and_grouped(chosen, already)),
        );
    }
    proof {
        if has_distinct_names(localized_strings@) && has_distinct_names(defaults) {
            assert forall|l: LocalizedString, d: AndroidString|
                localized_strings@.contains(l) && defaults.contains(d) && l@.name == d@.name && l@.default == d@.value
                    implies views_of(to_be_written_foreign_strings@).contains(
                AndroidStringView { name: l@.name, value: l@.localized, is_localizable: d@.is_localizable },
            ) by {
                lemma_localized_texts_written(localized_strings@, defaults, existing, new, l, d);
            }
        }
        if has_distinct_names(localized_strings@) && has_distinct_names(defaults) && has_distinct_names(existing) {
            assert forall|e: AndroidString|
                #[trigger] existing.contains(e) && e@.is_localizable && !(exists|l: LocalizedString, d: AndroidString|
                    #[trigger] localized_strings@.contains(l) && #[trigger] defaults.contains(d) && l@.name == d@.name
                        && l@.default == d@.value && l@.name == e@.name) implies views_of(
                to_be_written_foreign_strings@,
            ).contains(e@) by {
                lemma_untouched_strings_kept(localized_strings@, defaults, existing, new, e);
            }
        }
    }
    let changed = !same_strings(to_be_written_foreign_strings.as_slice(), existing_copy.as_slice());
    (to_be_written_foreign_strings, changed)
}

/// A copy of a list of strings
fn copy_strings(strings: &[AndroidString]) -> (r: Vec<AndroidString>)
    ensures
        r@ == strings@,
{
    let mut r: Vec<AndroidString> = Vec::new();
    let mut i: usize = 0;
    while i < strings.len()
        invariant
            i <= strings@.len(),
            r@ == strings@.take(i as int),
        decreases strings@.len() - i,
    {
        r.push(strings[i].duplicate());
        i = i + 1;
        assert(r@ =~= strings@.take(i as int));
    }
    assert(strings@.take(i as int) =~= strings@);
    r
}

/// Whether two lists of strings hold the same strings
fn same_strings(a: &[AndroidString], b: &[AndroidString]) -> (r: bool)
    ensures
        r == (views_of(a@) == views_of(b@)),
{
    if a.len() != b.len() {
        assert(views_of(a@).len() != views_of(b@).len());
        return false;
    }
    let mut i: usize = 0;
    while i < a.len()
        invariant
            i <= a@.len(),
            a@.len() == b@.len(),
            forall|k: int| 0 <= k < i ==> a@[k]@ == b@[k]@,
        decreases a@.len() - i,
    {
        if !strs_equal(a[i].name(), b[i].name()) || !strs_equal(a[i].value(), b[i].value()) || a[i].is_localizable()
            != b[i].is_localizable() {
            assert(views_of(a@)[i as int] != views_of(b@)[i as int]);
            return false;
        }
        i = i + 1;
    }
    assert(views_of(a@) =~= views_of(b@));
    true
}

/// The value of the first pair with the given key
pub open spec fn lookup(map: Seq<(Seq<char>, Seq<char>)>, key: Seq<char>) -> Option<Seq<char>>
    decreases map.len(),
{
    if map.len() == 0 {
        None
    } else if map[0].0 == key {
        Some(map[0].1)
    } else {
        lookup(map.drop_first(), key)
    }
}

/// The locale id that a locale name maps to
pub fn locale_id_for(locale_name_to_id_map: &[(String, String)], locale_name: &str) -> (r: Option<String>)
    ensures
        match r {
            Some(id) => lookup(pair_texts(locale_name_to_id_map@), locale_name@) == Some(id@),
            None => lookup(pair_texts(locale_name_to_id_map@), locale_name@) is None,
        },
{
    let ghost pairs = pair_texts(locale_name_to_id_map@);
    let mut i: usize = 0;
    assert(pairs.skip(0) =~= pairs);
    while i < locale_name_to_id_map.len()
        invariant
            i <= locale_name_to_id_map@.len(),
            pairs == pair_texts(locale_name_to_id_map@),
            lookup(pairs, locale_name@) == lookup(pairs.skip(i as int), locale_name@),
        decreases locale_name_to_id_map@.len() - i,
    {
        proof {
            assert(pairs.skip(i as int)[0] == pairs[i as int]);
            assert(pairs.skip(i as int).drop_first() =~= pairs.skip(i + 1));
        }
        if strs_equal(locale_name_to_id_map[i].0.as_str(), locale_name) {
            return Some(locale_name_to_id_map[i].1.clone());
        }
        i = i + 1;
    }
    assert(pairs.skip(i as int).len() == 0);
    None
}

/// The keys of a map, in order
pub fn map_keys(map: &[(String, String)]) -> (r: Vec<String>)
    ensures
        r@.len() == map@.len(),
        forall|i: int| 0 <= i < map@.len() ==> (#[trigger] r@[i])@ == map@[i].0@,
{
    let mut keys: Vec<String> = Vec::new();
    let mut i: usize = 0;
    while i < map.len()
        invariant
            i <= map@.len(),
            keys@.len() == i,
            forall|k: int| 0 <= k < i ==> (#[trigger] keys@[k])@ == map@[k].0@,
        decreases map@.len() - i,
    {
        keys.push(map[i].0.clone());
        i = i + 1;
    }
    keys
}

} // verus!
