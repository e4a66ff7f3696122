//! Writing strings to be localized out as CSV: one file for the locales that
//! need the same strings localized

use vstd::prelude::*;

use crate::android_string::{views_of, AndroidString, AndroidStringView};
use crate::error::InnerError;
use crate::external::{csv_write_rows, csv_written_of, row_texts};
use crate::localizable_strings::{LocalizableStrings, LocalizableStringsView};
use crate::names::strs_equal;

verus! {

/// What each item of a list holds
pub open spec fn localizable_views(list: Seq<LocalizableStrings>) -> Seq<LocalizableStringsView> {
    list.map_values(|l: LocalizableStrings| l@)
}

/// What groups strings to be localized together: the default strings
pub open spec fn grouping_key(strings: LocalizableStringsView) -> Seq<AndroidStringView> {
    views_of(strings.default_locale_strings)
}

/// The keys of a list, each once, in order of first appearance
pub open spec fn distinct_keys(list: Seq<LocalizableStringsView>) -> Seq<Seq<AndroidStringView>>
    decreases list.len(),
{
    if list.len() == 0 {
        Seq::empty()
    } else {
        let rest = distinct_keys(list.drop_last());
        if rest.contains(grouping_key(list.last())) {
            rest
        } else {
            rest.push(grouping_key(list.last()))
        }
    }
}

/// Whether an item has the given key
pub open spec fn has_key(key: Seq<AndroidStringView>) -> spec_fn(LocalizableStringsView) -> bool {
    |strings: LocalizableStringsView| grouping_key(strings) == key
}

/// The groups of a list: for each key (in order of first appearance) the
/// items with that key, in order
pub open spec fn groups_of(list: Seq<LocalizableStringsView>) -> Seq<Seq<LocalizableStringsView>> {
    distinct_keys(list).map_values(|key: Seq<AndroidStringView>| list.filter(has_key(key)))
}

/// The keys are each there once, every item's key is among them & every one
/// of them is some item's key
pub proof fn lemma_distinct_keys(list: Seq<LocalizableStringsView>)
    ensures
        distinct_keys(list).no_duplicates(),
        forall|i: int| 0 <= i < list.len() ==> distinct_keys(list).contains(#[trigger] grouping_key(list[i])),
        forall|k: int|
            0 <= k < distinct_keys(list).len() ==> exists|i: int|
                0 <= i < list.len() && #[trigger] grouping_key(list[i]) == #[trigger] distinct_keys(list)[k],
    decreases list.len(),
{
    if list.len() > 0 {
        let d = list.drop_last();
        lemma_distinct_keys(d);
        let rest = distinct_keys(d);
        let keys = distinct_keys(list);
        let last = grouping_key(list.last());
        assert forall|i: int| 0 <= i < list.len() implies keys.contains(#[trigger] grouping_key(list[i])) by {
            if i < d.len() {
                assert(d[i] == list[i]);
                assert(rest.contains(grouping_key(d[i])));
                if !rest.contains(last) {
                    let m = choose|m: int| 0 <= m < rest.len() && rest[m] == grouping_key(d[i]);
                    assert(keys[m] == rest[m]);
                }
            } else {
                if !rest.contains(last) {
                    assert(keys[rest.len() as int] == last);
                }
            }
        }
        assert forall|k: int| #![trigger keys[k]] 0 <= k < keys.len() implies exists|i: int|
            0 <= i < list.len() && #[trigger] grouping_key(list[i]) == keys[k] by {
            if k < rest.len() {
                let i = choose|i: int| 0 <= i < d.len() && #[trigger] grouping_key(d[i]) == rest[k];
                assert(list[i] == d[i]);
                assert(keys[k] == rest[k]);
            } else {
                assert(grouping_key(list[list.len() - 1]) == keys[k]);
            }
        }
    }
}

/// An item is in the group of its key
proof fn lemma_in_group_of_its_key(list: Seq<LocalizableStringsView>, i: int)
    requires
        0 <= i < list.len(),
    ensures
        exists|j: int| 0 <= j < groups_of(list).len() && #[trigger] groups_of(list)[j].contains(list[i]),
{
    broadcast use Seq::lemma_filter_contains;

    lemma_distinct_keys(list);
    let keys = distinct_keys(list);
    let key = grouping_key(list[i]);
    assert(keys.contains(key));
    let j = choose|j: int| 0 <= j < keys.len() && keys[j] == key;
    assert(has_key(keys[j])(list[i]));
    assert(list.filter(has_key(keys[j])).contains(list[i]));
    assert(groups_of(list)[j] == list.filter(has_key(keys[j])));
    assert(groups_of(list)[j].contains(list[i]));
}

/// There are no more keys than items
pub proof fn lemma_distinct_keys_bounded(list: Seq<LocalizableStringsView>)
    ensures
        distinct_keys(list).len() <= list.len(),
        groups_of(list).len() == distinct_keys(list).len(),
    decreases list.len(),
{
    if list.len() > 0 {
        lemma_distinct_keys_bounded(list.drop_last());
    }
}

/// Whether `list[i]` is in some group
pub open spec fn in_some_group(list: Seq<LocalizableStringsView>, i: int) -> bool {
    exists|j: int| 0 <= j < groups_of(list).len() && #[trigger] groups_of(list)[j].contains(list[i])
}

/// Every item is in some group
proof fn lemma_each_item_grouped(list: Seq<LocalizableStringsView>)
    ensures
        forall|i: int| 0 <= i < list.len() ==> #[trigger] in_some_group(list, i),
{
    assert forall|i: int| 0 <= i < list.len() implies #[trigger] in_some_group(list, i) by {
        lemma_in_group_of_its_key(list, i);
    }
}

/// Every group holds items of its key alone (& at least one of them), no two
/// groups have the same key & every item is in a group: each locale goes to
/// exactly one file, along with the locales needing the same strings localized
pub proof fn lemma_groups_partition(list: Seq<LocalizableStringsView>)
    ensures
        forall|j: int|
            0 <= j < groups_of(list).len() ==> (#[trigger] groups_of(list)[j]).len() > 0 && forall|m: int|
                0 <= m < groups_of(list)[j].len() ==> grouping_key(#[trigger] groups_of(list)[j][m]) == distinct_keys(
                    list,
                )[j],
        forall|j: int, k: int|
            0 <= j < k < groups_of(list).len() ==> #[trigger] distinct_keys(list)[j] != #[trigger] distinct_keys(list)[k],
        forall|i: int| 0 <= i < list.len() ==> #[trigger] in_some_group(list, i),
{
    broadcast use Seq::lemma_filter_pred, Seq::lemma_filter_contains;

    lemma_distinct_keys(list);
    let keys = distinct_keys(list);
    let groups = groups_of(list);
    assert forall|j: int| 0 <= j < groups.len() implies (#[trigger] groups[j]).len() > 0 && forall|m: int|
        0 <= m < groups[j].len() ==> grouping_key(#[trigger] groups[j][m]) == keys[j] by {
        let i = choose|i: int| 0 <= i < list.len() && #[trigger] grouping_key(list[i]) == keys[j];
        assert(has_key(keys[j])(list[i]));
        assert(list.filter(has_key(keys[j])).contains(list[i]));
        assert forall|m: int| 0 <= m < groups[j].len() implies grouping_key(#[trigger] groups[j][m]) == keys[j] by {
            assert(has_key(keys[j])(list.filter(has_key(keys[j]))[m]));
        }
    }
    lemma_each_item_grouped(list);
}

/// The rows of a CSV file for locales needing the same strings localized:
/// `string_name, default_locale` & the locales, then each string's name & default
/// value followed by an empty field per locale
pub open spec fn csv_rows_for(list: Seq<LocalizableStringsView>) -> Seq<Seq<Seq<char>>> {
    seq![seq!["string_name"@, "default_locale"@] + list.map_values(|l: LocalizableStringsView| l.to_locale)]
        + list[0].default_locale_strings.map_values(
        |s: AndroidString| seq![s@.name, s@.value] + Seq::new(list.len(), |i: int| Seq::<char>::empty()),
    )
}

/// Writes out strings to be localized for the locales of a group
#[derive(Debug)]
pub struct Writer {
    strings_list: Vec<LocalizableStrings>,
}

impl View for Writer {
    type V = Seq<LocalizableStringsView>;

    closed spec fn view(&self) -> Seq<LocalizableStringsView> {
        localizable_views(self.strings_list@)
    }
}

/// Whether two lists of strings hold the same strings
fn same_strings(a: &[AndroidString], b: &[AndroidString]) -> (r: bool)
    ensures
        r == (views_of(a@) == views_of(b@)),
{
    if a.len() != b.len() {
        assert(views_of(a@).len() != views_of(b@).len());
        return false;
    }
    let mut i: usize = 0;
    while i < a.len()
        invariant
            i <= a@.len(),
            a@.len() == b@.len(),
            forall|k: int| 0 <= k < i ==> a@[k]@ == b@[k]@,
        decreases a@.len() - i,
    {
        if !strs_equal(a[i].name(), b[i].name()) || !strs_equal(a[i].value(), b[i].value()) || a[i].is_localizable()
            != b[i].is_localizable() {
            assert(views_of(a@)[i as int] != views_of(b@)[i as int]);
            return false;
        }
        i = i + 1;
    }
    assert(views_of(a@) =~= views_of(b@));
    true
}

/// A copy of strings to be localized
fn copy_localizable(strings: &LocalizableStrings) -> (r: LocalizableStrings)
    ensures
        r@ == strings@,
{
    let defaults = strings.default_locale_strings();
    let mut copied: Vec<AndroidString> = Vec::new();
    let mut i: usize = 0;
    while i < defaults.len()
        invariant
            i <= defaults@.len(),
            copied@ == defaults@.take(i as int),
        decreases defaults@.len() - i,
    {
        copied.push(defaults[i].duplicate());
        i = i + 1;
        assert(copied@ =~= defaults@.take(i as int));
    }
    assert(defaults@.take(i as int) =~= defaults@);
    LocalizableStrings::new(String::from_str(strings.to_locale()), copied)
}

/// Splits strings to be localized into groups of locales that need the same
/// strings localized: one writer per group, in order of first appearance
pub fn group_for_writing(strings_list: &[LocalizableStrings]) -> (r: Vec<Writer>)
    ensures
        r@.len() == groups_of(localizable_views(strings_list@)).len(),
        forall|j: int| 0 <= j < r@.len() ==> (#[trigger] r@[j])@ == groups_of(localizable_views(strings_list@))[j],
        forall|j: int| 0 <= j < r@.len() ==> (#[trigger] r@[j])@.len() > 0,
{
    let ghost views = localizable_views(strings_list@);
    // The first item of each group
    let mut firsts: Vec<usize> = Vec::new();
    let mut i: usize = 0;
    assert(views.take(0) =~= Seq::<LocalizableStringsView>::empty());
    while i < strings_list.len()
        invariant
            i <= strings_list@.len(),
            views == localizable_views(strings_list@),
            firsts@.len() == distinct_keys(views.take(i as int)).len(),
            forall|j: int| 0 <= j < firsts@.len() ==> (#[trigger] firsts@[j]) < i && grouping_key(views[firsts@[j] as int])
                == distinct_keys(views.take(i as int))[j],
        decreases strings_list@.len() - i,
    {
        let ghost keys = distinct_keys(views.take(i as int));
        proof {
            assert(views.take(i + 1).drop_last() =~= views.take(i as int));
            assert(views.take(i + 1).last() == views[i as int]);
        }
        let mut found = false;
        let mut j: usize = 0;
        while j < firsts.len()
            invariant
                j <= firsts@.len(),
                i < strings_list@.len(),
                views == localizable_views(strings_list@),
                firsts@.len() == keys.len(),
                forall|m: int| 0 <= m < firsts@.len() ==> (#[trigger] firsts@[m]) < i && grouping_key(views[firsts@[m] as int])
                    == keys[m],
                found == (exists|m: int| 0 <= m < j && keys[m] == grouping_key(views[i as int])),
            decreases firsts@.len() - j,
        {
            let f = firsts[j];
            if same_strings(strings_list[f].default_locale_strings(), strings_list[i].default_locale_strings()) {
                found = true;
            }
            j = j + 1;
        }
        proof {
            if found {
                let m = choose|m: int| 0 <= m < j && keys[m] == grouping_key(views[i as int]);
                assert(keys.contains(grouping_key(views[i as int])));
            } else {
                assert(!keys.contains(grouping_key(views[i as int])));
            }
        }
        if !found {
            firsts.push(i);
        }
        i = i + 1;
    }
    assert(views.take(i as int) =~= views);
    let ghost keys = distinct_keys(views);
    let mut writers: Vec<Writer> = Vec::new();
    let mut g: usize = 0;
    while g < firsts.len()
        invariant
            g <= firsts@.len(),
            views == localizable_views(strings_list@),
            keys == distinct_keys(views),
            firsts@.len() == keys.len(),
            forall|j: int| 0 <= j < firsts@.len() ==> (#[trigger] firsts@[j]) < views.len() && grouping_key(views[firsts@[j] as int])
                == keys[j],
            writers@.len() == g,
            forall|j: int| 0 <= j < g ==> (#[trigger] writers@[j])@ == views.filter(has_key(keys[j])),
            forall|j: int| 0 <= j < g ==> (#[trigger] writers@[j])@.len() > 0,
        decreases firsts@.len() - g,
    {
        let f = firsts[g];
        let ghost key = keys[g as int];
        let ghost pred = has_key(key);
        let mut group: Vec<LocalizableStrings> = Vec::new();
        let mut m: usize = 0;
        assert(views.take(0) =~= Seq::<LocalizableStringsView>::empty());
        assert(localizable_views(group@) =~= Seq::<LocalizableStringsView>::empty());
        while m < strings_list.len()
            invariant
                m <= strings_list@.len(),
                views == localizable_views(strings_list@),
                f < views.len(),
                grouping_key(views[f as int]) == key,
                pred == has_key(key),
                localizable_views(group@) == views.take(m as int).filter(pred),
                m > f ==> group@.len() > 0,
            decreases strings_list@.len() - m,
        {
            proof {
                assert(views.take(m + 1) =~= views.take(m as int).push(views[m as int]));
                views.take(m as int).lemma_filter_push(views[m as int], pred);
            }
            if same_strings(strings_list[f].default_locale_strings(), strings_list[m].default_locale_strings()) {
                let ghost before = group@;
                group.push(copy_localizable(&strings_list[m]));
                assert(localizable_views(group@) =~= localizable_views(before).push(views[m as int]));
            }
            m = m + 1;
        }
        assert(views.take(m as int) =~= views);
        writers.push(Writer { strings_list: group });
        g = g + 1;
    }
    assert forall|j: int| 0 <= j < writers@.len() implies (#[trigger] writers@[j])@ == groups_of(views)[j] by {}
    writers
}

impl Writer {
    /// The strings to be localized, one per locale of the group
    pub fn strings_list(&self) -> (r: &[LocalizableStrings])
        ensures
            localizable_views(r@) == self@,
    {
        self.strings_list.as_slice()
    }

    /// Writes the strings out as CSV: a header with the locales, then a row per
    /// default string (of the first locale: all of the group have the same)
    pub fn write(&self) -> (r: Result<Vec<u8>, InnerError>)
        requires
            self@.len() > 0,
        ensures
            match r {
                Ok(bytes) => csv_written_of(csv_rows_for(self@)) == Some(bytes@),
                Err(e) => csv_written_of(csv_rows_for(self@)) is None && e.kind is Csv,
            },
    {
        proof {
            reveal_strlit("string_name");
            reveal_strlit("default_locale");
        }
        let ghost list = self@;
        let locale_count = self.strings_list.len();
        let mut header: Vec<String> = Vec::new();
        header.push(String::from_str("string_name"));
        header.push(String::from_str("default_locale"));
        let mut i: usize = 0;
        while i < locale_count
            invariant
                i <= locale_count,
                locale_count == self.strings_list@.len(),
                list == localizable_views(self.strings_list@),
                header@.len() == i + 2,
                forall|k: int| 0 <= k < i + 2 ==> (#[trigger] header@[k])@ == (seq!["string_name"@, "default_locale"@]
                    + list.map_values(|l: LocalizableStringsView| l.to_locale))[k],
            decreases locale_count - i,
        {
            header.push(String::from_str(self.strings_list[i].to_locale()));
            i = i + 1;
        }
        let mut rows: Vec<Vec<String>> = Vec::new();
        rows.push(header);
        let defaults = self.strings_list[0].default_locale_strings();
        let mut v: usize = 0;
        while v < defaults.len()
            invariant
                v <= defaults@.len(),
                locale_count == list.len(),
                list == localizable_views(self.strings_list@),
                defaults@ == list[0].default_locale_strings,
                rows@.len() == v + 1,
                row_texts(rows@)[0] == csv_rows_for(list)[0],
                forall|k: int| 1 <= k <= v ==> (#[trigger] row_texts(rows@)[k]) == csv_rows_for(list)[k],
            decreases defaults@.len() - v,
        {
            let mut record: Vec<String> = Vec::new();
            record.push(String::from_str(defaults[v].name()));
            record.push(String::from_str(defaults[v].value()));
            let mut e: usize = 0;
            while e < locale_count
                invariant
                    e <= locale_count,
                    record@.len() == e + 2,
                    record@[0]@ == defaults@[v as int]@.name,
                    record@[1]@ == defaults@[v as int]@.value,
                    forall|k: int| 2 <= k < e + 2 ==> (#[trigger] record@[k])@ == Seq::<char>::empty(),
                decreases locale_count - e,
            {
                record.push(String::new());
                e = e + 1;
            }
            let ghost before = rows@;
            rows.push(record);
            proof {
                assert(row_texts(rows@)[v + 1] =~= csv_rows_for(list)[v + 1]);
                assert forall|k: int| 1 <= k <= v + 1 implies (#[trigger] row_texts(rows@)[k]) == csv_rows_for(list)[k] by {
                    if k <= v {
                        assert(row_texts(rows@)[k] == row_texts(before)[k]);
                    }
                }
                assert(row_texts(rows@)[0] == row_texts(before)[0]);
            }
            v = v + 1;
        }
        assert(row_texts(rows@) =~= csv_rows_for(list));
        match csv_write_rows(rows.as_slice()) {
            Ok(bytes) => Ok(bytes),
            Err(e) => Err(InnerError::from_csv(e)),
        }
    }
}

} // verus!
