//! Finding format strings (like `%1$s`) that differ from the default locale's

use vstd::prelude::*;
use std::cmp::Ordering;

use crate::android_string::{AndroidString, AndroidStringView};
use crate::external::{format_string_pattern, regex_find_all, regex_matches_of};
use crate::names::{compare_names, name_cmp, name_order, strs_equal, Named};
use crate::ops::sort::{
    has_distinct_names, lemma_sort_contains, lemma_sort_distinct_is_strict,
    alike_by_name, lemma_sort_alike, lemma_sort_is_permutation, sort_android_strings_by_name, sort_by_name,
    sort_slice_by_name,
};
use crate::text::texts_of;
use crate::util::two_pointer_comparison::{
    compare_by, index_pair, lemma_matches_agree, lemma_matches_by_name, lemma_matches_in_range, matching_pairs,
};

verus! {

/// A string along with the format strings found in its value
#[derive(Clone, Debug, PartialEq)]
pub struct ParsedData {
    pub android_string: AndroidString,
    pub sorted_format_strings: Vec<String>,
}

/// What a `ParsedData` holds
pub struct ParsedDataView {
    pub android_string: AndroidStringView,
    pub sorted_format_strings: Seq<Seq<char>>,
}

impl View for ParsedData {
    type V = ParsedDataView;

    open spec fn view(&self) -> ParsedDataView {
        ParsedDataView {
            android_string: self.android_string@,
            sorted_format_strings: texts_of(self.sorted_format_strings@),
        }
    }
}

impl Named for ParsedData {
    open spec fn name_view(&self) -> Seq<char> {
        self.android_string@.name
    }

    fn name_str(&self) -> (r: &str) {
        self.android_string.name()
    }
}

/// A default locale string & a foreign locale string of the same name whose
/// format strings differ
#[derive(Debug, PartialEq)]
pub struct Mismatch {
    pub default_parsed_data: ParsedData,
    pub foreign_parsed_data: ParsedData,
}

/// What a `Mismatch` holds
pub struct MismatchView {
    pub default_parsed_data: ParsedDataView,
    pub foreign_parsed_data: ParsedDataView,
}

impl View for Mismatch {
    type V = MismatchView;

    open spec fn view(&self) -> MismatchView {
        MismatchView { default_parsed_data: self.default_parsed_data@, foreign_parsed_data: self.foreign_parsed_data@ }
    }
}

/// All the mismatches found between two lists of strings
#[derive(Debug, PartialEq)]
pub struct Mismatches {
    pub mismatches: Vec<Mismatch>,
}

/// The format strings in a value, in order of appearance
pub open spec fn format_strings_of(value: Seq<char>) -> Seq<Seq<char>> {
    match regex_matches_of(format_string_pattern(), value) {
        Some(m) => m,
        None => Seq::empty(),
    }
}

/// Two lists of format strings agree when they hold the same format strings,
/// each as many times, in whatever order: a foreign value may put positional
/// arguments in another order than the default value
pub open spec fn same_format_strings(a: Seq<Seq<char>>, b: Seq<Seq<char>>) -> bool {
    a.to_multiset() == b.to_multiset()
}

/// What each mismatch of a list holds
pub open spec fn mismatch_views(mismatches: Seq<Mismatch>) -> Seq<MismatchView> {
    mismatches.map_values(|m: Mismatch| m@)
}

/// For each matched pair (default parsed data, foreign string) whose format
/// strings differ, the mismatch
pub open spec fn mismatches_from(
    defaults: Seq<ParsedData>,
    foreign: Seq<AndroidString>,
    pairs: Seq<(usize, usize)>,
) -> Seq<MismatchView>
    decreases pairs.len(),
{
    if pairs.len() == 0 {
        Seq::empty()
    } else {
        let rest = mismatches_from(defaults, foreign, pairs.drop_last());
        let d = defaults[pairs.last().0 as int];
        let f = foreign[pairs.last().1 as int];
        let found = format_strings_of(f@.value);
        if !same_format_strings(d@.sorted_format_strings, found) {
            rest.push(MismatchView {
                default_parsed_data: d@,
                foreign_parsed_data: ParsedDataView { android_string: f@, sorted_format_strings: found },
            })
        } else {
            rest
        }
    }
}

/// The mismatches `validate` finds between the parsed default strings & the
/// foreign strings: strings are matched up by name (in name order)
pub open spec fn format_mismatches(defaults: Seq<ParsedData>, foreign: Seq<AndroidString>) -> Seq<MismatchView> {
    let d = sort_by_name(defaults);
    let f = sort_by_name(foreign);
    mismatches_from(d, f, matching_pairs(d, f, name_order()))
}

/// `parsed` pairs each of `strings` with the format strings found in its value
pub open spec fn parsed_from(parsed: Seq<ParsedData>, strings: Seq<AndroidString>) -> bool {
    alike_by_name(parsed, strings, parsed_for())
}

/// Parsed data holds a string along with the format strings of its value
pub open spec fn parsed_for() -> spec_fn(ParsedData, AndroidString) -> bool {
    |p: ParsedData, s: AndroidString| p.android_string == s && p@.sorted_format_strings == format_strings_of(s@.value)
}

/// The parsed data of a string
pub open spec fn parsed_view(s: AndroidString) -> ParsedDataView {
    ParsedDataView { android_string: s@, sorted_format_strings: format_strings_of(s@.value) }
}

/// For each matched pair (default string, foreign string) whose format
/// strings differ, the mismatch
pub open spec fn string_mismatches_from(
    defaults: Seq<AndroidString>,
    foreign: Seq<AndroidString>,
    pairs: Seq<(usize, usize)>,
) -> Seq<MismatchView>
    decreases pairs.len(),
{
    if pairs.len() == 0 {
        Seq::empty()
    } else {
        let rest = string_mismatches_from(defaults, foreign, pairs.drop_last());
        let d = parsed_view(defaults[pairs.last().0 as int]);
        let f = parsed_view(foreign[pairs.last().1 as int]);
        if !same_format_strings(d.sorted_format_strings, f.sorted_format_strings) {
            rest.push(MismatchView { default_parsed_data: d, foreign_parsed_data: f })
        } else {
            rest
        }
    }
}

/// The mismatches between the format strings of default & foreign strings of
/// the same name (in name order)
pub open spec fn string_format_mismatches(defaults: Seq<AndroidString>, foreign: Seq<AndroidString>) -> Seq<MismatchView> {
    let d = sort_by_name(defaults);
    let f = sort_by_name(foreign);
    string_mismatches_from(d, f, matching_pairs(d, f, name_order()))
}

proof fn lemma_mismatches_from_parsed(
    parsed: Seq<ParsedData>,
    defaults: Seq<AndroidString>,
    foreign: Seq<AndroidString>,
    pairs: Seq<(usize, usize)>,
)
    requires
        parsed_from(parsed, defaults),
        forall|m: int| 0 <= m < pairs.len() ==> (#[trigger] pairs[m]).0 < defaults.len(),
    ensures
        mismatches_from(parsed, foreign, pairs) == string_mismatches_from(defaults, foreign, pairs),
    decreases pairs.len(),
{
    if pairs.len() > 0 {
        lemma_mismatches_from_parsed(parsed, defaults, foreign, pairs.drop_last());
        let i = pairs.last().0 as int;
        assert(pairs.last() == pairs[pairs.len() - 1]);
        assert(parsed_for()(parsed[i], defaults[i]));
    }
}

/// What `validate` finds depends only on the strings that the default data
/// was parsed from: the mismatches are those between the format strings of
/// default & foreign strings of the same name
pub proof fn lemma_parsed_mismatches(parsed: Seq<ParsedData>, defaults: Seq<AndroidString>, foreign: Seq<AndroidString>)
    requires
        parsed_from(parsed, defaults),
        defaults.len() <= usize::MAX,
        foreign.len() <= usize::MAX,
    ensures
        format_mismatches(parsed, foreign) == string_format_mismatches(defaults, foreign),
{
    let sp = sort_by_name(parsed);
    let sd = sort_by_name(defaults);
    let f = sort_by_name(foreign);
    lemma_sort_alike(parsed, defaults, parsed_for());
    assert forall|a: int, b: int| 0 <= a < sp.len() && 0 <= b < f.len() implies
        name_order::<ParsedData, AndroidString>()(#[trigger] sp[a], #[trigger] f[b])
            == name_order::<AndroidString, AndroidString>()(sd[a], f[b]) by {
        assert(sp[a].name_view() == sd[a].name_view());
    }
    lemma_matches_agree(sp, f, name_order(), sd, f, name_order(), 0, 0);
    lemma_sort_is_permutation(defaults);
    lemma_sort_is_permutation(foreign);
    let pairs = matching_pairs(sd, f, name_order::<AndroidString, AndroidString>());
    lemma_matches_in_range(sd, f, name_order::<AndroidString, AndroidString>(), 0, 0);
    lemma_mismatches_from_parsed(sp, sd, f, pairs);
}

/// The mismatch of a default & a foreign string
pub open spec fn mismatch_of(default: AndroidString, foreign: AndroidString) -> MismatchView {
    MismatchView { default_parsed_data: parsed_view(default), foreign_parsed_data: parsed_view(foreign) }
}

/// Whether two strings' format strings differ (in number or in kind)
pub open spec fn formats_differ(default: AndroidString, foreign: AndroidString) -> bool {
    !same_format_strings(format_strings_of(default@.value), format_strings_of(foreign@.value))
}

proof fn lemma_string_mismatches_contains(
    defaults: Seq<AndroidString>,
    foreign: Seq<AndroidString>,
    pairs: Seq<(usize, usize)>,
    m: MismatchView,
)
    requires
        forall|k: int| 0 <= k < pairs.len() ==> (#[trigger] pairs[k]).0 < defaults.len() && pairs[k].1 < foreign.len(),
        defaults.len() <= usize::MAX,
        foreign.len() <= usize::MAX,
    ensures
        string_mismatches_from(defaults, foreign, pairs).contains(m) <==> exists|a: int, b: int|
            0 <= a < defaults.len() && 0 <= b < foreign.len() && #[trigger] pairs.contains(index_pair(a, b))
                && formats_differ(defaults[a], foreign[b]) && m == mismatch_of(defaults[a], foreign[b]),
    decreases pairs.len(),
{
    if pairs.len() > 0 {
        let d = pairs.drop_last();
        let last = pairs.last();
        assert(last == pairs[pairs.len() - 1]);
        let (a0, b0) = (last.0 as int, last.1 as int);
        assert(index_pair(a0, b0) == last);
        lemma_string_mismatches_contains(defaults, foreign, d, m);
        assert(d.push(last) =~= pairs);
        assert forall|e: (usize, usize)| pairs.contains(e) == (d.contains(e) || e == last) by {
            if pairs.contains(e) && e != last {
                let k = choose|k: int| 0 <= k < pairs.len() && pairs[k] == e;
                assert(d[k] == pairs[k]);
            }
            if d.contains(e) {
                let k = choose|k: int| 0 <= k < d.len() && d[k] == e;
                assert(pairs[k] == d[k]);
            }
            if e == last {
                assert(pairs[pairs.len() - 1] == e);
            }
        }
        let rest = string_mismatches_from(defaults, foreign, d);
        let found = string_mismatches_from(defaults, foreign, pairs);
        let differ = formats_differ(defaults[a0], foreign[b0]);
        assert(differ ==> found == rest.push(mismatch_of(defaults[a0], foreign[b0])));
        assert(!differ ==> found == rest);
        if found.contains(m) {
            if rest.contains(m) {
                let (a, b) = choose|a: int, b: int|
                    0 <= a < defaults.len() && 0 <= b < foreign.len() && #[trigger] d.contains(index_pair(a, b))
                        && formats_differ(defaults[a], foreign[b]) && m == mismatch_of(defaults[a], foreign[b]);
                assert(pairs.contains(index_pair(a, b)));
            } else {
                assert(differ);
                assert(m == mismatch_of(defaults[a0], foreign[b0]));
                assert(pairs.contains(index_pair(a0, b0)));
            }
        }
        if exists|a: int, b: int|
            0 <= a < defaults.len() && 0 <= b < foreign.len() && #[trigger] pairs.contains(index_pair(a, b))
                && formats_differ(defaults[a], foreign[b]) && m == mismatch_of(defaults[a], foreign[b]) {
            let (a, b) = choose|a: int, b: int|
                0 <= a < defaults.len() && 0 <= b < foreign.len() && #[trigger] pairs.contains(index_pair(a, b))
                    && formats_differ(defaults[a], foreign[b]) && m == mismatch_of(defaults[a], foreign[b]);
            if d.contains(index_pair(a, b)) {
                assert(rest.contains(m));
                let k = choose|k: int| 0 <= k < rest.len() && rest[k] == m;
                if differ {
                    assert(found[k] == rest[k]);
                }
                assert(found.contains(m));
            } else {
                assert(index_pair(a, b) == last);
                assert((a as usize) as int == a && (b as usize) as int == b);
                assert(a == a0 && b == b0);
                assert(found[rest.len() as int] == m);
            }
        }
    }
}

/// In strings files without repeated names, the mismatches are exactly those of
/// the default & foreign strings of the same name whose format strings differ
pub proof fn lemma_format_mismatches_by_name(defaults: Seq<AndroidString>, foreign: Seq<AndroidString>, m: MismatchView)
    requires
        has_distinct_names(defaults),
        has_distinct_names(foreign),
        defaults.len() <= usize::MAX,
        foreign.len() <= usize::MAX,
    ensures
        string_format_mismatches(defaults, foreign).contains(m) <==> exists|x: AndroidString, y: AndroidString|
            #[trigger] defaults.contains(x) && #[trigger] foreign.contains(y) && x@.name == y@.name && formats_differ(x, y)
                && m == mismatch_of(x, y),
{
    let sd = sort_by_name(defaults);
    let sf = sort_by_name(foreign);
    lemma_sort_is_permutation(defaults);
    lemma_sort_is_permutation(foreign);
    lemma_sort_distinct_is_strict(defaults);
    lemma_sort_distinct_is_strict(foreign);
    let pairs = matching_pairs(sd, sf, name_order());
    lemma_matches_in_range(sd, sf, name_order(), 0, 0);
    lemma_matches_by_name(sd, sf);
    lemma_string_mismatches_contains(sd, sf, pairs, m);
    if string_format_mismatches(defaults, foreign).contains(m) {
        let (a, b) = choose|a: int, b: int|
            0 <= a < sd.len() && 0 <= b < sf.len() && #[trigger] pairs.contains(index_pair(a, b))
                && formats_differ(sd[a], sf[b]) && m == mismatch_of(sd[a], sf[b]);
        lemma_sort_contains(defaults, sd[a]);
        lemma_sort_contains(foreign, sf[b]);
        assert(sd.contains(sd[a]) && sf.contains(sf[b]));
        assert(sd[a].name_view() == sd[a]@.name && sf[b].name_view() == sf[b]@.name);
        assert(defaults.contains(sd[a]) && foreign.contains(sf[b]));
    }
    if exists|x: AndroidString, y: AndroidString|
        #[trigger] defaults.contains(x) && #[trigger] foreign.contains(y) && x@.name == y@.name && formats_differ(x, y)
            && m == mismatch_of(x, y) {
        let (x, y) = choose|x: AndroidString, y: AndroidString|
            #[trigger] defaults.contains(x) && #[trigger] foreign.contains(y) && x@.name == y@.name && formats_differ(x, y)
                && m == mismatch_of(x, y);
        lemma_sort_contains(defaults, x);
        lemma_sort_contains(foreign, y);
        let a = choose|a: int| 0 <= a < sd.len() && sd[a] == x;
        let b = choose|b: int| 0 <= b < sf.len() && sf[b] == y;
        assert(x.name_view() == x@.name && y.name_view() == y@.name);
        assert(pairs.contains(index_pair(a, b)));
    }
}

/// Orders parsed data & a string by their names
fn compare_parsed_to_string(parsed: &ParsedData, string: &AndroidString) -> (o: Ordering)
    ensures
        o == name_cmp(parsed.android_string@.name, string@.name),
{
    compare_names(parsed.android_string.name(), string.name())
}

/// How often a text occurs in a list of texts
fn count_text(v: &Vec<String>, t: &str) -> (n: usize)
    ensures
        n == texts_of(v@).to_multiset().count(t@),
{
    broadcast use vstd::seq_lib::group_to_multiset_ensures, vstd::multiset::group_multiset_axioms;

    let ghost texts = texts_of(v@);
    let mut n: usize = 0;
    let mut i: usize = 0;
    assert(texts.take(0) =~= Seq::<Seq<char>>::empty());
    while i < v.len()
        invariant
            i <= v@.len(),
            texts == texts_of(v@),
            n <= i,
            n == texts.take(i as int).to_multiset().count(t@),
        decreases v@.len() - i,
    {
        proof {
            let before = texts.take(i as int);
            assert(texts.take(i + 1) =~= before.push(v@[i as int]@));
            vstd::seq_lib::to_multiset_build(before, v@[i as int]@);
            assert(texts.take(i + 1).to_multiset() =~= before.to_multiset().insert(v@[i as int]@));
        }
        if strs_equal(v[i].as_str(), t) {
            n = n + 1;
        }
        i = i + 1;
    }
    assert(texts.take(i as int) =~= texts);
    n
}

/// Whether two lists of format strings hold the same format strings, each as
/// many times, in whatever order
fn same_format_string_lists(a: &Vec<String>, b: &Vec<String>) -> (r: bool)
    ensures
        r == same_format_strings(texts_of(a@), texts_of(b@)),
{
    broadcast use vstd::seq_lib::group_to_multiset_ensures;

    let ghost ma = texts_of(a@).to_multiset();
    let ghost mb = texts_of(b@).to_multiset();
    let mut i: usize = 0;
    while i < a.len()
        invariant
            i <= a@.len(),
            ma == texts_of(a@).to_multiset(),
            mb == texts_of(b@).to_multiset(),
            forall|k: int| 0 <= k < i ==> ma.count(#[trigger] a@[k]@) == mb.count(a@[k]@),
        decreases a@.len() - i,
    {
        if count_text(a, a[i].as_str()) != count_text(b, a[i].as_str()) {
            return false;
        }
        i = i + 1;
    }
    let mut j: usize = 0;
    while j < b.len()
        invariant
            j <= b@.len(),
            ma == texts_of(a@).to_multiset(),
            mb == texts_of(b@).to_multiset(),
            forall|k: int| 0 <= k < a@.len() ==> ma.count(#[trigger] a@[k]@) == mb.count(a@[k]@),
            forall|k: int| 0 <= k < j ==> ma.count(#[trigger] b@[k]@) == mb.count(b@[k]@),
        decreases b@.len() - j,
    {
        if count_text(a, b[j].as_str()) != count_text(b, b[j].as_str()) {
            return false;
        }
        j = j + 1;
    }
    assert forall|x: Seq<char>| ma.count(x) == mb.count(x) by {
        if ma.count(x) > 0 {
            assert(texts_of(a@).contains(x));
            let k = choose|k: int| 0 <= k < texts_of(a@).len() && texts_of(a@)[k] == x;
            assert(a@[k]@ == x);
        } else if mb.count(x) > 0 {
            assert(texts_of(b@).contains(x));
            let k = choose|k: int| 0 <= k < texts_of(b@).len() && texts_of(b@)[k] == x;
            assert(b@[k]@ == x);
        }
    }
    assert(ma =~= mb);
    true
}

/// A copy of a list of texts
fn copy_texts(v: &Vec<String>) -> (r: Vec<String>)
    ensures
        texts_of(r@) == texts_of(v@),
{
    let mut r: Vec<String> = Vec::new();
    let mut i: usize = 0;
    while i < v.len()
        invariant
            i <= v@.len(),
            r@.len() == i,
            forall|k: int| 0 <= k < i ==> r@[k]@ == v@[k]@,
        decreases v@.len() - i,
    {
        r.push(v[i].clone());
        i = i + 1;
    }
    assert(texts_of(r@) =~= texts_of(v@));
    r
}

/// Finds the format strings in a string's value
pub fn parse_format_strings(string: &AndroidString) -> (r: Vec<String>)
    ensures
        texts_of(r@) == format_strings_of(string@.value),
{
    match regex_find_all("(%\\d+\\$[ds])", string.value()) {
        Some(found) => found,
        None => Vec::new(),
    }
}

/// Pairs each string with the format strings found in its value
pub fn parse_and_build_data(strings: &[AndroidString]) -> (r: Vec<ParsedData>)
    ensures
        parsed_from(r@, strings@),
{
    let mut r: Vec<ParsedData> = Vec::new();
    let mut i: usize = 0;
    while i < strings.len()
        invariant
            i <= strings@.len(),
            r@.len() == i,
            forall|k: int|
                0 <= k < i ==> (#[trigger] r@[k]).android_string == strings@[k]
                    && r@[k]@.sorted_format_strings == format_strings_of(strings@[k]@.value),
        decreases strings@.len() - i,
    {
        let format_strings = parse_format_strings(&strings[i]);
        r.push(ParsedData { android_string: strings[i].duplicate(), sorted_format_strings: format_strings });
        i = i + 1;
    }
    assert forall|k: int| 0 <= k < r@.len() implies (#[trigger] r@[k]).name_view() == (#[trigger] strings@[k]).name_view()
        && parsed_for()(r@[k], strings@[k]) by {
        assert(r@[k].android_string == strings@[k]);
    }
    r
}

/// Matches up default parsed data & foreign strings by name (both lists end up
/// sorted by name) & fails with the pairs whose format strings differ in
/// number or in kind (their order doesn't matter), if any
pub fn validate(default_parsed_data: &mut [ParsedData], foreign_strings: &mut [AndroidString]) -> (r: Result<(), Mismatches>)
    ensures
        final(default_parsed_data)@ == sort_by_name(old(default_parsed_data)@),
        final(foreign_strings)@ == sort_by_name(old(foreign_strings)@),
        match r {
            Ok(()) => format_mismatches(old(default_parsed_data)@, old(foreign_strings)@).len() == 0,
            Err(e) => format_mismatches(old(default_parsed_data)@, old(foreign_strings)@).len() > 0
                && mismatch_views(e.mismatches@) == format_mismatches(old(default_parsed_data)@, old(foreign_strings)@),
        },
{
    sort_android_strings_by_name(foreign_strings);
    sort_slice_by_name(default_parsed_data);
    let pairs = compare_by(default_parsed_data, foreign_strings, compare_parsed_to_string, Ghost(name_order()));
    let ghost ds = default_parsed_data@;
    let ghost fs = foreign_strings@;
    let n1 = default_parsed_data.len();
    let n2 = foreign_strings.len();
    proof {
        lemma_matches_in_range(ds, fs, name_order(), 0, 0);
    }
    let mut mismatches: Vec<Mismatch> = Vec::new();
    let mut k: usize = 0;
    let ghost mut gk: int = 0;
    assert(pairs@.take(0) =~= Seq::<(usize, usize)>::empty());
    assert(mismatch_views(mismatches@) =~= Seq::<MismatchView>::empty());
    while k < pairs.len()
        invariant
            gk == k,
            k <= pairs@.len(),
            ds == default_parsed_data@,
            fs == foreign_strings@,
            pairs@ == matching_pairs(ds, fs, name_order()),
            forall|m: int| 0 <= m < pairs@.len() ==> (#[trigger] pairs@[m]).0 < ds.len() && pairs@[m].1 < fs.len(),
            mismatch_views(mismatches@) == mismatches_from(ds, fs, pairs@.take(gk)),
        decreases pairs@.len() - gk,
    {
        let (i, j) = pairs[k];
        proof {
            assert(pairs@.take(gk + 1).drop_last() =~= pairs@.take(gk));
            assert(pairs@.take(gk + 1).last() == pairs@[gk]);
        }
        let found = parse_format_strings(&foreign_strings[j]);
        if !same_format_string_lists(&default_parsed_data[i].sorted_format_strings, &found) {
            let mismatch = Mismatch {
                default_parsed_data: ParsedData {
                    android_string: default_parsed_data[i].android_string.duplicate(),
                    sorted_format_strings: copy_texts(&default_parsed_data[i].sorted_format_strings),
                },
                foreign_parsed_data: ParsedData {
                    android_string: foreign_strings[j].duplicate(),
                    sorted_format_strings: found,
                },
            };
            let ghost before = mismatches@;
            mismatches.push(mismatch);
            assert(mismatch_views(mismatches@) =~= mismatch_views(before).push(mismatch@));
        }
        k = k + 1;
        proof {
            gk = gk + 1;
        }
    }
    assert(pairs@.take(gk) =~= pairs@);
    if mismatches.len() == 0 {
        Ok(())
    } else {
        Err(Mismatches { mismatches })
    }
}

} // verus!
