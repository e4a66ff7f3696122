//! Reading localized strings out of a CSV file: a header row `string_name,
//! default_locale, <locale>...`, then a row per string with its name, its
//! default value & its value in each locale

use vstd::prelude::*;

use crate::error::{is_message, InnerError};
use crate::external::{csv_read_rows, csv_rows_of, row_texts};
use crate::localized_string::{LocalizedString, LocalizedStringView};
use crate::localized_strings::LocalizedStrings;
use crate::names::strs_equal;
use vstd::string::StrSliceExecFns;
use crate::text::texts_of;

verus! {

/// Why a header row can't be used, if it can't
pub open spec fn header_error(header: Seq<Seq<char>>) -> Option<Seq<char>> {
    if header.len() < 3 {
        Some("Too few values in header (at least 3 required)"@)
    } else if header[0] != "string_name"@ {
        Some("First header should be named string_name"@)
    } else if header[1] != "default_locale"@ {
        Some("Second header should be named default_locale"@)
    } else {
        None
    }
}

/// For each locale column of the header, whether it is to be read
pub open spec fn allow_flags(header: Seq<Seq<char>>, allowed: Seq<Seq<char>>) -> Seq<bool> {
    header.skip(2).map_values(|locale: Seq<char>| allowed.contains(locale))
}

/// The locales to be read, in the order of their columns
pub open spec fn allowed_locales(header: Seq<Seq<char>>, allowed: Seq<Seq<char>>) -> Seq<Seq<char>> {
    header.skip(2).filter(|locale: Seq<char>| allowed.contains(locale))
}

/// The values whose flags are set, in order
pub open spec fn picked(values: Seq<Seq<char>>, flags: Seq<bool>) -> Seq<Seq<char>>
    decreases values.len(),
{
    if values.len() == 0 {
        Seq::empty()
    } else {
        let rest = picked(values.drop_last(), flags);
        let i = values.len() - 1;
        if i < flags.len() && flags[i] {
            rest.push(values.last())
        } else {
            rest
        }
    }
}

/// The fields after the first two
pub open spec fn locale_fields(record: Seq<Seq<char>>) -> Seq<Seq<char>> {
    if record.len() <= 2 {
        Seq::empty()
    } else {
        record.skip(2)
    }
}

/// The field at `i` of a record, empty where the record is shorter
pub open spec fn field(record: Seq<Seq<char>>, i: int) -> Seq<char> {
    if i < record.len() {
        record[i]
    } else {
        Seq::empty()
    }
}

/// The error message for a record without a string name
pub open spec fn empty_name_message() -> Seq<char> {
    "string_name can't be empty for any record"@
}

/// Whether some record has no string name
pub open spec fn some_name_empty(records: Seq<Seq<Seq<char>>>) -> bool {
    exists|k: int| 0 <= k < records.len() && (#[trigger] field(records[k], 0)).len() == 0
}

/// The localized strings of one locale (the `j`th one read) out of the
/// records: one for each record with a non empty value for it, in order
pub open spec fn localized_for(records: Seq<Seq<Seq<char>>>, flags: Seq<bool>, j: int) -> Seq<LocalizedStringView>
    decreases records.len(),
{
    if records.len() == 0 {
        Seq::empty()
    } else {
        let rest = localized_for(records.drop_last(), flags, j);
        let record = records.last();
        let values = picked(locale_fields(record), flags);
        if j < values.len() && values[j].len() > 0 {
            rest.push(LocalizedStringView { name: field(record, 0), default: field(record, 1), localized: values[j] })
        } else {
            rest
        }
    }
}

/// Every record with a non-empty value for the `j`th locale read gives that
/// locale a localized string of the record's name, default value & that value,
/// whatever the value is
pub proof fn lemma_every_value_read(records: Seq<Seq<Seq<char>>>, flags: Seq<bool>, j: int, m: int)
    requires
        0 <= m < records.len(),
        0 <= j < picked(locale_fields(records[m]), flags).len(),
        picked(locale_fields(records[m]), flags)[j].len() > 0,
    ensures
        localized_for(records, flags, j).contains(
            LocalizedStringView {
                name: field(records[m], 0),
                default: field(records[m], 1),
                localized: picked(locale_fields(records[m]), flags)[j],
            },
        ),
    decreases records.len(),
{
    let rest = localized_for(records.drop_last(), flags, j);
    let all = localized_for(records, flags, j);
    if m == records.len() - 1 {
        assert(records.last() == records[m]);
        assert(all[all.len() - 1] == all.last());
    } else {
        assert(records.drop_last()[m] == records[m]);
        lemma_every_value_read(records.drop_last(), flags, j, m);
        let v = LocalizedStringView {
            name: field(records[m], 0),
            default: field(records[m], 1),
            localized: picked(locale_fields(records[m]), flags)[j],
        };
        let i = choose|i: int| 0 <= i < rest.len() && rest[i] == v;
        assert(all[i] == rest[i]);
    }
}

/// Each localized string of the `j`th locale read comes from a record with a
/// non-empty value for that locale
pub proof fn lemma_only_values_read(records: Seq<Seq<Seq<char>>>, flags: Seq<bool>, j: int, v: LocalizedStringView)
    requires
        localized_for(records, flags, j).contains(v),
    ensures
        exists|m: int|
            0 <= m < records.len() && j < picked(locale_fields(#[trigger] records[m]), flags).len() && v
                == (LocalizedStringView {
                name: field(records[m], 0),
                default: field(records[m], 1),
                localized: picked(locale_fields(records[m]), flags)[j],
            }) && v.localized.len() > 0,
    decreases records.len(),
{
    let rest = localized_for(records.drop_last(), flags, j);
    let all = localized_for(records, flags, j);
    let i = choose|i: int| 0 <= i < all.len() && all[i] == v;
    if i < rest.len() && rest.len() <= all.len() && all[i] == rest[i] {
        assert(rest.contains(v));
        lemma_only_values_read(records.drop_last(), flags, j, v);
        let m = choose|m: int|
            0 <= m < records.drop_last().len() && j < picked(locale_fields(#[trigger] records.drop_last()[m]), flags).len()
                && v == (LocalizedStringView {
                name: field(records.drop_last()[m], 0),
                default: field(records.drop_last()[m], 1),
                localized: picked(locale_fields(records.drop_last()[m]), flags)[j],
            }) && v.localized.len() > 0;
        assert(records.drop_last()[m] == records[m]);
    } else {
        assert(records.last() == records[records.len() - 1]);
    }
}

/// What a header row says: the locales to read & which columns hold them
#[derive(Debug)]
pub struct FilteredHeaders {
    pub foreign_locales: Vec<String>,
    pub foreign_indices_allow_flags: Vec<bool>,
}

/// What a record holds: a string's name, its default value & its values in
/// the locales to read
#[derive(Debug)]
pub struct LocalizedRecord {
    pub string_name: String,
    pub default_value: String,
    pub foreign_values: Vec<String>,
}

/// Whether the texts of `allowed` hold `text`
fn contains_text(allowed: &[String], text: &str) -> (r: bool)
    ensures
        r == texts_of(allowed@).contains(text@),
{
    let mut i: usize = 0;
    while i < allowed.len()
        invariant
            i <= allowed@.len(),
            forall|k: int| 0 <= k < i ==> allowed@[k]@ != text@,
        decreases allowed@.len() - i,
    {
        if strs_equal(allowed[i].as_str(), text) {
            assert(texts_of(allowed@)[i as int] == text@);
            return true;
        }
        i = i + 1;
    }
    assert(!texts_of(allowed@).contains(text@)) by {
        if texts_of(allowed@).contains(text@) {
            let k = choose|k: int| 0 <= k < texts_of(allowed@).len() && texts_of(allowed@)[k] == text@;
            assert(allowed@[k]@ == text@);
        }
    }
    false
}

/// Checks the header row & picks the locales to read (those allowed) out of it
pub fn extract_filtered_headers(record: &[String], allow_only_locales: &[String]) -> (r: Result<FilteredHeaders, InnerError>)
    ensures
        match r {
            Ok(h) => header_error(texts_of(record@)) is None && texts_of(h.foreign_locales@) == allowed_locales(
                texts_of(record@),
                texts_of(allow_only_locales@),
            ) && h.foreign_indices_allow_flags@ == allow_flags(texts_of(record@), texts_of(allow_only_locales@)),
            Err(e) => header_error(texts_of(record@)) matches Some(m) && is_message(e.kind, m),
        },
{
    proof {
        reveal_strlit("string_name");
        reveal_strlit("default_locale");
    }
    let ghost header = texts_of(record@);
    let ghost allowed = texts_of(allow_only_locales@);
    let ghost allows = |locale: Seq<char>| allowed.contains(locale);
    if record.len() < 3 {
        return Err(InnerError::from_message("Too few values in header (at least 3 required)"));
    }
    if !strs_equal(record[0].as_str(), "string_name") {
        return Err(InnerError::from_message("First header should be named string_name"));
    }
    if !strs_equal(record[1].as_str(), "default_locale") {
        return Err(InnerError::from_message("Second header should be named default_locale"));
    }
    let mut foreign_indices_allow_flags: Vec<bool> = Vec::new();
    let mut foreign_locales: Vec<String> = Vec::new();
    let mut i: usize = 2;
    let ghost locales = header.skip(2);
    assert(locales.take(0) =~= Seq::<Seq<char>>::empty());
    assert(texts_of(foreign_locales@) =~= Seq::<Seq<char>>::empty());
    while i < record.len()
        invariant
            2 <= i <= record@.len(),
            header == texts_of(record@),
            locales == header.skip(2),
            allows == (|locale: Seq<char>| allowed.contains(locale)),
            allowed == texts_of(allow_only_locales@),
            foreign_indices_allow_flags@ == locales.take(i - 2).map_values(allows),
            texts_of(foreign_locales@) == locales.take(i - 2).filter(allows),
        decreases record@.len() - i,
    {
        let ghost done = locales.take(i - 2);
        proof {
            assert(locales.take(i - 1) =~= done.push(record@[i as int]@));
            done.lemma_filter_push(record@[i as int]@, allows);
        }
        let allow_index = contains_text(allow_only_locales, record[i].as_str());
        foreign_indices_allow_flags.push(allow_index);
        if allow_index {
            let ghost before = foreign_locales@;
            foreign_locales.push(record[i].clone());
            assert(texts_of(foreign_locales@) =~= texts_of(before).push(record@[i as int]@));
        }
        i = i + 1;
        assert(foreign_indices_allow_flags@ =~= locales.take(i - 2).map_values(allows));
    }
    assert(locales.take(i - 2) =~= locales);
    Ok(FilteredHeaders { foreign_locales, foreign_indices_allow_flags })
}

/// Takes a record apart: its string name (which must not be empty), its
/// default value & its values in the locales to read
pub fn extract_localized_record(record: &[String], foreign_indices_allow_flags: &[bool]) -> (r: Result<LocalizedRecord, InnerError>)
    ensures
        match r {
            Ok(l) => field(texts_of(record@), 0).len() > 0 && l.string_name@ == field(texts_of(record@), 0)
                && l.default_value@ == field(texts_of(record@), 1) && texts_of(l.foreign_values@) == picked(
                locale_fields(texts_of(record@)),
                foreign_indices_allow_flags@,
            ),
            Err(e) => field(texts_of(record@), 0).len() == 0 && is_message(e.kind, empty_name_message()),
        },
{
    let ghost fields = texts_of(record@);
    let string_name = if record.len() > 0 { String::from_str(record[0].as_str()) } else { String::new() };
    let default_value = if record.len() > 1 { String::from_str(record[1].as_str()) } else { String::new() };
    if string_name.as_str().unicode_len() == 0 {
        return Err(InnerError::from_message("string_name can't be empty for any record"));
    }
    let mut foreign_values: Vec<String> = Vec::new();
    let mut i: usize = 2;
    let ghost values = locale_fields(fields);
    assert(values.take(0) =~= Seq::<Seq<char>>::empty());
    assert(texts_of(foreign_values@) =~= Seq::<Seq<char>>::empty());
    while i < record.len()
        invariant
            2 <= i <= record@.len() || (record@.len() <= 2 && i == 2),
            fields == texts_of(record@),
            values == locale_fields(fields),
            texts_of(foreign_values@) == picked(values.take(i - 2), foreign_indices_allow_flags@),
        decreases record@.len() - i,
    {
        proof {
            assert(values.take(i - 1).drop_last() =~= values.take(i - 2));
            assert(values.take(i - 1).last() == record@[i as int]@);
        }
        if i - 2 < foreign_indices_allow_flags.len() && foreign_indices_allow_flags[i - 2] {
            let ghost before = foreign_values@;
            foreign_values.push(record[i].clone());
            assert(texts_of(foreign_values@) =~= texts_of(before).push(record@[i as int]@));
        }
        i = i + 1;
    }
    assert(values.take(i - 2) =~= values);
    Ok(LocalizedRecord { string_name, default_value, foreign_values })
}


/// What the localized strings of a locale hold
pub open spec fn localized_views(strings: Seq<LocalizedString>) -> Seq<LocalizedStringView> {
    strings.map_values(|s: LocalizedString| s@)
}

/// Reads the localized strings of each allowed locale out of CSV content, in
/// the order of the locale columns: a string goes to a locale's list where its
/// value for that locale isn't empty. Fails where the content isn't proper
/// CSV, where the header row isn't as expected & where a record has no name
pub fn read(content: &[u8], allow_only_locales: &[String]) -> (r: Result<Vec<LocalizedStrings>, InnerError>)
    ensures
        ({
            let (rows, malformed) = csv_rows_of(content@);
            let allowed = texts_of(allow_only_locales@);
            match r {
                Ok(list) => rows.len() > 0 && header_error(rows[0]) is None && !some_name_empty(rows.skip(1))
                    && !malformed && list@.len() == allowed_locales(rows[0], allowed).len() && forall|j: int|
                    0 <= j < list@.len() ==> (#[trigger] list@[j])@.locale == allowed_locales(rows[0], allowed)[j]
                        && localized_views(list@[j]@.strings) == localized_for(
                        rows.skip(1),
                        allow_flags(rows[0], allowed),
                        j,
                    ) && forall|m: int|
                        1 <= m < rows.len() && j < picked(locale_fields(#[trigger] rows[m]), allow_flags(rows[0], allowed)).len()
                            && picked(locale_fields(rows[m]), allow_flags(rows[0], allowed))[j].len() > 0
                            ==> localized_views(list@[j]@.strings).contains(
                            LocalizedStringView {
                                name: field(rows[m], 0),
                                default: field(rows[m], 1),
                                localized: picked(locale_fields(rows[m]), allow_flags(rows[0], allowed))[j],
                            },
                        ),
                Err(e) => if rows.len() == 0 {
                    e.kind is Csv
                } else if header_error(rows[0]) is Some {
                    is_message(e.kind, header_error(rows[0])->Some_0)
                } else if some_name_empty(rows.skip(1)) {
                    is_message(e.kind, empty_name_message())
                } else {
                    malformed && e.kind is Csv
                },
            }
        }),
{
    let (rows, error) = csv_read_rows(content);
    let ghost all = row_texts(rows@);
    if rows.len() == 0 {
        return match error {
            Some(e) => Err(InnerError::from_csv(e)),
            None => Err(InnerError::from_message("")),
        };
    }
    let headers = match extract_filtered_headers(rows[0].as_slice(), allow_only_locales) {
        Ok(h) => h,
        Err(e) => return Err(e),
    };
    let ghost records_rows = all.skip(1);
    let ghost flags = headers.foreign_indices_allow_flags@;
    let mut records: Vec<LocalizedRecord> = Vec::new();
    let mut k: usize = 1;
    while k < rows.len()
        invariant
            1 <= k <= rows@.len(),
            all == row_texts(rows@),
            records_rows == all.skip(1),
            flags == headers.foreign_indices_allow_flags@,
            csv_rows_of(content@) == (all, error is Some),
            header_error(all[0]) is None,
            records@.len() == k - 1,
            forall|m: int| 0 <= m < k - 1 ==> field(records_rows[m], 0).len() > 0,
            forall|m: int|
                0 <= m < k - 1 ==> (#[trigger] records@[m]).string_name@ == field(records_rows[m], 0)
                    && records@[m].default_value@ == field(records_rows[m], 1) && texts_of(records@[m].foreign_values@)
                    == picked(locale_fields(records_rows[m]), flags),
        decreases rows@.len() - k,
    {
        assert(records_rows[k - 1] == texts_of(rows@[k as int]@));
        match extract_localized_record(rows[k].as_slice(), headers.foreign_indices_allow_flags.as_slice()) {
            Ok(record) => records.push(record),
            Err(e) => {
                assert(field(records_rows[k - 1], 0).len() == 0);
                assert(some_name_empty(records_rows));
                return Err(e);
            },
        }
        k = k + 1;
    }
    if let Some(e) = error {
        return Err(InnerError::from_csv(e));
    }
    let mut list: Vec<LocalizedStrings> = Vec::new();
    let mut j: usize = 0;
    while j < headers.foreign_locales.len()
        invariant
            j <= headers.foreign_locales@.len(),
            records@.len() == records_rows.len(),
            forall|m: int|
                0 <= m < records@.len() ==> (#[trigger] records@[m]).string_name@ == field(records_rows[m], 0)
                    && records@[m].default_value@ == field(records_rows[m], 1) && texts_of(records@[m].foreign_values@)
                    == picked(locale_fields(records_rows[m]), flags),
            list@.len() == j,
            forall|i: int|
                0 <= i < j ==> (#[trigger] list@[i])@.locale == headers.foreign_locales@[i]@ && localized_views(
                    list@[i]@.strings,
                ) == localized_for(records_rows, flags, i),
        decreases headers.foreign_locales@.len() - j,
    {
        let mut strings: Vec<LocalizedString> = Vec::new();
        let mut m: usize = 0;
        assert(records_rows.take(0) =~= Seq::<Seq<Seq<char>>>::empty());
        assert(localized_views(strings@) =~= Seq::<LocalizedStringView>::empty());
        while m < records.len()
            invariant
                m <= records@.len(),
                records@.len() == records_rows.len(),
                forall|n: int|
                    0 <= n < records@.len() ==> (#[trigger] records@[n]).string_name@ == field(records_rows[n], 0)
                        && records@[n].default_value@ == field(records_rows[n], 1) && texts_of(
                        records@[n].foreign_values@,
                    ) == picked(locale_fields(records_rows[n]), flags),
                localized_views(strings@) == localized_for(records_rows.take(m as int), flags, j as int),
            decreases records@.len() - m,
        {
            proof {
                assert(records_rows.take(m + 1).drop_last() =~= records_rows.take(m as int));
                assert(records_rows.take(m + 1).last() == records_rows[m as int]);
            }
            let record = &records[m];
            if j < record.foreign_values.len() && record.foreign_values[j].as_str().unicode_len() > 0 {
                assert(texts_of(record.foreign_values@)[j as int] == record.foreign_values@[j as int]@);
                let ghost before = strings@;
                strings.push(
                    LocalizedString::new(
                        record.string_name.clone(),
                        record.default_value.clone(),
                        record.foreign_values[j].clone(),
                    ),
                );
                assert(localized_views(strings@) =~= localized_views(before).push(strings@.last()@));
            }
            m = m + 1;
        }
        assert(records_rows.take(m as int) =~= records_rows);
        list.push(LocalizedStrings::new(headers.foreign_locales[j].clone(), strings));
        j = j + 1;
    }
    assert forall|i: int| 0 <= i < list@.len() implies (#[trigger] list@[i])@.locale == allowed_locales(
        all[0],
        texts_of(allow_only_locales@),
    )[i] by {
        assert(texts_of(headers.foreign_locales@)[i] == headers.foreign_locales@[i]@);
    }
    assert forall|i: int, m: int|
        0 <= i < list@.len() && 1 <= m < all.len() && i < picked(locale_fields(#[trigger] all[m]), flags).len()
            && picked(locale_fields(all[m]), flags)[i].len() > 0 implies localized_views(
        (#[trigger] list@[i])@.strings,
    ).contains(
        LocalizedStringView {
            name: field(all[m], 0),
            default: field(all[m], 1),
            localized: picked(locale_fields(all[m]), flags)[i],
        },
    ) by {
        assert(records_rows[m - 1] == all[m]);
        lemma_every_value_read(records_rows, flags, i, m - 1);
    }
    Ok(list)
}

} // verus!
