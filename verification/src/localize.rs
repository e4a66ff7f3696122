//! Finding the strings that each foreign locale lacks, to send them off for
//! localization (the reading & writing of files stays with the caller)

use vstd::prelude::*;

use crate::android_string::AndroidString;
use crate::error::{is_message, InnerError, LocalizationError};
use crate::localizable_strings::{LocalizableStrings, LocalizableStringsView};
use crate::external::csv_written_of;
use crate::ops::filter::{find_localizable_strings, find_missing_strings, localizable_strings_of, missing_strings_of};
use crate::ops::sort::{lemma_sort_idempotent, sort_by_name};
use crate::util::xml_helper::{join_path, joined_path};
use crate::validate::formatter::{decimal, decimal_text};
use crate::writer::csv_writer::{
    csv_rows_for, distinct_keys, group_for_writing, groups_of, localizable_views, lemma_distinct_keys_bounded,
};

verus! {

/// An error about a path: the path is the context
fn path_error(path: &str, message: &str) -> (r: LocalizationError)
    ensures
        r.context@ == path@,
        is_message(r.kind, message@),
{
    InnerError::from_message(message).into_error(String::from_str(path))
}

/// The error when no foreign locale is to be handled
pub fn no_locales_error(res_dir_path: &str) -> (r: LocalizationError)
    ensures
        r.context@ == res_dir_path@,
        is_message(r.kind, "Res dir doesn't have any non-default values dir with strings file!"@),
{
    path_error(res_dir_path, "Res dir doesn't have any non-default values dir with strings file!")
}

/// Fails exactly when no foreign locale is to be handled: when the map of
/// locales is empty (the `res` directory is the context of the error)
pub fn check_has_locales(res_dir_path: &str, locale_map: &[(String, String)]) -> (r: Result<(), LocalizationError>)
    ensures
        match r {
            Ok(()) => locale_map@.len() > 0,
            Err(e) => locale_map@.len() == 0 && e.context@ == res_dir_path@ && is_message(
                e.kind,
                "Res dir doesn't have any non-default values dir with strings file!"@,
            ),
        },
{
    if locale_map.len() == 0 {
        Err(no_locales_error(res_dir_path))
    } else {
        Ok(())
    }
}

/// The error when the output directory is a file
pub fn output_dir_is_file_error(output_dir_path: &str) -> (r: LocalizationError)
    ensures
        r.context@ == output_dir_path@,
        is_message(r.kind, "Output directory path points to a file!"@),
{
    path_error(output_dir_path, "Output directory path points to a file!")
}

/// The error when an output file is already there
pub fn output_file_exists_error(output_file_path: &str) -> (r: LocalizationError)
    ensures
        r.context@ == output_file_path@,
        is_message(r.kind, "Output file already exists!"@),
{
    path_error(output_file_path, "Output file already exists!")
}

/// The path of the `n`th output file in a directory
pub open spec fn output_file_path(sink_dir: Seq<char>, n: nat) -> Seq<char> {
    joined_path(sink_dir, "to_localize_"@ + decimal(n) + ".csv"@)
}

/// Names the output files (`to_localize_<n>.csv`) in a directory & keeps
/// track of those created
#[derive(Debug)]
pub struct FileProvider {
    count_of_files_created: usize,
    sink_dir: String,
    created_files: Vec<String>,
}

/// What a `FileProvider` holds
pub struct FileProviderView {
    pub count_of_files_created: nat,
    pub sink_dir: Seq<char>,
    pub created_files: Seq<String>,
}

impl View for FileProvider {
    type V = FileProviderView;

    closed spec fn view(&self) -> FileProviderView {
        FileProviderView {
            count_of_files_created: self.count_of_files_created as nat,
            sink_dir: self.sink_dir@,
            created_files: self.created_files@,
        }
    }
}

impl FileProvider {
    pub fn new(sink_dir: String) -> (r: FileProvider)
        ensures
            r@.count_of_files_created == 0,
            r@.sink_dir == sink_dir@,
            r@.created_files.len() == 0,
    {
        FileProvider { sink_dir, created_files: Vec::new(), count_of_files_created: 0 }
    }

    /// The path of the next output file
    pub fn next_output_file_path(&mut self) -> (r: String)
        requires
            old(self)@.count_of_files_created < usize::MAX,
        ensures
            final(self)@.count_of_files_created == old(self)@.count_of_files_created + 1,
            final(self)@.sink_dir == old(self)@.sink_dir,
            final(self)@.created_files == old(self)@.created_files,
            r@ == output_file_path(old(self)@.sink_dir, final(self)@.count_of_files_created),
    {
        proof {
            reveal_strlit("to_localize_");
            reveal_strlit(".csv");
        }
        self.count_of_files_created = self.count_of_files_created + 1;
        let mut name = String::from_str("to_localize_");
        let number = decimal_text(self.count_of_files_created);
        name.append(number.as_str());
        name.append(".csv");
        join_path(self.sink_dir.as_str(), name.as_str())
    }

    /// Keeps track of a file that was created
    pub fn add_created_file(&mut self, path: String)
        ensures
            final(self)@.count_of_files_created == old(self)@.count_of_files_created,
            final(self)@.sink_dir == old(self)@.sink_dir,
            final(self)@.created_files == old(self)@.created_files.push(path),
    {
        self.created_files.push(path);
    }

    pub fn into_created_files(self) -> (r: Vec<String>)
        ensures
            r@ == self@.created_files,
    {
        self.created_files
    }
}

/// For each foreign locale (in order) with default strings it lacks, those
/// strings (sorted by name) to be localized to it
pub open spec fn strings_to_localize(
    defaults: Seq<AndroidString>,
    foreign: Seq<(String, Vec<AndroidString>)>,
) -> Seq<LocalizableStringsView>
    decreases foreign.len(),
{
    if foreign.len() == 0 {
        Seq::empty()
    } else {
        let rest = strings_to_localize(defaults, foreign.drop_last());
        let missing = missing_strings_of(foreign.last().1@, defaults);
        if missing.len() > 0 {
            rest.push(LocalizableStringsView { to_locale: foreign.last().0@, default_locale_strings: missing })
        } else {
            rest
        }
    }
}

/// A copy of a list of strings
fn copy_strings(strings: &[AndroidString]) -> (r: Vec<AndroidString>)
    ensures
        r@ == strings@,
{
    let mut r: Vec<AndroidString> = Vec::new();
    let mut i: usize = 0;
    while i < strings.len()
        invariant
            i <= strings@.len(),
            r@ == strings@.take(i as int),
        decreases strings@.len() - i,
    {
        r.push(strings[i].duplicate());
        i = i + 1;
        assert(r@ =~= strings@.take(i as int));
    }
    assert(strings@.take(i as int) =~= strings@);
    r
}

/// Finds the localizable default strings each foreign locale lacks: given
/// the name of each locale along with its strings, the strings to localize to
/// each locale that lacks any. The default strings end up sorted by name
/// (if there is any locale)
pub fn collect_strings_to_localize(
    localizable_default_strings: &mut [AndroidString],
    foreign_strings_by_locale: &[(String, Vec<AndroidString>)],
) -> (r: Vec<LocalizableStrings>)
    ensures
        foreign_strings_by_locale@.len() > 0 ==> final(localizable_default_strings)@ == sort_by_name(
            old(localizable_default_strings)@,
        ),
        foreign_strings_by_locale@.len() == 0 ==> final(localizable_default_strings)@ == old(
            localizable_default_strings,
        )@,
        localizable_views(r@) == strings_to_localize(old(localizable_default_strings)@, foreign_strings_by_locale@),
{
    let ghost defaults = localizable_default_strings@;
    let ghost foreign = foreign_strings_by_locale@;
    let mut localizable_strings_list: Vec<LocalizableStrings> = Vec::new();
    let mut i: usize = 0;
    assert(foreign.take(0) =~= Seq::<(String, Vec<AndroidString>)>::empty());
    assert(localizable_views(localizable_strings_list@) =~= Seq::<LocalizableStringsView>::empty());
    proof {
        lemma_sort_idempotent(defaults);
    }
    while i < foreign_strings_by_locale.len()
        invariant
            i <= foreign.len(),
            foreign == foreign_strings_by_locale@,
            i == 0 ==> localizable_default_strings@ == defaults,
            i > 0 ==> localizable_default_strings@ == sort_by_name(defaults),
            sort_by_name(sort_by_name(defaults)) == sort_by_name(defaults),
            localizable_views(localizable_strings_list@) == strings_to_localize(defaults, foreign.take(i as int)),
        decreases foreign.len() - i,
    {
        proof {
            assert(foreign.take(i + 1).drop_last() =~= foreign.take(i as int));
            assert(foreign.take(i + 1).last() == foreign[i as int]);
        }
        let (locale_name, strings) = &foreign_strings_by_locale[i];
        let mut foreign_strings = copy_strings(strings.as_slice());
        let strings_to_localize = find_missing_strings(foreign_strings.as_mut_slice(), localizable_default_strings);
        assert(missing_strings_of(strings@, defaults) == strings_to_localize@);
        if strings_to_localize.len() > 0 {
            let ghost before = localizable_strings_list@;
            localizable_strings_list.push(LocalizableStrings::new(locale_name.clone(), strings_to_localize));
            assert(localizable_views(localizable_strings_list@) =~= localizable_views(before).push(
                localizable_strings_list@.last()@,
            ));
        }
        i = i + 1;
    }
    assert(foreign.take(i as int) =~= foreign);
    localizable_strings_list
}

/// Works out the CSV files of texts to localize: the localizable default
/// strings that each foreign locale lacks (given the name of each locale along
/// with its strings), one file per group of locales lacking the same strings.
/// Fails when there is no foreign locale at all (the `res` directory is the
/// context). Else gives the path & the content of each file, in turn (none if
/// no locale lacks any string); fails with the path of the first file that
/// can't be written
pub fn localize(
    res_dir_path: &str,
    output_dir_path: &str,
    default_strings: Vec<AndroidString>,
    foreign_strings_by_locale: &[(String, Vec<AndroidString>)],
) -> (r: Result<Vec<(String, Vec<u8>)>, LocalizationError>)
    ensures
        foreign_strings_by_locale@.len() == 0 ==> (r matches Err(e) && e.context@ == res_dir_path@ && is_message(
            e.kind,
            "Res dir doesn't have any non-default values dir with strings file!"@,
        )),
        foreign_strings_by_locale@.len() > 0 ==> ({
            let groups = groups_of(
                strings_to_localize(localizable_strings_of(default_strings@), foreign_strings_by_locale@),
            );
            match r {
                Ok(files) => files@.len() == groups.len() && forall|k: int|
                    0 <= k < files@.len() ==> (#[trigger] files@[k]).0@ == output_file_path(output_dir_path@, (k + 1) as nat)
                        && csv_written_of(csv_rows_for(groups[k])) == Some(files@[k].1@),
                Err(e) => exists|k: int|
                    0 <= k < groups.len() && csv_written_of(csv_rows_for(#[trigger] groups[k])) is None && e.context@
                        == output_file_path(output_dir_path@, (k + 1) as nat) && (forall|m: int|
                        0 <= m < k ==> csv_written_of(csv_rows_for(#[trigger] groups[m])) is Some),
            }
        }),
{
    if foreign_strings_by_locale.len() == 0 {
        return Err(no_locales_error(res_dir_path));
    }
    let mut localizable_default_strings = find_localizable_strings(default_strings);
    let localizable_strings_list = collect_strings_to_localize(
        localizable_default_strings.as_mut_slice(),
        foreign_strings_by_locale,
    );
    let writers = group_for_writing(localizable_strings_list.as_slice());
    let ghost groups = groups_of(localizable_views(localizable_strings_list@));
    proof {
        lemma_distinct_keys_bounded(localizable_views(localizable_strings_list@));
    }
    let mut file_provider = FileProvider::new(String::from_str(output_dir_path));
    let mut files: Vec<(String, Vec<u8>)> = Vec::new();
    let mut k: usize = 0;
    while k < writers.len()
        invariant
            k <= writers@.len(),
            writers@.len() == groups.len(),
            groups == groups_of(strings_to_localize(localizable_strings_of(default_strings@), foreign_strings_by_locale@)),
            forall|j: int| 0 <= j < writers@.len() ==> (#[trigger] writers@[j])@ == groups[j],
            forall|j: int| 0 <= j < writers@.len() ==> (#[trigger] writers@[j])@.len() > 0,
            file_provider@.count_of_files_created == k,
            file_provider@.sink_dir == output_dir_path@,
            files@.len() == k,
            forall|j: int|
                0 <= j < k ==> (#[trigger] files@[j]).0@ == output_file_path(output_dir_path@, (j + 1) as nat)
                    && csv_written_of(csv_rows_for(groups[j])) == Some(files@[j].1@),
        decreases writers@.len() - k,
    {
        let path = file_provider.next_output_file_path();
        match writers[k].write() {
            Ok(bytes) => files.push((path, bytes)),
            Err(e) => {
                proof {
                    assert forall|m: int| 0 <= m < k implies csv_written_of(csv_rows_for(#[trigger] groups[m])) is Some by {
                        assert(files@[m].0@ == output_file_path(output_dir_path@, (m + 1) as nat));
                    }
                    assert(csv_written_of(csv_rows_for(groups[k as int])) is None);
                }
                let error = e.into_error(path);
                assert(error.context@ == output_file_path(output_dir_path@, (k + 1) as nat));
                return Err(error);
            },
        }
        k = k + 1;
    }
    Ok(files)
}

} // verus!
