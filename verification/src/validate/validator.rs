//! Running all validations over the strings files of a `res` directory

use vstd::prelude::*;

use crate::android_string::AndroidString;
use crate::ops::sort::{has_distinct_names, has_name, lemma_sort_alike, lemma_sort_idempotent, sort_by_name};
use crate::text::texts_of;
use crate::util::xml_helper::{StringsWithPath, StringsWithPathView};
use crate::validate::apostrophe::{self, invalid_strings_of, InvalidStrings};
use crate::validate::format_string::{
    self, lemma_parsed_mismatches, mismatch_views, parse_and_build_data, parsed_for, parsed_from,
    string_format_mismatches, Mismatches, MismatchView, ParsedData,
};
use crate::validate::missing_strings::{
    self, extra_in_default, extra_in_foreign, lemma_missing_strings_by_name, MissingStrings,
};

verus! {

/// The issues found in one strings file
#[derive(Debug, Default, PartialEq)]
pub struct InvalidStringsFile {
    pub file_path: String,
    pub apostrophe_error: Option<InvalidStrings>,
    pub format_string_error: Option<Mismatches>,
    pub missing_strings_error: Option<MissingStrings>,
}

/// The strings missing on either side
pub struct MissingStringsView {
    pub extra_in_default_locale: Seq<AndroidString>,
    pub extra_in_foreign_locale: Seq<AndroidString>,
}

/// What an `InvalidStringsFile` holds
pub struct InvalidStringsFileView {
    pub file_path: Seq<char>,
    pub apostrophe_error: Option<Seq<AndroidString>>,
    pub format_string_error: Option<Seq<MismatchView>>,
    pub missing_strings_error: Option<MissingStringsView>,
}

impl View for InvalidStringsFile {
    type V = InvalidStringsFileView;

    open spec fn view(&self) -> InvalidStringsFileView {
        InvalidStringsFileView {
            file_path: self.file_path@,
            apostrophe_error: match self.apostrophe_error {
                Some(e) => Some(e.invalid_strings@),
                None => None,
            },
            format_string_error: match self.format_string_error {
                Some(e) => Some(mismatch_views(e.mismatches@)),
                None => None,
            },
            missing_strings_error: match self.missing_strings_error {
                Some(e) => Some(
                    MissingStringsView {
                        extra_in_default_locale: e.extra_in_default_locale@,
                        extra_in_foreign_locale: e.extra_in_foreign_locale@,
                    },
                ),
                None => None,
            },
        }
    }
}

/// What each file of a list holds
pub open spec fn file_views(files: Seq<InvalidStringsFile>) -> Seq<InvalidStringsFileView> {
    files.map_values(|f: InvalidStringsFile| f@)
}

/// Whether any issue was found in a file
pub open spec fn has_issues(file: InvalidStringsFileView) -> bool {
    file.apostrophe_error is Some || file.format_string_error is Some || file.missing_strings_error is Some
}

/// The strings with unescaped apostrophes, if there are any
pub open spec fn apostrophe_issues(strings: Seq<AndroidString>) -> Option<Seq<AndroidString>> {
    if invalid_strings_of(strings).len() == 0 {
        None
    } else {
        Some(invalid_strings_of(strings))
    }
}

/// The format string mismatches between default & foreign strings, if there are any
pub open spec fn format_string_issues(defaults: Seq<AndroidString>, foreign: Seq<AndroidString>) -> Option<Seq<MismatchView>> {
    if string_format_mismatches(defaults, foreign).len() == 0 {
        None
    } else {
        Some(string_format_mismatches(defaults, foreign))
    }
}

/// The strings missing on either side, if there are any
pub open spec fn missing_string_issues(defaults: Seq<AndroidString>, foreign: Seq<AndroidString>) -> Option<MissingStringsView> {
    if extra_in_default(defaults, foreign).len() == 0 && extra_in_foreign(defaults, foreign).len() == 0 {
        None
    } else {
        Some(
            MissingStringsView {
                extra_in_default_locale: extra_in_default(defaults, foreign),
                extra_in_foreign_locale: extra_in_foreign(defaults, foreign),
            },
        )
    }
}

/// The issues of the default strings file: only apostrophes are checked there
pub open spec fn default_file_report(file: StringsWithPathView) -> InvalidStringsFileView {
    InvalidStringsFileView {
        file_path: file.path,
        apostrophe_error: apostrophe_issues(file.strings),
        format_string_error: None,
        missing_strings_error: None,
    }
}

/// The issues of a foreign strings file: apostrophes, format strings that differ
/// from the default ones &, if asked for, strings missing on either side
pub open spec fn foreign_file_report(
    defaults: Seq<AndroidString>,
    file: StringsWithPathView,
    fail_on_unlocalized: bool,
) -> InvalidStringsFileView {
    InvalidStringsFileView {
        file_path: file.path,
        apostrophe_error: apostrophe_issues(file.strings),
        format_string_error: format_string_issues(defaults, file.strings),
        missing_strings_error: if fail_on_unlocalized {
            missing_string_issues(defaults, file.strings)
        } else {
            None
        },
    }
}

/// The reports of the default file followed by those of the foreign files, in order
pub open spec fn file_reports(
    default: StringsWithPathView,
    foreign: Seq<StringsWithPathView>,
    fail_on_unlocalized: bool,
) -> Seq<InvalidStringsFileView> {
    seq![default_file_report(default)] + foreign.map_values(
        |f: StringsWithPathView| foreign_file_report(default.strings, f, fail_on_unlocalized),
    )
}

/// What each file read holds
pub open spec fn strings_views(files: Seq<StringsWithPath>) -> Seq<StringsWithPathView> {
    files.map_values(|f: StringsWithPath| f@)
}

impl InvalidStringsFile {
    /// A file with no issues (yet)
    pub fn new(file_path: String) -> (r: InvalidStringsFile)
        ensures
            r@ == (InvalidStringsFileView {
                file_path: file_path@,
                apostrophe_error: None,
                format_string_error: None,
                missing_strings_error: None,
            }),
    {
        InvalidStringsFile {
            file_path,
            apostrophe_error: None,
            format_string_error: None,
            missing_strings_error: None,
        }
    }

    pub fn has_errors(&self) -> (r: bool)
        ensures
            r == has_issues(self@),
    {
        self.apostrophe_error.is_some() || self.format_string_error.is_some() || self.missing_strings_error.is_some()
    }
}

/// A copy of a list of strings
fn copy_strings(strings: &[AndroidString]) -> (r: Vec<AndroidString>)
    ensures
        r@ == strings@,
{
    let mut r: Vec<AndroidString> = Vec::new();
    let mut i: usize = 0;
    while i < strings.len()
        invariant
            i <= strings@.len(),
            r@ == strings@.take(i as int),
        decreases strings@.len() - i,
    {
        r.push(strings[i].duplicate());
        i = i + 1;
        assert(r@ =~= strings@.take(i as int));
    }
    assert(strings@.take(i as int) =~= strings@);
    r
}

/// Checks the default strings for unescaped apostrophes: the file goes to the
/// invalid files if any are found, else its path goes to the validated paths
pub fn validate_default_strings(
    strings_with_path: &StringsWithPath,
    path_of_validated_files: &mut Vec<String>,
    invalid_strings_files: &mut Vec<InvalidStringsFile>,
)
    ensures
        has_issues(default_file_report(strings_with_path@)) ==> file_views(final(invalid_strings_files)@)
            == file_views(old(invalid_strings_files)@).push(default_file_report(strings_with_path@))
            && final(path_of_validated_files)@ == old(path_of_validated_files)@,
        !has_issues(default_file_report(strings_with_path@)) ==> texts_of(final(path_of_validated_files)@)
            == texts_of(old(path_of_validated_files)@).push(strings_with_path@.path)
            && final(invalid_strings_files)@ == old(invalid_strings_files)@,
{
    let default_strings_file_path = String::from_str(strings_with_path.path());
    let apos_result = apostrophe::validate(strings_with_path.strings());
    match apos_result {
        Err(apos_error) => {
            let file = InvalidStringsFile {
                file_path: default_strings_file_path,
                apostrophe_error: Some(apos_error),
                format_string_error: None,
                missing_strings_error: None,
            };
            let ghost before = invalid_strings_files@;
            invalid_strings_files.push(file);
            assert(file_views(invalid_strings_files@) =~= file_views(before).push(file@));
        },
        Ok(()) => {
            let ghost before = path_of_validated_files@;
            path_of_validated_files.push(default_strings_file_path);
            assert(texts_of(path_of_validated_files@) =~= texts_of(before).push(strings_with_path@.path));
        },
    }
}

/// Checks foreign strings for unescaped apostrophes, for format strings that
/// differ from the default ones &, if `fail_on_unlocalized`, for strings
/// missing on either side. The file goes to the invalid files if any issue is
/// found, else its path goes to the validated paths. The default strings & their
/// parsed data end up sorted by name
pub fn validate_foreign_strings(
    strings_with_path: &StringsWithPath,
    default_strings: &mut [AndroidString],
    default_parsed_data: &mut [ParsedData],
    fail_on_unlocalized: bool,
    path_of_validated_files: &mut Vec<String>,
    invalid_strings_files: &mut Vec<InvalidStringsFile>,
)
    requires
        parsed_from(old(default_parsed_data)@, old(default_strings)@),
    ensures
        final(default_strings)@ == sort_by_name(old(default_strings)@),
        final(default_parsed_data)@ == sort_by_name(old(default_parsed_data)@),
        has_issues(foreign_file_report(old(default_strings)@, strings_with_path@, fail_on_unlocalized)) ==> file_views(
            final(invalid_strings_files)@,
        ) == file_views(old(invalid_strings_files)@).push(
            foreign_file_report(old(default_strings)@, strings_with_path@, fail_on_unlocalized),
        ) && final(path_of_validated_files)@ == old(path_of_validated_files)@,
        !has_issues(foreign_file_report(old(default_strings)@, strings_with_path@, fail_on_unlocalized)) ==> texts_of(
            final(path_of_validated_files)@,
        ) == texts_of(old(path_of_validated_files)@).push(strings_with_path@.path)
            && final(invalid_strings_files)@ == old(invalid_strings_files)@,
{
    let ghost defaults = default_strings@;
    let ghost foreign = strings_with_path@.strings;
    let _default_count = default_strings.len();
    let foreign_strings_file_path = String::from_str(strings_with_path.path());
    let mut foreign_strings = copy_strings(strings_with_path.strings());
    let _foreign_count = foreign_strings.len();

    let apos_result = apostrophe::validate(foreign_strings.as_slice());
    let fs_result = format_string::validate(default_parsed_data, foreign_strings.as_mut_slice());
    let ms_result = missing_strings::validate(default_strings, foreign_strings.as_mut_slice());
    proof {
        lemma_parsed_mismatches(old(default_parsed_data)@, defaults, foreign);
        lemma_sort_idempotent(foreign);
    }

    let mut potential_invalid_file = InvalidStringsFile::new(String::from_str(foreign_strings_file_path.as_str()));
    if let Err(apos_error) = apos_result {
        potential_invalid_file.apostrophe_error = Some(apos_error);
    }
    if let Err(fs_error) = fs_result {
        potential_invalid_file.format_string_error = Some(fs_error);
    }
    if fail_on_unlocalized {
        if let Err(ms_error) = ms_result {
            potential_invalid_file.missing_strings_error = Some(ms_error);
        }
    }
    assert(potential_invalid_file@ == foreign_file_report(defaults, strings_with_path@, fail_on_unlocalized));

    if potential_invalid_file.has_errors() {
        let ghost before = invalid_strings_files@;
        invalid_strings_files.push(potential_invalid_file);
        assert(file_views(invalid_strings_files@) =~= file_views(before).push(
            foreign_file_report(defaults, strings_with_path@, fail_on_unlocalized),
        ));
    } else {
        let ghost before = path_of_validated_files@;
        path_of_validated_files.push(foreign_strings_file_path);
        assert(texts_of(path_of_validated_files@) =~= texts_of(before).push(strings_with_path@.path));
    }
}


/// The paths of the files without issues, in order
pub open spec fn validated_paths(reports: Seq<InvalidStringsFileView>) -> Seq<Seq<char>> {
    reports.filter(|f: InvalidStringsFileView| !has_issues(f)).map_values(|f: InvalidStringsFileView| f.file_path)
}

/// The files with issues, in order
pub open spec fn invalid_reports(reports: Seq<InvalidStringsFileView>) -> Seq<InvalidStringsFileView> {
    reports.filter(|f: InvalidStringsFileView| has_issues(f))
}

/// The paths of all files, in order
pub open spec fn file_paths(reports: Seq<InvalidStringsFileView>) -> Seq<Seq<char>> {
    reports.map_values(|f: InvalidStringsFileView| f.file_path)
}

/// Where no file has issues, every file is validated
pub proof fn lemma_no_issues_all_validated(reports: Seq<InvalidStringsFileView>)
    requires
        invalid_reports(reports).len() == 0,
    ensures
        validated_paths(reports) == file_paths(reports),
    decreases reports.len(),
{
    let issues = |f: InvalidStringsFileView| has_issues(f);
    let no_issues = |f: InvalidStringsFileView| !has_issues(f);
    if reports.len() > 0 {
        let d = reports.drop_last();
        let last = reports.last();
        assert(d.push(last) =~= reports);
        d.lemma_filter_push(last, issues);
        d.lemma_filter_push(last, no_issues);
        if has_issues(last) {
            assert(invalid_reports(reports) == invalid_reports(d).push(last));
        }
        assert(invalid_reports(d).len() == 0);
        lemma_no_issues_all_validated(d);
        assert(validated_paths(reports) =~= validated_paths(d).push(last.file_path));
        assert(file_paths(reports) =~= file_paths(d).push(last.file_path));
    }
}

/// With `fail_on_unlocalized` (& strings files without repeated names), a
/// foreign file that holds a string the default strings lack a name for is
/// among the files with issues, with that string among its strings missing in
/// the default locale
pub proof fn lemma_unknown_foreign_strings_reported(
    default: StringsWithPathView,
    foreign: Seq<StringsWithPathView>,
    k: int,
    x: AndroidString,
)
    requires
        0 <= k < foreign.len(),
        has_distinct_names(default.strings),
        has_distinct_names(foreign[k].strings),
        default.strings.len() <= usize::MAX,
        foreign[k].strings.len() <= usize::MAX,
        foreign[k].strings.contains(x),
        !has_name(default.strings, x@.name),
    ensures
        exists|report: InvalidStringsFileView|
            #[trigger] invalid_reports(file_reports(default, foreign, true)).contains(report) && report.file_path
                == foreign[k].path && (report.missing_strings_error matches Some(m) && m.extra_in_foreign_locale.contains(
                x,
            )),
{
    broadcast use Seq::lemma_filter_contains;

    lemma_missing_strings_by_name(default.strings, foreign[k].strings, x);
    let report = foreign_file_report(default.strings, foreign[k], true);
    let reports = file_reports(default, foreign, true);
    assert(reports[k + 1] == report);
    assert(has_issues(report));
    assert(invalid_reports(reports).contains(reports[k + 1]));
}

/// Runs all validations on the default strings file & on each foreign strings
/// file (in order). Gives the paths of all files if no issue is found, else the
/// files with issues
pub fn validate(
    default_file: &StringsWithPath,
    foreign_files: &[StringsWithPath],
    fail_on_unlocalized: bool,
) -> (r: Result<Vec<String>, Vec<InvalidStringsFile>>)
    ensures
        ({
            let reports = file_reports(default_file@, strings_views(foreign_files@), fail_on_unlocalized);
            match r {
                Ok(paths) => invalid_reports(reports).len() == 0 && texts_of(paths@) == file_paths(reports),
                Err(files) => invalid_reports(reports).len() > 0 && file_views(files@) == invalid_reports(reports),
            }
        }),
{
    broadcast use Seq::lemma_filter_push;

    let ghost fv = strings_views(foreign_files@);
    let ghost d = default_file@.strings;
    let ghost no_issues = |f: InvalidStringsFileView| !has_issues(f);
    let ghost issues = |f: InvalidStringsFileView| has_issues(f);
    let ghost to_path = |f: InvalidStringsFileView| f.file_path;
    let mut path_of_validated_files: Vec<String> = Vec::new();
    let mut invalid_strings_files: Vec<InvalidStringsFile> = Vec::new();
    let mut default_parsed_data = parse_and_build_data(default_file.strings());
    validate_default_strings(default_file, &mut path_of_validated_files, &mut invalid_strings_files);
    let mut default_strings = copy_strings(default_file.strings());
    let ghost mut reports = seq![default_file_report(default_file@)];
    proof {
        assert(reports =~= file_reports(default_file@, fv.take(0), fail_on_unlocalized));
        assert(seq![default_file_report(default_file@)].filter(issues) =~= Seq::<InvalidStringsFileView>::empty().push(
            default_file_report(default_file@),
        ).filter(issues));
        assert(seq![default_file_report(default_file@)].filter(no_issues) =~= Seq::<InvalidStringsFileView>::empty().push(
            default_file_report(default_file@),
        ).filter(no_issues));
        assert(file_views(invalid_strings_files@) == reports.filter(issues));
        assert(texts_of(path_of_validated_files@) =~= reports.filter(no_issues).map_values(to_path));
    }
    let mut k: usize = 0;
    while k < foreign_files.len()
        invariant
            k <= foreign_files@.len(),
            fv == strings_views(foreign_files@),
            d == default_file@.strings,
            no_issues == (|f: InvalidStringsFileView| !has_issues(f)),
            issues == (|f: InvalidStringsFileView| has_issues(f)),
            to_path == (|f: InvalidStringsFileView| f.file_path),
            sort_by_name(default_strings@) == sort_by_name(d),
            parsed_from(default_parsed_data@, default_strings@),
            reports == file_reports(default_file@, fv.take(k as int), fail_on_unlocalized),
            file_views(invalid_strings_files@) == reports.filter(issues),
            texts_of(path_of_validated_files@) == reports.filter(no_issues).map_values(to_path),
        decreases foreign_files@.len() - k,
    {
        let ghost ds = default_strings@;
        let ghost ps = default_parsed_data@;
        let ghost report = foreign_file_report(d, foreign_files@[k as int]@, fail_on_unlocalized);
        proof {
            assert(foreign_file_report(ds, foreign_files@[k as int]@, fail_on_unlocalized) == report);
        }
        let ghost before_paths = path_of_validated_files@;
        validate_foreign_strings(
            &foreign_files[k],
            default_strings.as_mut_slice(),
            default_parsed_data.as_mut_slice(),
            fail_on_unlocalized,
            &mut path_of_validated_files,
            &mut invalid_strings_files,
        );
        proof {
            lemma_sort_idempotent(ds);
            lemma_sort_alike(ps, ds, parsed_for());
            assert(fv.take(k + 1) =~= fv.take(k as int).push(foreign_files@[k as int]@));
            assert(file_reports(default_file@, fv.take(k + 1), fail_on_unlocalized) =~= reports.push(report));
            let old_reports = reports;
            old_reports.lemma_filter_push(report, no_issues);
            old_reports.lemma_filter_push(report, issues);
            reports = old_reports.push(report);
            if !has_issues(report) {
                assert(reports.filter(no_issues).map_values(to_path) =~= old_reports.filter(no_issues).map_values(
                    to_path,
                ).push(report.file_path));
            }
        }
        k = k + 1;
    }
    proof {
        assert(fv.take(k as int) =~= fv);
    }
    if invalid_strings_files.len() == 0 {
        proof {
            lemma_no_issues_all_validated(reports);
        }
        Ok(path_of_validated_files)
    } else {
        Err(invalid_strings_files)
    }
}

} // verus!
