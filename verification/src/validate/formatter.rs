//! The report printed for the issues found by the validations

use vstd::prelude::*;

use crate::android_string::AndroidString;
use crate::text::texts_of;
use crate::validate::format_string::{mismatch_views, Mismatch, MismatchView};
use crate::validate::validator::{file_views, InvalidStringsFile, InvalidStringsFileView, MissingStringsView};

verus! {

/// The character of a decimal digit
pub open spec fn digit_char(d: nat) -> char {
    if d == 0 {
        '0'
    } else if d == 1 {
        '1'
    } else if d == 2 {
        '2'
    } else if d == 3 {
        '3'
    } else if d == 4 {
        '4'
    } else if d == 5 {
        '5'
    } else if d == 6 {
        '6'
    } else if d == 7 {
        '7'
    } else if d == 8 {
        '8'
    } else {
        '9'
    }
}

/// `n` written in decimal
pub open spec fn decimal(n: nat) -> Seq<char>
    decreases n,
{
    if n < 10 {
        seq![digit_char(n)]
    } else {
        decimal(n / 10) + seq![digit_char(n % 10)]
    }
}

/// `word`, in the plural when `count` is more than one
pub open spec fn pluralized(count: nat, word: Seq<char>) -> Seq<char> {
    if count <= 1 {
        word
    } else {
        word + "s"@
    }
}

/// `items` with `separator` between each two of them
pub open spec fn joined(items: Seq<Seq<char>>, separator: Seq<char>) -> Seq<char>
    decreases items.len(),
{
    if items.len() == 0 {
        Seq::empty()
    } else if items.len() == 1 {
        items[0]
    } else {
        joined(items.drop_last(), separator) + separator + items.last()
    }
}

/// The values of a list of strings
pub open spec fn values_of(strings: Seq<AndroidString>) -> Seq<Seq<char>> {
    strings.map_values(|s: AndroidString| s@.value)
}

/// Spaces as wide as the issue number `k` is written (for numbers below 1000)
pub open spec fn number_placeholder(k: nat) -> Seq<char> {
    if k <= 9 {
        " "@
    } else if k <= 99 {
        "  "@
    } else if k <= 999 {
        "   "@
    } else {
        "    "@
    }
}

/// The line for a string with an unescaped apostrophe, numbered `k`
pub open spec fn apostrophe_line(k: nat, string: AndroidString) -> Seq<char> {
    "Error "@ + decimal(k) + " (unescaped apostrophe): "@ + string@.value + "\n"@
}

/// The lines for strings with unescaped apostrophes, numbered from `start + 1` on
pub open spec fn apostrophe_lines(strings: Seq<AndroidString>, start: nat) -> Seq<char>
    decreases strings.len(),
{
    if strings.len() == 0 {
        Seq::empty()
    } else {
        apostrophe_lines(strings.drop_last(), start) + apostrophe_line(start + strings.len(), strings.last())
    }
}

/// The apostrophe lines of two lists one after the other are those of the
/// first, then those of the second numbered on from where the first stopped:
/// each string gets its own line, in order
pub proof fn lemma_apostrophe_lines_append(s: Seq<AndroidString>, t: Seq<AndroidString>, start: nat)
    ensures
        apostrophe_lines(s + t, start) == apostrophe_lines(s, start) + apostrophe_lines(t, start + s.len()),
    decreases t.len(),
{
    if t.len() == 0 {
        assert(s + t =~= s);
        assert(apostrophe_lines(s, start) + apostrophe_lines(t, start + s.len()) =~= apostrophe_lines(s, start));
    } else {
        lemma_apostrophe_lines_append(s, t.drop_last(), start);
        assert((s + t).drop_last() =~= s + t.drop_last());
        assert((s + t).last() == t.last());
        assert(apostrophe_lines(s, start) + apostrophe_lines(t.drop_last(), start + s.len()) + apostrophe_line(
            (start + s.len()) + t.len(),
            t.last(),
        ) =~= apostrophe_lines(s, start) + (apostrophe_lines(t.drop_last(), start + s.len()) + apostrophe_line(
            (start + s.len()) + t.len(),
            t.last(),
        )));
    }
}

/// A string with an unescaped apostrophe gets one line: its number after the
/// ones before it, then its value
pub proof fn lemma_apostrophe_lines_one(x: AndroidString, start: nat)
    ensures
        apostrophe_lines(seq![x], start) == "Error "@ + decimal(start + 1) + " (unescaped apostrophe): "@ + x@.value
            + "\n"@,
{
    assert(seq![x].drop_last() =~= Seq::<AndroidString>::empty());
    assert(apostrophe_lines(seq![x].drop_last(), start) =~= Seq::<char>::empty());
    assert(Seq::<char>::empty() + apostrophe_line(start + 1, x) =~= apostrophe_line(start + 1, x));
}

/// The two lines for a format string mismatch, numbered `k`: the foreign
/// format strings above the default ones
pub open spec fn mismatch_lines_of(k: nat, mismatch: MismatchView) -> Seq<char> {
    "Error "@ + decimal(k) + " (mismatched format string(s)): Found ["@ + joined(
        mismatch.foreign_parsed_data.sorted_format_strings,
        ", "@,
    ) + "] in "@ + mismatch.foreign_parsed_data.android_string.value + "\n"@ + "      "@ + number_placeholder(k)
        + "                                Found ["@ + joined(
        mismatch.default_parsed_data.sorted_format_strings,
        ", "@,
    ) + "] in "@ + mismatch.default_parsed_data.android_string.value + "\n"@
}

/// The lines for format string mismatches, numbered from `start + 1` on
pub open spec fn mismatch_lines(mismatches: Seq<MismatchView>, start: nat) -> Seq<char>
    decreases mismatches.len(),
{
    if mismatches.len() == 0 {
        Seq::empty()
    } else {
        mismatch_lines(mismatches.drop_last(), start) + mismatch_lines_of(start + mismatches.len(), mismatches.last())
    }
}

/// The number of issues that strings missing on either side count for
pub open spec fn missing_issue_count(missing: MissingStringsView) -> nat {
    (if missing.extra_in_default_locale.len() > 0 { 1nat } else { 0nat }) + (if missing.extra_in_foreign_locale.len()
        > 0 {
        1nat
    } else {
        0nat
    })
}

/// The lines for strings missing on either side, numbered from `start + 1` on
pub open spec fn missing_lines(missing: MissingStringsView, start: nat) -> Seq<char> {
    let unlocalized = if missing.extra_in_default_locale.len() > 0 {
        "Error "@ + decimal(start + 1) + " (unlocalized string(s)): "@ + joined(
            values_of(missing.extra_in_default_locale),
            ", "@,
        ) + "\n"@
    } else {
        Seq::empty()
    };
    let next = if missing.extra_in_default_locale.len() > 0 { start + 1 } else { start };
    let not_in_default = if missing.extra_in_foreign_locale.len() > 0 {
        "Error "@ + decimal(next + 1) + " (string(s) not in defaut locale): "@ + joined(
            values_of(missing.extra_in_foreign_locale),
            ", "@,
        ) + "\n"@
    } else {
        Seq::empty()
    };
    unlocalized + not_in_default
}

/// The number of issues found in a file
pub open spec fn file_issue_count(file: InvalidStringsFileView) -> nat {
    (match file.apostrophe_error {
        Some(a) => a.len(),
        None => 0,
    }) + (match file.format_string_error {
        Some(m) => m.len(),
        None => 0,
    }) + (match file.missing_strings_error {
        Some(m) => missing_issue_count(m),
        None => 0,
    })
}

/// The numbered lines of the issues found in a file
pub open spec fn file_issue_lines(file: InvalidStringsFileView) -> Seq<char> {
    let apostrophes = match file.apostrophe_error {
        Some(a) => a,
        None => Seq::empty(),
    };
    let mismatches = match file.format_string_error {
        Some(m) => m,
        None => Seq::empty(),
    };
    apostrophe_lines(apostrophes, 0) + mismatch_lines(mismatches, apostrophes.len()) + match file.missing_strings_error {
        Some(m) => missing_lines(m, apostrophes.len() + mismatches.len()),
        None => Seq::empty(),
    }
}

/// The report on one file: its path & issue count, then a line per issue
pub open spec fn file_report_text(file: InvalidStringsFileView) -> Seq<char> {
    "Path: "@ + file.file_path + " ("@ + decimal(file_issue_count(file)) + " "@ + pluralized(
        file_issue_count(file),
        "issue"@,
    ) + ")\n"@ + file_issue_lines(file)
}

/// The reports on all files, separated by empty lines
pub open spec fn files_report_text(files: Seq<InvalidStringsFileView>) -> Seq<char>
    decreases files.len(),
{
    if files.len() == 0 {
        Seq::empty()
    } else if files.len() == 1 {
        file_report_text(files[0])
    } else {
        files_report_text(files.drop_last()) + "\n"@ + file_report_text(files.last())
    }
}

/// The number of issues found in all files
pub open spec fn total_issue_count(files: Seq<InvalidStringsFileView>) -> nat
    decreases files.len(),
{
    if files.len() == 0 {
        0
    } else {
        total_issue_count(files.drop_last()) + file_issue_count(files.last())
    }
}

/// The whole report: that on each file, then the number of issues & of files
pub open spec fn report_text(files: Seq<InvalidStringsFileView>) -> Seq<char> {
    files_report_text(files) + "\nFound "@ + decimal(total_issue_count(files)) + " "@ + pluralized(
        total_issue_count(files),
        "issue"@,
    ) + " across "@ + decimal(files.len()) + " "@ + pluralized(files.len(), "file"@) + "!"@
}


/// The report on each of the files
pub open spec fn each_file_report(files: Seq<InvalidStringsFileView>) -> Seq<Seq<char>> {
    files.map_values(|f: InvalidStringsFileView| file_report_text(f))
}

proof fn lemma_files_report_joined(files: Seq<InvalidStringsFileView>)
    ensures
        files_report_text(files) == joined(each_file_report(files), "\n"@),
    decreases files.len(),
{
    if files.len() > 1 {
        lemma_files_report_joined(files.drop_last());
        assert(each_file_report(files).drop_last() =~= each_file_report(files.drop_last()));
    } else if files.len() == 1 {
        assert(each_file_report(files)[0] == file_report_text(files[0]));
    }
}

/// The whole report is the report on each file (as `format_errors_from_one_file`
/// writes it), with an empty line between each two, then the number of issues
/// (the sum of the numbers of issues of the files) & the number of files
pub proof fn lemma_report_from_file_reports(files: Seq<InvalidStringsFileView>)
    ensures
        report_text(files) == joined(each_file_report(files), "\n"@) + "\nFound "@ + decimal(total_issue_count(files))
            + " "@ + pluralized(total_issue_count(files), "issue"@) + " across "@ + decimal(files.len()) + " "@
            + pluralized(files.len(), "file"@) + "!"@,
        files.len() == 0 ==> total_issue_count(files) == 0,
        files.len() > 0 ==> total_issue_count(files) == total_issue_count(files.drop_last()) + file_issue_count(
            files.last(),
        ),
{
    lemma_files_report_joined(files);
}

/// The text of a decimal digit
fn digit_text(d: usize) -> (r: &'static str)
    requires
        d < 10,
    ensures
        r@ == seq![digit_char(d as nat)],
{
    proof {
        reveal_strlit("0");
        reveal_strlit("1");
        reveal_strlit("2");
        reveal_strlit("3");
        reveal_strlit("4");
        reveal_strlit("5");
        reveal_strlit("6");
        reveal_strlit("7");
        reveal_strlit("8");
        reveal_strlit("9");
    }
    if d == 0 {
        "0"
    } else if d == 1 {
        "1"
    } else if d == 2 {
        "2"
    } else if d == 3 {
        "3"
    } else if d == 4 {
        "4"
    } else if d == 5 {
        "5"
    } else if d == 6 {
        "6"
    } else if d == 7 {
        "7"
    } else if d == 8 {
        "8"
    } else {
        "9"
    }
}

/// `n` written in decimal
pub fn decimal_text(n: usize) -> (r: String)
    ensures
        r@ == decimal(n as nat),
    decreases n,
{
    if n < 10 {
        String::from_str(digit_text(n))
    } else {
        let mut r = decimal_text(n / 10);
        r.append(digit_text(n % 10));
        r
    }
}

/// Appends texts with `", "` between each two of them
fn append_joined_texts(output: &mut String, items: &[String])
    ensures
        final(output)@ == old(output)@ + joined(texts_of(items@), ", "@),
{
    proof {
        reveal_strlit(", ");
    }
    let ghost start = output@;
    let ghost texts = texts_of(items@);
    let mut i: usize = 0;
    while i < items.len()
        invariant
            i <= items@.len(),
            texts == texts_of(items@),
            output@ == start + joined(texts.take(i as int), ", "@),
        decreases items@.len() - i,
    {
        proof {
            assert(texts.take(i + 1).drop_last() =~= texts.take(i as int));
            assert(texts.take(i + 1).last() == items@[i as int]@);
        }
        if i > 0 {
            output.append(", ");
        } else {
            assert(texts.take(0) =~= Seq::<Seq<char>>::empty());
        }
        output.append(items[i].as_str());
        i = i + 1;
    }
    assert(texts.take(i as int) =~= texts);
}

/// Appends the values of strings with `", "` between each two of them
fn append_joined_values(output: &mut String, strings: &[AndroidString])
    ensures
        final(output)@ == old(output)@ + joined(values_of(strings@), ", "@),
{
    proof {
        reveal_strlit(", ");
    }
    let ghost start = output@;
    let ghost values = values_of(strings@);
    let mut i: usize = 0;
    while i < strings.len()
        invariant
            i <= strings@.len(),
            values == values_of(strings@),
            output@ == start + joined(values.take(i as int), ", "@),
        decreases strings@.len() - i,
    {
        proof {
            assert(values.take(i + 1).drop_last() =~= values.take(i as int));
            assert(values.take(i + 1).last() == strings@[i as int]@.value);
        }
        if i > 0 {
            output.append(", ");
        } else {
            assert(values.take(0) =~= Seq::<Seq<char>>::empty());
        }
        output.append(strings[i].value());
        i = i + 1;
    }
    assert(values.take(i as int) =~= values);
}

/// Appends the lines of strings with unescaped apostrophes, numbered from 1 on
fn append_apostrophe_lines(output: &mut String, strings: &[AndroidString])
    ensures
        final(output)@ == old(output)@ + apostrophe_lines(strings@, 0),
{
    proof {
        reveal_strlit("Error ");
        reveal_strlit(" (unescaped apostrophe): ");
        reveal_strlit("\n");
    }
    let ghost start = output@;
    let mut i: usize = 0;
    assert(strings@.take(0) =~= Seq::<AndroidString>::empty());
    while i < strings.len()
        invariant
            i <= strings@.len(),
            output@ == start + apostrophe_lines(strings@.take(i as int), 0),
        decreases strings@.len() - i,
    {
        proof {
            assert(strings@.take(i + 1).drop_last() =~= strings@.take(i as int));
            assert(strings@.take(i + 1).last() == strings@[i as int]);
        }
        output.append("Error ");
        let number = decimal_text(i + 1);
        output.append(number.as_str());
        output.append(" (unescaped apostrophe): ");
        output.append(strings[i].value());
        output.append("\n");
        i = i + 1;
        assert(output@ =~= start + apostrophe_lines(strings@.take(i as int), 0));
    }
    assert(strings@.take(i as int) =~= strings@);
}

/// Spaces as wide as the issue number `k` is written (for numbers below 1000)
fn number_placeholder_text(k: usize) -> (r: &'static str)
    ensures
        r@ == number_placeholder(k as nat),
{
    proof {
        reveal_strlit(" ");
        reveal_strlit("  ");
        reveal_strlit("   ");
        reveal_strlit("    ");
    }
    if k <= 9 {
        " "
    } else if k <= 99 {
        "  "
    } else if k <= 999 {
        "   "
    } else {
        "    "
    }
}

/// Appends the two lines of a format string mismatch, numbered `k`
fn append_mismatch_lines(output: &mut String, k: usize, mismatch: &Mismatch)
    ensures
        final(output)@ == old(output)@ + mismatch_lines_of(k as nat, mismatch@),
{
    proof {
        reveal_strlit("Error ");
        reveal_strlit(" (mismatched format string(s)): Found [");
        reveal_strlit("] in ");
        reveal_strlit("\n");
        reveal_strlit("      ");
        reveal_strlit("                                Found [");
    }
    let ghost start = output@;
    output.append("Error ");
    let number = decimal_text(k);
    output.append(number.as_str());
    output.append(" (mismatched format string(s)): Found [");
    append_joined_texts(output, mismatch.foreign_parsed_data.sorted_format_strings.as_slice());
    output.append("] in ");
    output.append(mismatch.foreign_parsed_data.android_string.value());
    output.append("\n");
    output.append("      ");
    output.append(number_placeholder_text(k));
    output.append("                                Found [");
    append_joined_texts(output, mismatch.default_parsed_data.sorted_format_strings.as_slice());
    output.append("] in ");
    output.append(mismatch.default_parsed_data.android_string.value());
    output.append("\n");
    assert(output@ =~= start + mismatch_lines_of(k as nat, mismatch@));
}

/// Appends the lines of format string mismatches, numbered from `start + 1` on
fn append_all_mismatch_lines(output: &mut String, mismatches: &[Mismatch], start: usize)
    requires
        start + mismatches@.len() <= usize::MAX,
    ensures
        final(output)@ == old(output)@ + mismatch_lines(mismatch_views(mismatches@), start as nat),
{
    let ghost prefix = output@;
    let ghost views = mismatch_views(mismatches@);
    let mut i: usize = 0;
    assert(views.take(0) =~= Seq::<MismatchView>::empty());
    while i < mismatches.len()
        invariant
            i <= mismatches@.len(),
            start + mismatches@.len() <= usize::MAX,
            views == mismatch_views(mismatches@),
            output@ == prefix + mismatch_lines(views.take(i as int), start as nat),
        decreases mismatches@.len() - i,
    {
        proof {
            assert(views.take(i + 1).drop_last() =~= views.take(i as int));
            assert(views.take(i + 1).last() == mismatches@[i as int]@);
        }
        append_mismatch_lines(output, start + i + 1, &mismatches[i]);
        i = i + 1;
        assert(output@ =~= prefix + mismatch_lines(views.take(i as int), start as nat));
    }
    assert(views.take(i as int) =~= views);
}


/// Appends the lines of strings missing on either side, numbered from `start + 1` on
fn append_missing_lines(
    output: &mut String,
    extra_in_default_locale: &[AndroidString],
    extra_in_foreign_locale: &[AndroidString],
    start: usize,
) -> (count: usize)
    requires
        start + missing_issue_count(
            MissingStringsView {
                extra_in_default_locale: extra_in_default_locale@,
                extra_in_foreign_locale: extra_in_foreign_locale@,
            },
        ) <= usize::MAX,
    ensures
        ({
            let missing = MissingStringsView {
                extra_in_default_locale: extra_in_default_locale@,
                extra_in_foreign_locale: extra_in_foreign_locale@,
            };
            &&& final(output)@ == old(output)@ + missing_lines(missing, start as nat)
            &&& count == start + missing_issue_count(missing)
        }),
{
    proof {
        reveal_strlit("Error ");
        reveal_strlit(" (unlocalized string(s)): ");
        reveal_strlit(" (string(s) not in defaut locale): ");
        reveal_strlit("\n");
    }
    let ghost prefix = output@;
    let mut count = start;
    if extra_in_default_locale.len() > 0 {
        count = count + 1;
        output.append("Error ");
        let number = decimal_text(count);
        output.append(number.as_str());
        output.append(" (unlocalized string(s)): ");
        append_joined_values(output, extra_in_default_locale);
        output.append("\n");
    }
    let ghost middle = output@;
    if extra_in_foreign_locale.len() > 0 {
        count = count + 1;
        output.append("Error ");
        let number = decimal_text(count);
        output.append(number.as_str());
        output.append(" (string(s) not in defaut locale): ");
        append_joined_values(output, extra_in_foreign_locale);
        output.append("\n");
    }
    assert(output@ =~= prefix + missing_lines(
        MissingStringsView {
            extra_in_default_locale: extra_in_default_locale@,
            extra_in_foreign_locale: extra_in_foreign_locale@,
        },
        start as nat,
    ));
    count
}

/// The numbered lines of the issues found in a file, along with their number
fn issue_lines(invalid_strings_file: &InvalidStringsFile) -> (r: (String, usize))
    requires
        file_issue_count(invalid_strings_file@) <= usize::MAX,
    ensures
        r.0@ == file_issue_lines(invalid_strings_file@),
        r.1 == file_issue_count(invalid_strings_file@),
{
    let ghost file = invalid_strings_file@;
    let mut file_output = String::new();
    let mut issues_count_in_file: usize = 0;
    if let Some(apostrophe_error) = &invalid_strings_file.apostrophe_error {
        append_apostrophe_lines(&mut file_output, apostrophe_error.invalid_strings.as_slice());
        issues_count_in_file = apostrophe_error.invalid_strings.len();
    } else {
        assert(apostrophe_lines(Seq::empty(), 0) =~= Seq::<char>::empty());
    }
    if let Some(format_string_error) = &invalid_strings_file.format_string_error {
        assert(mismatch_views(format_string_error.mismatches@).len() == format_string_error.mismatches@.len());
        append_all_mismatch_lines(&mut file_output, format_string_error.mismatches.as_slice(), issues_count_in_file);
        issues_count_in_file = issues_count_in_file + format_string_error.mismatches.len();
    } else {
        assert(mismatch_lines(Seq::empty(), issues_count_in_file as nat) =~= Seq::<char>::empty());
    }
    if let Some(missing_strings) = &invalid_strings_file.missing_strings_error {
        issues_count_in_file = append_missing_lines(
            &mut file_output,
            missing_strings.extra_in_default_locale.as_slice(),
            missing_strings.extra_in_foreign_locale.as_slice(),
            issues_count_in_file,
        );
    }
    assert(file_output@ =~= file_issue_lines(file));
    (file_output, issues_count_in_file)
}

/// Appends the report on one file (its path & issue count, then a line per
/// issue) & gives the number of issues found in it
pub fn format_errors_from_one_file(invalid_strings_file: &InvalidStringsFile, output: &mut String) -> (count: usize)
    requires
        file_issue_count(invalid_strings_file@) <= usize::MAX,
    ensures
        count == file_issue_count(invalid_strings_file@),
        final(output)@ == old(output)@ + file_report_text(invalid_strings_file@),
{
    proof {
        reveal_strlit("Path: ");
        reveal_strlit(" (");
        reveal_strlit(" ");
        reveal_strlit(")\n");
        reveal_strlit("issue");
        reveal_strlit("issues");
        assert("issue"@ + "s"@ =~= "issues"@) by {
            reveal_strlit("s");
        }
    }
    let ghost file = invalid_strings_file@;
    let (file_output, issues_count_in_file) = issue_lines(invalid_strings_file);
    output.append("Path: ");
    output.append(invalid_strings_file.file_path.as_str());
    output.append(" (");
    let number = decimal_text(issues_count_in_file);
    output.append(number.as_str());
    output.append(" ");
    output.append(if issues_count_in_file <= 1 { "issue" } else { "issues" });
    output.append(")\n");
    output.append(file_output.as_str());
    assert(output@ =~= old(output)@ + file_report_text(file));
    issues_count_in_file
}


/// No prefix of a list of files has more issues than the whole list
proof fn lemma_total_issue_count_prefix(files: Seq<InvalidStringsFileView>, i: int)
    requires
        0 <= i <= files.len(),
    ensures
        total_issue_count(files.take(i)) <= total_issue_count(files),
    decreases files.len(),
{
    if i < files.len() {
        let d = files.drop_last();
        lemma_total_issue_count_prefix(d, i);
        assert(d.take(i) =~= files.take(i));
    } else {
        assert(files.take(i) =~= files);
    }
}

/// The report on all files: that on each file (separated by empty lines), then
/// the number of issues & of files
pub fn format_to_string(invalid_strings_files: Vec<InvalidStringsFile>) -> (r: Result<String, std::fmt::Error>)
    requires
        total_issue_count(file_views(invalid_strings_files@)) <= usize::MAX,
    ensures
        r matches Ok(s) && s@ == report_text(file_views(invalid_strings_files@)),
{
    proof {
        reveal_strlit("\n");
        reveal_strlit("\nFound ");
        reveal_strlit(" ");
        reveal_strlit(" across ");
        reveal_strlit("!");
        reveal_strlit("issue");
        reveal_strlit("issues");
        reveal_strlit("file");
        reveal_strlit("files");
        assert("issue"@ + "s"@ =~= "issues"@ && "file"@ + "s"@ =~= "files"@) by {
            reveal_strlit("s");
        }
    }
    let ghost files = file_views(invalid_strings_files@);
    let files_count = invalid_strings_files.len();
    let mut issues_count: usize = 0;
    let mut output = String::new();
    let mut index: usize = 0;
    assert(files.take(0) =~= Seq::<InvalidStringsFileView>::empty());
    while index < invalid_strings_files.len()
        invariant
            index <= invalid_strings_files@.len(),
            files == file_views(invalid_strings_files@),
            total_issue_count(files) <= usize::MAX,
            output@ == files_report_text(files.take(index as int)),
            issues_count == total_issue_count(files.take(index as int)),
        decreases invalid_strings_files@.len() - index,
    {
        proof {
            let next = files.take(index + 1);
            assert(next.drop_last() =~= files.take(index as int));
            assert(next.last() == invalid_strings_files@[index as int]@);
            lemma_total_issue_count_prefix(files, index + 1);
        }
        if index > 0 {
            output.append("\n");
        }
        let count = format_errors_from_one_file(&invalid_strings_files[index], &mut output);
        issues_count = issues_count + count;
        index = index + 1;
        proof {
            if index == 1 {
                assert(files.take(1) =~= seq![files[0]]);
            }
        }
    }
    assert(files.take(index as int) =~= files);
    output.append("\nFound ");
    let issues_text = decimal_text(issues_count);
    output.append(issues_text.as_str());
    output.append(" ");
    output.append(if issues_count <= 1 { "issue" } else { "issues" });
    output.append(" across ");
    let files_text = decimal_text(files_count);
    output.append(files_text.as_str());
    output.append(" ");
    output.append(if files_count <= 1 { "file" } else { "files" });
    output.append("!");
    assert(output@ =~= report_text(files));
    Ok(output)
}

} // verus!
