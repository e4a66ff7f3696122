use android_localization::android_string::AndroidString;
use android_localization::util::xml_helper::StringsWithPath;
use android_localization::validate::apostrophe;
use android_localization::validate::format_string::{self, Mismatch, Mismatches, ParsedData};
use android_localization::validate::formatter;
use android_localization::validate::missing_strings::{self, MissingStrings};
use android_localization::validate::validator::{self, InvalidStringsFile};

#[test]
fn passes_in_absence_of_unescaped_apostrophes() {
    assert!(apostrophe::validate(&vec![
        AndroidString::localizable("s1", "value"),
        AndroidString::localizable("s2", r"val\'ue"),
    ])
    .is_ok())
}

#[test]
fn errors_in_presence_of_unescaped_apostrophes() {
    let invalid_strings = apostrophe::validate(&vec![
        AndroidString::localizable("s1", "val'ue"),
        AndroidString::localizable("s2", "value"),
        AndroidString::localizable("s3", r"val\'ue"),
        AndroidString::localizable("s4", "value'"),
        AndroidString::localizable("s5", r"\'va\l\ue\'"),
    ])
    .unwrap_err();

    assert_eq!(
        invalid_strings.invalid_strings,
        vec![
            AndroidString::localizable("s1", "val'ue"),
            AndroidString::localizable("s4", "value'"),
        ]
    )
}

#[test]
fn counts_apostrophes_against_escaped_apostrophes() {
    assert!(!apostrophe::is_invalid_value("no apostrophes"));
    assert!(!apostrophe::is_invalid_value(r"it\'s"));
    assert!(apostrophe::is_invalid_value("it's"));
    assert!(apostrophe::is_invalid_value(r"it\'s' "));
}

#[test]
fn validate_passes_in_absence_of_missing_strings() {
    let mut default_strings = vec![
        AndroidString::localizable("s2", "d2"),
        AndroidString::localizable("s3", "d3"),
    ];
    let mut foreign_strings = vec![
        AndroidString::localizable("s2", "f2"),
        AndroidString::localizable("s3", "f3"),
    ];

    assert!(missing_strings::validate(&mut default_strings, &mut foreign_strings).is_ok())
}

#[test]
fn validate_errors_in_presence_of_missing_strings() {
    let mut default_strings = vec![
        AndroidString::localizable("s3", "d3"),
        AndroidString::localizable("s2", "d2"),
        AndroidString::unlocalizable("s1", "d1"),
        AndroidString::localizable("s4", "d4"),
    ];
    let mut foreign_strings = vec![
        AndroidString::localizable("s5", "f3"),
        AndroidString::localizable("s2", "f2"),
        AndroidString::localizable("s8", "f4"),
        AndroidString::unlocalizable("s6", "f1"),
    ];

    assert_eq!(
        missing_strings::validate(&mut default_strings, &mut foreign_strings).unwrap_err(),
        MissingStrings {
            extra_in_default_locale: vec![
                AndroidString::localizable("s3", "d3"),
                AndroidString::localizable("s4", "d4"),
            ],
            extra_in_foreign_locale: vec![
                AndroidString::localizable("s5", "f3"),
                AndroidString::unlocalizable("s6", "f1"),
                AndroidString::localizable("s8", "f4"),
            ],
        }
    )
}

fn parsed(string: AndroidString, format_strings: Vec<&str>) -> ParsedData {
    ParsedData { android_string: string, sorted_format_strings: format_strings.into_iter().map(String::from).collect() }
}

#[test]
fn validate_passes_in_absence_of_mismatches() {
    let mut default_parsed_data = format_string::parse_and_build_data(&[
        AndroidString::localizable("s1", "value"),
        AndroidString::localizable("s2", "%1$s"),
        AndroidString::localizable("s3", "value %1$s"),
    ]);
    let mut foreign_strings = vec![
        AndroidString::localizable("s1", "value"),
        AndroidString::localizable("s2", "%1$s"),
        AndroidString::localizable("s3", "value %1$s"),
    ];

    assert!(format_string::validate(&mut default_parsed_data, &mut foreign_strings).is_ok())
}

#[test]
fn validate_errors_in_presence_of_mismatches() {
    let mut default_parsed_data = format_string::parse_and_build_data(&[
        AndroidString::localizable("s1", "value"),
        AndroidString::localizable("s2", "%1$s"),
        AndroidString::localizable("s3", "value %1$s"),
    ]);
    let mut foreign_strings = vec![
        AndroidString::localizable("s1", "value %1$d"),
        AndroidString::localizable("s2", "%1$s"),
        AndroidString::localizable("s3", "value %2$d"),
    ];

    let mismatches = format_string::validate(&mut default_parsed_data, &mut foreign_strings).unwrap_err();
    assert_eq!(
        mismatches,
        Mismatches {
            mismatches: vec![
                Mismatch {
                    default_parsed_data: parsed(AndroidString::localizable("s1", "value"), vec![]),
                    foreign_parsed_data: parsed(AndroidString::localizable("s1", "value %1$d"), vec!["%1$d"]),
                },
                Mismatch {
                    default_parsed_data: parsed(AndroidString::localizable("s3", "value %1$s"), vec!["%1$s"]),
                    foreign_parsed_data: parsed(AndroidString::localizable("s3", "value %2$d"), vec!["%2$d"]),
                },
            ]
        }
    )
}

#[test]
fn parse_builds_returns_appropriate_parsed_data() {
    let parsed_data = format_string::parse_and_build_data(&[
        AndroidString::localizable("s1", "value"),
        AndroidString::localizable("s2", "%2$s a %1$d %2$d b %2$z c %1$s"),
    ]);
    assert_eq!(
        parsed_data,
        vec![
            parsed(AndroidString::localizable("s1", "value"), vec![]),
            parsed(
                AndroidString::localizable("s2", "%2$s a %1$d %2$d b %2$z c %1$s"),
                vec!["%2$s", "%1$d", "%2$d", "%1$s"]
            ),
        ]
    )
}

#[test]
fn parse_returns_empty_list_in_case_of_no_format_strings() {
    assert!(format_string::parse_format_strings(&AndroidString::localizable("s1", "value")).is_empty())
}

#[test]
fn parse_returns_only_valid_format_strings() {
    assert_eq!(
        format_string::parse_format_strings(&AndroidString::localizable("s1", "%2$s a %1$d %2$d b %2$z c %1$s")),
        vec!["%2$s", "%1$d", "%2$d", "%1$s"]
    )
}

#[test]
fn formats() {
    let default_s1 = AndroidString::localizable("s1", "default_value1");
    let default_s2 = AndroidString::localizable("s2", "default_value2");
    let french_s1 = AndroidString::localizable("s1", "french_value1");
    let spanish_s1 = AndroidString::localizable("s1", "spanish_value1");
    let spanish_s2 = AndroidString::localizable("s2", "spanish_value2");

    let invalid_strings_file = vec![
        InvalidStringsFile {
            file_path: String::from("default"),
            apostrophe_error: Some(apostrophe::InvalidStrings { invalid_strings: vec![default_s1.clone()] }),
            format_string_error: None,
            missing_strings_error: None,
        },
        InvalidStringsFile {
            file_path: String::from("french"),
            apostrophe_error: None,
            missing_strings_error: None,
            format_string_error: Some(Mismatches {
                mismatches: vec![Mismatch {
                    default_parsed_data: ParsedData {
                        android_string: default_s1.clone(),
                        sorted_format_strings: vec![],
                    },
                    foreign_parsed_data: ParsedData {
                        android_string: french_s1,
                        sorted_format_strings: vec![String::from("asdf"), String::from("qwer")],
                    },
                }],
            }),
        },
        InvalidStringsFile {
            file_path: String::from("spanish"),
            apostrophe_error: Some(apostrophe::InvalidStrings { invalid_strings: vec![spanish_s1.clone()] }),
            format_string_error: Some(Mismatches {
                mismatches: vec![Mismatch {
                    default_parsed_data: ParsedData {
                        android_string: default_s1.clone(),
                        sorted_format_strings: vec![String::from("%1$s"), String::from("%1$d")],
                    },
                    foreign_parsed_data: ParsedData {
                        android_string: spanish_s1.clone(),
                        sorted_format_strings: vec![String::from("%1$d")],
                    },
                }],
            }),
            missing_strings_error: Some(MissingStrings {
                extra_in_default_locale: vec![default_s1, default_s2],
                extra_in_foreign_locale: vec![spanish_s1, spanish_s2],
            }),
        },
    ];

    assert_eq!(
        formatter::format_to_string(invalid_strings_file).unwrap(),
        String::from(
            r#"Path: default (1 issue)
Error 1 (unescaped apostrophe): default_value1

Path: french (1 issue)
Error 1 (mismatched format string(s)): Found [asdf, qwer] in french_value1
                                       Found [] in default_value1

Path: spanish (4 issues)
Error 1 (unescaped apostrophe): spanish_value1
Error 2 (mismatched format string(s)): Found [%1$d] in spanish_value1
                                       Found [%1$s, %1$d] in default_value1
Error 3 (unlocalized string(s)): default_value1, default_value2
Error 4 (string(s) not in defaut locale): spanish_value1, spanish_value2

Found 6 issues across 3 files!"#
        )
    );
}

#[test]
fn formats_no_files() {
    assert_eq!(formatter::format_to_string(vec![]).unwrap(), "\nFound 0 issue across 0 file!");
}

#[test]
fn writes_numbers_in_decimal() {
    assert_eq!(formatter::decimal_text(0), "0");
    assert_eq!(formatter::decimal_text(7), "7");
    assert_eq!(formatter::decimal_text(10), "10");
    assert_eq!(formatter::decimal_text(4096), "4096");
}

#[test]
fn aligns_mismatch_lines_for_two_digit_issue_numbers() {
    let strings: Vec<AndroidString> = (0..9).map(|i| AndroidString::localizable(&format!("s{}", i), "v'")).collect();
    let file = InvalidStringsFile {
        file_path: String::from("p"),
        apostrophe_error: Some(apostrophe::InvalidStrings { invalid_strings: strings }),
        format_string_error: Some(Mismatches {
            mismatches: vec![Mismatch {
                default_parsed_data: parsed(AndroidString::localizable("s", "d"), vec!["%1$s"]),
                foreign_parsed_data: parsed(AndroidString::localizable("s", "f"), vec![]),
            }],
        }),
        missing_strings_error: None,
    };
    let mut output = String::new();
    assert_eq!(formatter::format_errors_from_one_file(&file, &mut output), 10);
    assert!(output.starts_with("Path: p (10 issues)\n"));
    assert!(output.contains("Error 10 (mismatched format string(s)): Found [] in f\n        "));
    assert!(output.ends_with("                                Found [%1$s] in d\n"));
    let second_line = output.lines().last().unwrap();
    assert!(second_line.starts_with(&" ".repeat(40)));
    assert!(second_line.contains("Found [%1$s] in d"));
}

fn with_path(path: &str, strings: Vec<AndroidString>) -> StringsWithPath {
    StringsWithPath::new(String::from(path), strings)
}

#[test]
fn validates() {
    let default = with_path("values/strings.xml", vec![AndroidString::localizable("s1", "value")]);
    let foreign = vec![
        with_path("values-fr/strings.xml", vec![AndroidString::localizable("s1", "value")]),
        with_path("values-es/strings.xml", vec![AndroidString::localizable("s1", "value")]),
    ];
    assert_eq!(
        validator::validate(&default, &foreign, true).unwrap(),
        vec!["values/strings.xml", "values-fr/strings.xml", "values-es/strings.xml"]
    );
}

fn test_errors(fail_on_unlocalized: bool) {
    let default_s1 = AndroidString::localizable("s1", "value");
    let default_s2 = AndroidString::localizable("s2", "v'alue");
    let french_s1 = AndroidString::localizable("s1", "v'alue");
    let spanish_s2 = AndroidString::localizable("s2", "v'alue %1$d");

    let default = with_path("default", vec![default_s1.clone(), default_s2.clone()]);
    let foreign = vec![
        with_path("french", vec![french_s1.clone()]),
        with_path("spanish", vec![spanish_s2.clone()]),
    ];

    let invalid_strings_files = validator::validate(&default, &foreign, fail_on_unlocalized).unwrap_err();

    let (missing_for_fr, missing_for_es) = if fail_on_unlocalized {
        (
            Some(MissingStrings { extra_in_foreign_locale: vec![], extra_in_default_locale: vec![default_s2.clone()] }),
            Some(MissingStrings { extra_in_foreign_locale: vec![], extra_in_default_locale: vec![default_s1.clone()] }),
        )
    } else {
        (None, None)
    };

    assert_eq!(
        invalid_strings_files,
        vec![
            InvalidStringsFile {
                file_path: String::from("default"),
                apostrophe_error: Some(apostrophe::InvalidStrings { invalid_strings: vec![default_s2.clone()] }),
                format_string_error: None,
                missing_strings_error: None,
            },
            InvalidStringsFile {
                file_path: String::from("french"),
                apostrophe_error: Some(apostrophe::InvalidStrings { invalid_strings: vec![french_s1] }),
                format_string_error: None,
                missing_strings_error: missing_for_fr,
            },
            InvalidStringsFile {
                file_path: String::from("spanish"),
                apostrophe_error: Some(apostrophe::InvalidStrings { invalid_strings: vec![spanish_s2.clone()] }),
                format_string_error: Some(Mismatches {
                    mismatches: vec![Mismatch {
                        default_parsed_data: parsed(default_s2, vec![]),
                        foreign_parsed_data: parsed(spanish_s2, vec!["%1$d"]),
                    }],
                }),
                missing_strings_error: missing_for_es,
            },
        ]
    )
}

#[test]
fn errors_without_skipping_missing_errors() {
    test_errors(true)
}

#[test]
fn errors_skipping_missing_errors() {
    test_errors(false)
}

#[test]
fn new_invalid_strings_file_has_no_errors() {
    let file = InvalidStringsFile::new(String::from("path"));
    assert!(!file.has_errors());
    assert_eq!(file.file_path, "path");
}

#[test]
fn validate_passes_when_positional_arguments_are_reordered() {
    let mut default_parsed_data = vec![parsed(AndroidString::localizable("s1", "%1$s %2$d"), vec!["%1$s", "%2$d"])];
    let mut foreign_strings = vec![AndroidString::localizable("s1", "%2$d %1$s")];
    assert!(format_string::validate(&mut default_parsed_data, &mut foreign_strings).is_ok())
}

#[test]
fn validate_errors_when_a_format_string_repeats_a_different_number_of_times() {
    let mut default_parsed_data = vec![parsed(AndroidString::localizable("s1", "%1$s %1$s"), vec!["%1$s", "%1$s"])];
    let mut foreign_strings = vec![AndroidString::localizable("s1", "%1$s")];
    let mismatches = format_string::validate(&mut default_parsed_data, &mut foreign_strings).unwrap_err().mismatches;
    assert_eq!(mismatches.len(), 1);
    assert_eq!(mismatches[0].foreign_parsed_data.sorted_format_strings, vec!["%1$s"]);
}
