use android_localization::android_string::AndroidString;
use android_localization::error::{ErrorKind, InnerError};
use android_localization::localizable_strings::LocalizableStrings;
use android_localization::localized_string::LocalizedString;
use android_localization::localized_strings::LocalizedStrings;
use android_localization::reader::csv_reader;
use android_localization::writer::csv_writer;

fn read_strings_from_file(file_content: &str, allow_only_locales: Vec<&str>) -> Result<Vec<LocalizedStrings>, InnerError> {
    let allowed: Vec<String> = allow_only_locales.into_iter().map(String::from).collect();
    csv_reader::read(file_content.as_bytes(), &allowed)
}

fn message_of(error: InnerError) -> String {
    match error.kind {
        ErrorKind::Message(message) => message,
        _ => panic!("not a message"),
    }
}

#[test]
fn reads_strings_from_valid_file() {
    let mut strings_list = read_strings_from_file(
        r#"string_name, default_locale, french, german, spanish
            string_1, english 1, french 1, german 1, spanish 1
            string_2, english 2, , german 2, spanish 2"#,
        vec!["french", "some_random_thing", "spanish"],
    )
    .unwrap()
    .into_iter();

    let french_strings = strings_list.next().unwrap();
    let spanish_strings = strings_list.next().unwrap();
    assert_eq!(strings_list.next(), None);

    assert_eq!(french_strings.locale(), "french");
    let mut french_strings_iter = french_strings.strings().iter();
    assert_eq!(french_strings_iter.next(), Some(&LocalizedString::build("string_1", "english 1", "french 1")));
    assert_eq!(french_strings_iter.next(), None);

    assert_eq!(spanish_strings.locale(), "spanish");
    let mut spanish_strings_iter = spanish_strings.strings().iter();
    assert_eq!(spanish_strings_iter.next(), Some(&LocalizedString::build("string_1", "english 1", "spanish 1")));
    assert_eq!(spanish_strings_iter.next(), Some(&LocalizedString::build("string_2", "english 2", "spanish 2")));
    assert_eq!(spanish_strings_iter.next(), None);
}

#[test]
fn errors_if_enough_header_values_are_not_as_expected() {
    let error = read_strings_from_file("string_name, default_locale", vec!["french"]).unwrap_err();
    assert_eq!(message_of(error), "Too few values in header (at least 3 required)");
}

#[test]
fn errors_if_first_header_is_not_as_expected() {
    let error = read_strings_from_file("header_1, default_locale, french", vec!["french"]).unwrap_err();
    assert_eq!(message_of(error), "First header should be named string_name");
}

#[test]
fn errors_if_second_header_is_not_as_expected() {
    let error = read_strings_from_file("string_name, header_2, french", vec!["french"]).unwrap_err();
    assert_eq!(message_of(error), "Second header should be named default_locale");
}

#[test]
fn csv_reader_errors_if_string_name_is_empty() {
    let error = read_strings_from_file("string_name, default_locale, french\n, a, b", vec!["french"]).unwrap_err();
    assert_eq!(message_of(error), "string_name can't be empty for any record");
}

#[test]
fn errors_if_records_differ_in_length() {
    let error =
        read_strings_from_file("string_name, default_locale, french\ns, a, b\nt, c", vec!["french"]).unwrap_err();
    assert!(matches!(error.kind, ErrorKind::Csv(_)));
}

#[test]
fn extracts_filtered_headers() {
    let header: Vec<String> = vec!["string_name", "default_locale", "fr", "de", "es"].into_iter().map(String::from).collect();
    let allowed: Vec<String> = vec![String::from("es"), String::from("fr")];
    let filtered = csv_reader::extract_filtered_headers(&header, &allowed).unwrap_or_else(|_| panic!("header"));
    assert_eq!(filtered.foreign_locales, vec!["fr", "es"]);
    assert_eq!(filtered.foreign_indices_allow_flags, vec![true, false, true]);
}

#[test]
fn extracts_localized_record() {
    let record: Vec<String> = vec!["s", "d", "fr", "de", "es"].into_iter().map(String::from).collect();
    let extracted = csv_reader::extract_localized_record(&record, &[true, false, true]).unwrap_or_else(|_| panic!("record"));
    assert_eq!(extracted.string_name, "s");
    assert_eq!(extracted.default_value, "d");
    assert_eq!(extracted.foreign_values, vec!["fr", "es"]);
}

#[test]
fn writes_strings_to_files() {
    let strings_list = vec![
        LocalizableStrings::new(String::from("french"), vec![AndroidString::localizable("string_1", "english 1")]),
        LocalizableStrings::new(
            String::from("german"),
            vec![
                AndroidString::localizable("string_1", "english 1"),
                AndroidString::localizable("string_2", "english 2"),
            ],
        ),
        LocalizableStrings::new(String::from("spanish"), vec![AndroidString::localizable("string_2", "english 2")]),
        LocalizableStrings::new(
            String::from("dutch"),
            vec![
                AndroidString::localizable("string_1", "english 1"),
                AndroidString::localizable("string_2", "english 2"),
            ],
        ),
    ];

    let mut data: Vec<String> = csv_writer::group_for_writing(&strings_list)
        .iter()
        .map(|writer| String::from_utf8(writer.write().unwrap_or_else(|_| panic!("write"))).unwrap())
        .collect();

    data.sort();

    assert_eq!(
        data,
        vec![
            String::from("string_name,default_locale,french\nstring_1,english 1,\n"),
            String::from("string_name,default_locale,german,dutch\nstring_1,english 1,,\nstring_2,english 2,,\n"),
            String::from("string_name,default_locale,spanish\nstring_2,english 2,\n")
        ]
    );
}

#[test]
fn groups_in_order_of_first_appearance() {
    let strings_list = vec![
        LocalizableStrings::new(String::from("a"), vec![AndroidString::localizable("s", "1")]),
        LocalizableStrings::new(String::from("b"), vec![AndroidString::localizable("t", "2")]),
        LocalizableStrings::new(String::from("c"), vec![AndroidString::localizable("s", "1")]),
    ];
    let writers = csv_writer::group_for_writing(&strings_list);
    let locales: Vec<Vec<String>> = writers
        .iter()
        .map(|w| w.strings_list().iter().map(|l| String::from(l.to_locale())).collect())
        .collect();
    assert_eq!(locales, vec![vec![String::from("a"), String::from("c")], vec![String::from("b")]]);
}

#[test]
fn what_is_written_reads_back_as_strings_to_localize() {
    let strings_list = vec![LocalizableStrings::new(
        String::from("fr"),
        vec![AndroidString::localizable("s", "hello, world")],
    )];
    let writers = csv_writer::group_for_writing(&strings_list);
    let written = writers[0].write().unwrap_or_else(|_| panic!("write"));
    let read = csv_reader::read(&written, &[String::from("fr")]).unwrap_or_else(|_| panic!("read"));
    assert_eq!(read, vec![LocalizedStrings::new(String::from("fr"), vec![])]);
}

#[test]
fn strings_are_read_from_valid_file() {
    let strings = read_strings_from_file(
        r#"string_name, default_locale, french, spanish
            string_1, english 1, french 1, spanish 1
            string_2, english 2, , spanish 2"#,
        vec!["french", "spanish"],
    )
    .unwrap();

    let mut strings = strings.into_iter();
    let french_strings = strings.next().unwrap();
    let spanish_strings = strings.next().unwrap();
    assert!(strings.next().is_none(), "List was expected to be exhausted but isn't!");

    assert_eq!(french_strings.locale(), "french");
    let mut french_strings = french_strings.into_strings().into_iter();
    assert_eq!(french_strings.next(), Some(LocalizedString::build("string_1", "english 1", "french 1")));
    assert_eq!(french_strings.next(), None);

    assert_eq!(spanish_strings.locale(), "spanish");
    let mut spanish_strings = spanish_strings.into_strings().into_iter();
    assert_eq!(spanish_strings.next(), Some(LocalizedString::build("string_1", "english 1", "spanish 1")));
    assert_eq!(spanish_strings.next(), Some(LocalizedString::build("string_2", "english 2", "spanish 2")));
    assert_eq!(spanish_strings.next(), None);
}

#[test]
fn strings_are_written_to_files() {
    let strings_list = vec![
        LocalizableStrings::new(
            String::from("french"),
            vec![AndroidString::new(String::from("string_1"), String::from("english 1"), true)],
        ),
        LocalizableStrings::new(
            String::from("german"),
            vec![
                AndroidString::new(String::from("string_1"), String::from("english 1"), true),
                AndroidString::new(String::from("string_2"), String::from("english 2"), true),
            ],
        ),
        LocalizableStrings::new(
            String::from("spanish"),
            vec![AndroidString::new(String::from("string_2"), String::from("english 2"), true)],
        ),
        LocalizableStrings::new(
            String::from("dutch"),
            vec![
                AndroidString::new(String::from("string_1"), String::from("english 1"), true),
                AndroidString::new(String::from("string_2"), String::from("english 2"), true),
            ],
        ),
    ];

    let mut data: Vec<(Vec<String>, String)> = csv_writer::group_for_writing(&strings_list)
        .iter()
        .map(|writer| {
            let locales = writer.strings_list().iter().map(|l| String::from(l.to_locale())).collect();
            let bytes = writer.write().unwrap_or_else(|_| panic!("write"));
            (locales, String::from_utf8(bytes).unwrap())
        })
        .collect();
    data.sort();

    assert_eq!(
        data,
        vec![
            (vec![String::from("french")], String::from("string_name,default_locale,french\nstring_1,english 1,\n")),
            (
                vec![String::from("german"), String::from("dutch")],
                String::from("string_name,default_locale,german,dutch\nstring_1,english 1,,\nstring_2,english 2,,\n")
            ),
            (vec![String::from("spanish")], String::from("string_name,default_locale,spanish\nstring_2,english 2,\n"))
        ]
    );
}
