use android_localization::android_string::AndroidString;
use android_localization::cli;
use android_localization::error::ErrorKind;
use android_localization::localizable_strings::LocalizableStrings;
use android_localization::localize::{self, FileProvider};
use android_localization::localized;
use android_localization::localized_string::LocalizedString;
use android_localization::ops::filter::find_localizable_strings;
use android_localization::reader::csv_reader;
use android_localization::util::foreign_locale_ids_finder;

#[test]
fn validates_mappings() {
    assert!(cli::mapping_validator(String::from("fr=french")).is_ok());
    assert_eq!(
        cli::mapping_validator(String::from("fr=")).unwrap_err(),
        "Mapping should be of the format xx=yy; Found: fr="
    );
    assert!(cli::mapping_validator(String::from("fr=fr=fr")).is_err());
    assert!(cli::mapping_validator(String::from("f1=french")).is_err());
}

#[test]
fn builds_mappings_with_later_ones_winning() {
    let map = cli::build_mappings(Some(vec![
        String::from("fr=french"),
        String::from("es=spanish"),
        String::from("fr=francais"),
    ]));
    assert_eq!(
        map,
        vec![(String::from("fr"), String::from("francais")), (String::from("es"), String::from("spanish"))]
    );
    assert!(cli::build_mappings(None).is_empty());
}

#[test]
fn builds_messages() {
    assert_eq!(cli::arg_missing_msg("res-dir"), "res-dir arg is missing");
    assert_eq!(cli::invalid_mapping_validator_msg(), "Looks like mapping validator doesn't work!");
    assert_eq!(
        cli::exit_based_on_result("Done", Ok(vec![String::from("a"), String::from("b")])),
        Ok(String::from("Done - \n\na\nb"))
    );
    assert_eq!(cli::exit_based_on_result("Done", Err(String::from("oops"))), Err(String::from("oops")));
}

#[test]
fn build_map_if_empty_or_return() {
    let map = vec![(String::from("a"), String::from("a"))];
    assert_eq!(foreign_locale_ids_finder::build_map_if_empty_or_return(map.clone(), &[]), map)
}

#[test]
fn build_map_if_empty_or_return_builds_map() {
    let ids = vec![String::from("fr"), String::from("it"), String::from("fr")];
    assert_eq!(
        foreign_locale_ids_finder::build_map_if_empty_or_return(vec![], &ids),
        vec![(String::from("fr"), String::from("fr")), (String::from("it"), String::from("it"))]
    )
}

#[test]
fn find_finds_foreign_locale_ids() {
    let dir_names: Vec<String> =
        vec!["values", "values-fr", "values-es", "values-it", "values-b+sr", "values-fr-rCA"].into_iter().map(String::from).collect();
    assert_eq!(foreign_locale_ids_finder::find(&dir_names), vec!["fr", "es", "it", "rCA"]);
    assert_eq!(foreign_locale_ids_finder::locale_id_of_dir_name("values"), None);
}

#[test]
fn names_output_files_in_turn() {
    let mut provider = FileProvider::new(String::from("out"));
    let first = provider.next_output_file_path();
    let second = provider.next_output_file_path();
    assert_eq!(first, "out/to_localize_1.csv");
    assert_eq!(second, "out/to_localize_2.csv");
    provider.add_created_file(first.clone());
    assert_eq!(provider.into_created_files(), vec![first]);
}

#[test]
fn collects_strings_to_localize() {
    let mut defaults = vec![AndroidString::localizable("b", "B"), AndroidString::localizable("a", "A")];
    let foreign = vec![
        (String::from("french"), vec![AndroidString::localizable("a", "fa")]),
        (String::from("spanish"), vec![AndroidString::localizable("a", "sa"), AndroidString::localizable("b", "sb")]),
    ];
    let list = localize::collect_strings_to_localize(&mut defaults, &foreign);
    assert_eq!(
        list,
        vec![LocalizableStrings::new(String::from("french"), vec![AndroidString::localizable("b", "B")])]
    );
}

#[test]
fn errors_for_empty_locale_id_to_name_map() {
    let error = localize::localize("res", "", vec![], &[]).unwrap_err();
    assert_eq!(error.context(), "res");
    assert!(matches!(&error.kind, ErrorKind::Message(m) if m == "Res dir doesn't have any non-default values dir with strings file!"));
    assert_eq!(error.to_display_string(), "res: Res dir doesn't have any non-default values dir with strings file!");
}

#[test]
fn handles_localized_strings() {
    let mut defaults = vec![
        AndroidString::localizable("s1", "english 1"),
        AndroidString::localizable("s2", "english 2"),
    ];
    let existing = vec![
        AndroidString::localizable("s1", "french old 1"),
        AndroidString::localizable("s2", "french old 2"),
        AndroidString::unlocalizable("s3", "not to touch"),
    ];
    let localized_strings = vec![LocalizedString::build("s1", "english 1", "french new 1")];
    let (to_write, changed) = localized::handle_localized_strings(localized_strings, &mut defaults, existing);
    assert_eq!(
        to_write,
        vec![
            AndroidString::localizable("s1", "french new 1"),
            AndroidString::localizable("s2", "french old 2"),
        ]
    );
    assert!(changed);
}

#[test]
fn reports_no_change_when_nothing_new_is_localized() {
    let mut defaults = vec![AndroidString::localizable("s1", "english 1")];
    let existing = vec![AndroidString::localizable("s1", "french 1")];
    let localized_strings = vec![LocalizedString::build("s1", "english 1", "french 1")];
    let (to_write, changed) = localized::handle_localized_strings(localized_strings, &mut defaults, existing);
    assert_eq!(to_write, vec![AndroidString::localizable("s1", "french 1")]);
    assert!(!changed);
}

#[test]
fn looks_up_locale_ids() {
    let map = vec![(String::from("french"), String::from("fr")), (String::from("spanish"), String::from("es"))];
    assert_eq!(localized::locale_id_for(&map, "spanish"), Some(String::from("es")));
    assert_eq!(localized::locale_id_for(&map, "german"), None);
    assert_eq!(localized::map_keys(&map), vec!["french", "spanish"]);
}

#[test]
fn find_and_build_mapping_if_empty_or_return_returns_non_empty_map_as_is() {
    let mapping = vec![(String::from("a"), String::from("a"))];
    assert_eq!(foreign_locale_ids_finder::build_map_if_empty_or_return(mapping.clone(), &[]), mapping)
}

#[test]
fn write_out_strings_to_localize_does_not_write_out_if_there_is_no_strings_to_localize() {
    let defaults = vec![AndroidString::localizable("string", "string value")];
    let foreign = vec![(String::from("french"), vec![AndroidString::localizable("string", "string value")])];
    assert!(localize::localize("res", "out", defaults, &foreign).unwrap().is_empty());
}

#[test]
fn write_out_strings_to_localize_writes_out_if_there_are_strings_to_localize() {
    let defaults = vec![
        AndroidString::localizable("string_1", "string value"),
        AndroidString::localizable("string_2", "string value"),
        AndroidString::unlocalizable("string_3", "string value"),
    ];
    let foreign = vec![(String::from("french"), vec![]), (String::from("spanish"), vec![])];
    let files = localize::localize("res", "out", defaults, &foreign).unwrap();
    assert_eq!(files.len(), 1);
    assert_eq!(files[0].0, "out/to_localize_1.csv");
    assert_eq!(
        String::from_utf8(files[0].1.clone()).unwrap(),
        "string_name,default_locale,french,spanish\nstring_1,string value,,\nstring_2,string value,,\n"
    );
}

#[test]
fn localizes_to_one_file_per_group_of_locales() {
    let defaults = vec![AndroidString::localizable("a", "A"), AndroidString::localizable("b", "B")];
    let foreign = vec![
        (String::from("french"), vec![AndroidString::localizable("a", "fa")]),
        (String::from("german"), vec![AndroidString::localizable("b", "gb")]),
    ];
    let files = localize::localize("res", "out/", defaults, &foreign).unwrap();
    let paths: Vec<&str> = files.iter().map(|(path, _)| path.as_str()).collect();
    assert_eq!(paths, vec!["out/to_localize_1.csv", "out/to_localize_2.csv"]);
    assert_eq!(String::from_utf8(files[0].1.clone()).unwrap(), "string_name,default_locale,french\nb,B,\n");
    assert_eq!(String::from_utf8(files[1].1.clone()).unwrap(), "string_name,default_locale,german\na,A,\n");
}

#[test]
fn updates_strings_files() {
    let mut localizable_default_strings = find_localizable_strings(vec![
        AndroidString::localizable("s1", "english value 1"),
        AndroidString::localizable("s2", "english value 2"),
    ]);
    let german_android_strings = vec![
        AndroidString::localizable("s1", "german old value 1"),
        AndroidString::localizable("s2", "german old value 2"),
    ];
    let chinese_android_strings = vec![
        AndroidString::localizable("s1", "chinese old value 1"),
        AndroidString::localizable("s2", "chinese old value 2"),
    ];
    let existing = vec![
        (
            "fr",
            vec![
                AndroidString::localizable("s1", "french old value 1"),
                AndroidString::localizable("s2", "french old value 2"),
            ],
        ),
        (
            "es",
            vec![
                AndroidString::localizable("s1", "spanish old value 1"),
                AndroidString::localizable("s2", "spanish old value 2"),
            ],
        ),
        ("de", german_android_strings.clone()),
        ("zh", chinese_android_strings.clone()),
    ];
    let content = r#"string_name, default_locale, french, spanish, german, chinese
s1, english value 1, french new value 1,,german new value 1,chinese old value 1
s2, english value 2,,spanish new value 2,german new value 2,            "#;

    // Not including german in this map to make sure that mappings also work as a filter
    let map = vec![
        (String::from("french"), String::from("fr")),
        (String::from("spanish"), String::from("es")),
        (String::from("chinese"), String::from("zh")),
    ];

    let list = csv_reader::read(content.as_bytes(), &localized::map_keys(&map)).unwrap();
    let mut updated = vec![];
    let mut written = vec![];
    for new_localized_foreign_strings in list {
        let locale_id = localized::locale_id_for(&map, new_localized_foreign_strings.locale()).unwrap();
        let existing_foreign_strings =
            existing.iter().find(|(id, _)| *id == locale_id).unwrap().1.clone();
        let (to_be_written, changed) = localized::handle_localized_strings(
            new_localized_foreign_strings.into_strings(),
            &mut localizable_default_strings,
            existing_foreign_strings,
        );
        if changed {
            updated.push(locale_id.clone());
        }
        written.push((locale_id, to_be_written));
    }

    assert_eq!(updated, vec!["fr", "es"]);
    assert_eq!(
        written,
        vec![
            (
                String::from("fr"),
                vec![
                    AndroidString::localizable("s1", "french new value 1"),
                    AndroidString::localizable("s2", "french old value 2"),
                ],
            ),
            (
                String::from("es"),
                vec![
                    AndroidString::localizable("s1", "spanish old value 1"),
                    AndroidString::localizable("s2", "spanish new value 2"),
                ],
            ),
            // Chinese must not have changed since the localized text only
            // holds a blank string & an already present localized value
            (String::from("zh"), chinese_android_strings),
        ]
    );
    // German must not have been read since it isn't in the mapping
    assert!(written.iter().all(|(id, _)| id != "de"));
    assert_eq!(existing[2].1, german_android_strings);
}

#[test]
fn finds_locale_ids_only_in_values_directories() {
    let dir_names: Vec<String> =
        vec!["drawable-fr", "values-es", "layout-it", "valuesfr", "values"].into_iter().map(String::from).collect();
    assert_eq!(foreign_locale_ids_finder::find(&dir_names), vec!["es"]);
    assert_eq!(foreign_locale_ids_finder::locale_id_of_dir_name("drawable-fr"), None);
}

#[test]
fn errors_for_a_missing_res_dir() {
    let error = foreign_locale_ids_finder::res_dir_missing_error("some/res");
    assert!(matches!(&error.kind, ErrorKind::Message(m) if m == "Res dir(some/res) doesn't exist"));
}

#[test]
fn checks_that_there_are_locales() {
    let error = localize::check_has_locales("res", &[]).unwrap_err();
    assert_eq!(error.context(), "res");
    assert!(matches!(&error.kind, ErrorKind::Message(m) if m == "Res dir doesn't have any non-default values dir with strings file!"));
    assert!(localize::check_has_locales("res", &[(String::from("fr"), String::from("french"))]).is_ok());
}

#[test]
fn errors_for_empty_locale_name_to_id_map() {
    let error = localize::check_has_locales("res", &[]).unwrap_err();
    assert_eq!(error.context(), "res");
    assert!(error.to_display_string().ends_with("Res dir doesn't have any non-default values dir with strings file!"));
}
