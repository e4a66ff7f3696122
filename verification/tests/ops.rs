use android_localization::android_string::AndroidString;
use android_localization::localized_string::LocalizedString;
use android_localization::ops::dedup::dedup_grouped_strings;
use android_localization::ops::extract::extract_android_strings_from_localized;
use android_localization::ops::filter::{find_localizable_strings, find_missing_strings};
use android_localization::ops::merge::merge_and_group_strings;
use android_localization::ops::sort::{
    compare_android_strings, sort_android_strings_by_name, sort_localized_strings_by_name,
};

#[test]
fn finds_localizable_strings() {
    let mut localizable_strings = find_localizable_strings(vec![
        AndroidString::localizable("localizable_string_1", "string value"),
        AndroidString::unlocalizable("non_localizable_string", "string value"),
        AndroidString::localizable("localizable_string_2", "string value"),
    ])
    .into_iter();

    assert_eq!(
        localizable_strings.next().unwrap(),
        AndroidString::localizable("localizable_string_1", "string value")
    );
    assert_eq!(
        localizable_strings.next().unwrap(),
        AndroidString::localizable("localizable_string_2", "string value")
    );
    assert_eq!(localizable_strings.next(), None);
}

#[test]
fn finds_missing_strings() {
    let mut lacking_strings = vec![
        AndroidString::localizable("common_string_3", "string value"),
        AndroidString::localizable("only_in_lacking_strings", "string value"),
        AndroidString::unlocalizable("common_string_1", "string value"),
    ];
    let mut all_strings = vec![
        AndroidString::unlocalizable("common_string_1", "string value"),
        AndroidString::unlocalizable("only_in_all_strings_1", "string value"),
        AndroidString::localizable("common_string_3", "string value"),
        AndroidString::unlocalizable("only_in_all_strings_3", "string value"),
        AndroidString::unlocalizable("only_in_all_strings_2", "string value"),
    ];

    let mut missing_strings = find_missing_strings(&mut lacking_strings, &mut all_strings).into_iter();

    assert_eq!(
        missing_strings.next().unwrap(),
        AndroidString::unlocalizable("only_in_all_strings_1", "string value")
    );
    assert_eq!(
        missing_strings.next().unwrap(),
        AndroidString::unlocalizable("only_in_all_strings_2", "string value")
    );
    assert_eq!(
        missing_strings.next().unwrap(),
        AndroidString::unlocalizable("only_in_all_strings_3", "string value")
    );
    assert_eq!(missing_strings.next(), None);
}

#[test]
fn dedupes() {
    let mut android_strings = vec![
        AndroidString::localizable("string_1", "string 1 value 1"),
        AndroidString::localizable("string_1", "string 1 value 2"),
        AndroidString::unlocalizable("string_1", "string 1 value 3"),
        AndroidString::unlocalizable("string_2", "string 2 value 1"),
        AndroidString::unlocalizable("string_2", "string 2 value 2"),
        AndroidString::localizable("string_2", "string 2 value 3"),
    ];

    dedup_grouped_strings(&mut android_strings);
    assert_eq!(
        android_strings,
        vec![
            AndroidString::localizable("string_1", "string 1 value 1"),
            AndroidString::unlocalizable("string_2", "string 2 value 1"),
        ]
    )
}

#[test]
fn extracts() {
    let mut default_strings = vec![
        AndroidString::unlocalizable("string_2", "english 2 value"),
        AndroidString::localizable("string_3", "english 3 value"),
        AndroidString::localizable("string_4", "english 4 new value"),
        AndroidString::localizable("string_1", "english 1 value"),
    ];
    let mut localized_strings = vec![
        LocalizedString::build("string_3", "english 3 value", "french 3 value"),
        LocalizedString::build("string_4", "english 4 value", "french 4 value"),
        LocalizedString::build("string_2", "english 2 value", "french 2 value"),
    ];

    let strings = extract_android_strings_from_localized(&mut localized_strings, &mut default_strings);

    assert_eq!(
        strings,
        vec![
            AndroidString::unlocalizable("string_2", "french 2 value"),
            AndroidString::localizable("string_3", "french 3 value"),
        ]
    )
}

#[test]
fn merges_and_groups() {
    let strings = merge_and_group_strings(
        &mut [
            AndroidString::localizable("string_1", "string value"),
            AndroidString::unlocalizable("string_4", "string value"),
        ],
        &mut [
            AndroidString::localizable("string_3", "string value"),
            AndroidString::unlocalizable("string_2", "string value"),
        ],
    );

    assert_eq!(
        strings,
        vec![
            AndroidString::localizable("string_1", "string value"),
            AndroidString::unlocalizable("string_2", "string value"),
            AndroidString::localizable("string_3", "string value"),
            AndroidString::unlocalizable("string_4", "string value"),
        ]
    )
}

#[test]
fn list_1_strings_takes_precedence_over_list_2_strings_in_case_of_same_name() {
    let strings = merge_and_group_strings(
        &mut [
            AndroidString::localizable("string_1", "from list 1"),
            AndroidString::unlocalizable("string_3", "from list 1"),
            AndroidString::unlocalizable("string_1", "from list 1 again"),
        ],
        &mut [
            AndroidString::unlocalizable("string_1", "from list 2"),
            AndroidString::localizable("string_2", "from list 2"),
        ],
    );

    assert_eq!(
        strings,
        vec![
            AndroidString::localizable("string_1", "from list 1"),
            AndroidString::unlocalizable("string_1", "from list 1 again"),
            AndroidString::unlocalizable("string_1", "from list 2"),
            AndroidString::localizable("string_2", "from list 2"),
            AndroidString::unlocalizable("string_3", "from list 1"),
        ]
    )
}

#[test]
fn sorts_android_strings_by_name() {
    let mut strings = vec![
        AndroidString::localizable("string_2", "string value"),
        AndroidString::localizable("string_3", "string 3 value 1"),
        AndroidString::localizable("string_3", "string 3 value 2"),
        AndroidString::localizable("string_1", "string value"),
    ];

    sort_android_strings_by_name(&mut strings);
    assert_eq!(
        strings,
        vec![
            AndroidString::localizable("string_1", "string value"),
            AndroidString::localizable("string_2", "string value"),
            AndroidString::localizable("string_3", "string 3 value 1"),
            AndroidString::localizable("string_3", "string 3 value 2"),
        ]
    )
}

#[test]
fn sorts_localized_strings_by_name() {
    let mut strings = vec![
        LocalizedString::build("string_2", "string value", "string value"),
        LocalizedString::build("string_3", "string 3 value 1", "string 3 value 1"),
        LocalizedString::build("string_3", "string 3 value 2", "string 3 value 2"),
        LocalizedString::build("string_1", "string value", "string value"),
    ];

    sort_localized_strings_by_name(&mut strings);
    assert_eq!(
        strings,
        vec![
            LocalizedString::build("string_1", "string value", "string value"),
            LocalizedString::build("string_2", "string value", "string value"),
            LocalizedString::build("string_3", "string 3 value 1", "string 3 value 1"),
            LocalizedString::build("string_3", "string 3 value 2", "string 3 value 2"),
        ]
    )
}

#[test]
fn sorting_a_sorted_list_leaves_it_as_it_is() {
    let sorted = vec![
        AndroidString::localizable("a", "1"),
        AndroidString::localizable("b", "2"),
        AndroidString::localizable("b", "3"),
    ];
    let mut strings = sorted.clone();
    sort_android_strings_by_name(&mut strings);
    assert_eq!(strings, sorted);
}

#[test]
fn sorting_orders_names_by_their_bytes() {
    let mut strings = vec![
        AndroidString::localizable("b", "1"),
        AndroidString::localizable("B", "2"),
        AndroidString::localizable("ab", "3"),
        AndroidString::localizable("a", "4"),
    ];
    sort_android_strings_by_name(&mut strings);
    assert_eq!(
        strings,
        vec![
            AndroidString::localizable("B", "2"),
            AndroidString::localizable("a", "4"),
            AndroidString::localizable("ab", "3"),
            AndroidString::localizable("b", "1"),
        ]
    );
}

#[test]
fn compares_android_strings_by_name_only() {
    let a = AndroidString::localizable("a", "z");
    let b = AndroidString::unlocalizable("b", "a");
    assert_eq!(compare_android_strings(&a, &b), std::cmp::Ordering::Less);
    assert_eq!(compare_android_strings(&b, &a), std::cmp::Ordering::Greater);
    assert_eq!(
        compare_android_strings(&a, &AndroidString::unlocalizable("a", "other")),
        std::cmp::Ordering::Equal
    );
}

#[test]
fn merged_strings_are_deduped_to_the_first_of_each_name() {
    let mut merged = merge_and_group_strings(
        &mut [AndroidString::localizable("s", "new")],
        &mut [AndroidString::localizable("s", "old"), AndroidString::localizable("t", "old")],
    );
    dedup_grouped_strings(&mut merged);
    assert_eq!(
        merged,
        vec![AndroidString::localizable("s", "new"), AndroidString::localizable("t", "old")]
    );
}

#[test]
fn finds_no_missing_strings_in_a_complete_list() {
    let mut lacking = vec![AndroidString::localizable("a", "x")];
    let mut all = vec![AndroidString::localizable("a", "y")];
    assert!(find_missing_strings(&mut lacking, &mut all).is_empty());
}

#[test]
fn extracts_nothing_when_no_default_value_agrees() {
    let mut defaults = vec![AndroidString::localizable("a", "changed")];
    let mut localized = vec![LocalizedString::build("a", "original", "translated")];
    assert!(extract_android_strings_from_localized(&mut localized, &mut defaults).is_empty());
}
