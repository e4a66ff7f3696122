use android_localization::android_string::AndroidString;
use android_localization::error::ErrorKind;
use android_localization::reader::xml_reader;
use android_localization::reader::xml_reader::event_handler::{Attribute, EventHandler};
use android_localization::reader::xml_reader::resources_event_handler::ResourcesEventHandler;
use android_localization::reader::xml_reader::root_event_handler::RootEventHandler;
use android_localization::reader::xml_reader::sinking_event_handler::SinkingEventHandler;
use android_localization::reader::xml_reader::string_event_handler::StringEventHandler;
use android_localization::util::xml_helper;
use android_localization::writer::xml_writer;

fn read_strings(content: &str) -> Vec<AndroidString> {
    xml_reader::read(content.as_bytes()).unwrap()
}

#[test]
fn reads_strings_from_valid_clean_file() {
    let strings = read_strings(
        r##"
			<?xml version="1.0" encoding="utf-8"?>
			<resources>
			    <string name="string_1">string 1 value</string>
			    <string name="string_2" translatable="true">string 2 value</string>
				<string name="non_localizable_string" translatable="false">non localizable string value</string>
			</resources>
		"##,
    );

    assert_eq!(
        strings,
        vec![
            AndroidString::localizable("string_1", "string 1 value"),
            AndroidString::localizable("string_2", "string 2 value"),
            AndroidString::unlocalizable("non_localizable_string", "non localizable string value"),
        ]
    )
}

#[test]
fn reads_strings_from_valid_dirty_file() {
    let strings = read_strings(
        r##"
			<?xml version="1.0" encoding="utf-8"?>
			<string name="dont_care_string_1">value</string>
			<string name="dont_care_string_2" translatable="false">value</string>
			<resources>
			    <string name="string_1">string 1 value</string>
			    <string name="string_2" translatable="true">string 2 value</string>
			    <inside_container>
					<string name="dont_care_string_3">value</string>
					<string name="dont_care_string_4" translatable="false">value</string>
				</inside_container>
				<string name="non_localizable_string" translatable="false">non localizable string value</string>
			</resources>
			<outside_container>
				<string name="dont_care_string_5">value</string>
				<string name="dont_care_string_6" translatable="false">value</string>
			</outside_container>
		"##,
    );

    assert_eq!(
        strings,
        vec![
            AndroidString::localizable("string_1", "string 1 value"),
            AndroidString::localizable("string_2", "string 2 value"),
            AndroidString::unlocalizable("non_localizable_string", "non localizable string value"),
        ]
    )
}

#[test]
fn reads_cdata_correctly() {
    let strings = read_strings(
        r##"
            <?xml version="1.0" encoding="utf-8"?>
            <resources>
                <string name="s1">Hi there. <![CDATA[<a href=\"https://www.mozilla.com\">Mozilla</a>]]> is awesome</string>
            </resources>
        "##,
    );

    assert_eq!(
        strings,
        vec![AndroidString::localizable(
            "s1",
            r##"Hi there. <![CDATA[<a href=\"https://www.mozilla.com\">Mozilla</a>]]> is awesome"##
        )]
    )
}

#[test]
fn reads_string_with_whitespace_between_cdata() {
    let strings = read_strings(
        r##"
            <?xml version="1.0" encoding="utf-8"?>
            <resources>
                <string name="s1"><![CDATA[<a href=\"https://www.mozilla.com\">Mozilla</a>]]> <![CDATA[<a href=\"https://www.firefox.com\">Firefox</a>]]></string>
            </resources>
        "##,
    );

    assert_eq!(
        strings,
        vec![AndroidString::localizable(
            "s1",
            r##"<![CDATA[<a href=\"https://www.mozilla.com\">Mozilla</a>]]> <![CDATA[<a href=\"https://www.firefox.com\">Firefox</a>]]>"##
        )]
    );
}

#[test]
fn errors_for_a_string_without_a_name() {
    let error = xml_reader::read(r#"<resources><string>value</string></resources>"#.as_bytes()).unwrap_err();
    assert!(matches!(&error.kind, ErrorKind::Message(m) if m == "string element is missing required name attribute"));
}

#[test]
fn errors_for_a_malformed_document() {
    let error = xml_reader::read(r#"<resources><string name="a">value</resources>"#.as_bytes()).unwrap_err();
    assert!(matches!(error.kind, ErrorKind::XmlRead(_)));
}

#[test]
fn the_last_name_attribute_wins() {
    let strings = read_strings(r#"<resources><string name="a" name2="x" translatable="false">v</string></resources>"#);
    assert_eq!(strings, vec![AndroidString::unlocalizable("a", "v")]);
}

fn build_event_handler() -> StringEventHandler {
    StringEventHandler { name: String::from("test_string"), is_localizable: true, built_android_string: None }
}

fn assert_string(handler: StringEventHandler, expected: &str) {
    assert_eq!(handler.built_string().unwrap().value(), expected)
}

#[test]
fn builds_string_with_one_character_event() {
    let mut handler = build_event_handler();
    handler.handle_characters_event(String::from("this is a test"));
    assert_string(handler, "this is a test")
}

#[test]
fn builds_string_with_one_cdata_event() {
    let mut handler = build_event_handler();
    handler.handle_cdata_event(String::from("this is a test"));
    assert_string(handler, "<![CDATA[this is a test]]>")
}

#[test]
fn builds_string_with_character_followed_by_cdata_event() {
    let mut handler = build_event_handler();
    handler.handle_characters_event(String::from("character event "));
    handler.handle_cdata_event(String::from("cdata event"));
    assert_string(handler, "character event <![CDATA[cdata event]]>")
}

#[test]
fn builds_string_with_cdata_followed_by_character_event() {
    let mut handler = build_event_handler();
    handler.handle_cdata_event(String::from("cdata event"));
    handler.handle_characters_event(String::from(" character event"));
    assert_string(handler, "<![CDATA[cdata event]]> character event")
}

#[test]
fn builds_string_with_multiple_character_and_cdata_events() {
    let mut handler = build_event_handler();
    handler.handle_characters_event(String::from("character event 1 "));
    handler.handle_cdata_event(String::from("cdata event 1"));
    handler.handle_characters_event(String::from(" character event 2 "));
    handler.handle_cdata_event(String::from("cdata event 2"));
    handler.handle_characters_event(String::from(" "));
    handler.handle_cdata_event(String::from("cdata event 3"));
    handler.handle_characters_event(String::from(" character event 3"));
    assert_string(handler, "character event 1 <![CDATA[cdata event 1]]> character event 2 <![CDATA[cdata event 2]]> <![CDATA[cdata event 3]]> character event 3")
}

#[test]
fn builds_a_string_handler_from_attributes() {
    let attributes = vec![
        Attribute { name: String::from("name"), value: String::from("s") },
        Attribute { name: String::from("translatable"), value: String::from("false") },
    ];
    let handler = StringEventHandler::build(&attributes).unwrap();
    assert_eq!(handler.name, "s");
    assert!(!handler.is_localizable);
    assert!(handler.built_string().is_none());
    assert!(StringEventHandler::build(&[]).is_err());
}

#[test]
fn writes_strings_to_file() {
    let android_strings = vec![
        AndroidString::localizable("localizable_string", "localizable string value"),
        AndroidString::unlocalizable("non_localizable_string", "non localizable string value"),
    ];

    let sink = xml_writer::write(&android_strings).unwrap();
    let written_content = String::from_utf8(sink).unwrap();
    let mut written_lines = written_content.lines();

    assert_eq!(written_lines.next().unwrap(), r##"<?xml version="1.0" encoding="utf-8"?>"##);
    assert_eq!(written_lines.next().unwrap(), r##"<resources>"##);
    assert_eq!(
        written_lines.next().unwrap(),
        r##"    <string name="localizable_string">localizable string value</string>"##
    );
    assert_eq!(
        written_lines.next().unwrap(),
        r##"    <string name="non_localizable_string" translatable="false">non localizable string value</string>"##
    );
    assert_eq!(written_lines.next().unwrap(), r##"</resources>"##);
    assert_eq!(written_lines.next(), None);
}

fn test_cdata_handling(value: &str) {
    let sink = xml_writer::write(&[AndroidString::localizable("s1", value)]).unwrap();
    let written_content = String::from_utf8(sink).unwrap();
    let mut written_lines = written_content.lines();

    written_lines.next().unwrap();
    written_lines.next().unwrap();
    assert_eq!(written_lines.next().unwrap(), format!("    <string name=\"s1\">{}</string>", value));
    written_lines.next().unwrap();
    assert_eq!(written_lines.next(), None);
}

#[test]
fn writes_string_with_one_cdata_event() {
    test_cdata_handling("<![CDATA[this is a test]]>")
}

#[test]
fn writes_string_with_character_followed_by_cdata_event() {
    test_cdata_handling("character event <![CDATA[cdata event]]>")
}

#[test]
fn writes_string_with_cdata_followed_by_character_event() {
    test_cdata_handling("<![CDATA[cdata event]]> character event")
}

#[test]
fn writes_string_with_multiple_character_and_cdata_events() {
    test_cdata_handling("character event 1 <![CDATA[cdata event 1]]> character event 2 <![CDATA[cdata event 2]]> <![CDATA[cdata event 3]]> character event 3")
}

#[test]
fn what_is_written_reads_back() {
    let strings = vec![
        AndroidString::localizable("a", "plain and simple"),
        AndroidString::unlocalizable("b", "with <![CDATA[<b>cdata</b>]]> inside"),
    ];
    let written = xml_writer::write(&strings).unwrap();
    assert_eq!(xml_reader::read(&written).unwrap(), strings);
}

#[test]
fn errors_for_a_value_that_is_not_xml() {
    let error = xml_writer::write(&[AndroidString::localizable("a", "<unclosed>")]).unwrap_err();
    assert!(matches!(error.kind, ErrorKind::XmlRead(_)));
}

#[test]
fn reads_strings_with_the_path_as_context() {
    let read = xml_helper::read_strings(String::from("res/values/strings.xml"), r#"<resources><string name="a">b</string></resources>"#.as_bytes()).unwrap();
    assert_eq!(read.path(), "res/values/strings.xml");
    assert_eq!(read.strings(), &[AndroidString::localizable("a", "b")]);
    let error = xml_helper::read_strings(String::from("p"), b"<resources>").unwrap_err();
    assert_eq!(error.context(), "p");
}

#[test]
fn builds_strings_file_paths() {
    assert_eq!(xml_helper::default_strings_file_path("res"), "res/values/strings.xml");
    assert_eq!(xml_helper::default_strings_file_path("res/"), "res/values/strings.xml");
    assert_eq!(xml_helper::foreign_strings_file_path("res", "fr"), "res/values-fr/strings.xml");
    assert_eq!(xml_helper::join_path("", "values"), "values");
}

#[test]
fn handlers_look_into_resources_and_strings_only() {
    let name = vec![Attribute { name: String::from("name"), value: String::from("s") }];
    assert!(matches!(RootEventHandler::new().build_handler("resources", &[]), Ok(EventHandler::Resources(_))));
    assert!(matches!(RootEventHandler::new().build_handler("string", &name), Ok(EventHandler::Sinking(_))));
    assert!(matches!(ResourcesEventHandler::new().build_handler("string", &name), Ok(EventHandler::Str(_))));
    assert!(matches!(ResourcesEventHandler::new().build_handler("plurals", &name), Ok(EventHandler::Sinking(_))));
    assert!(ResourcesEventHandler::new().build_handler("string", &[]).is_err());
    assert!(matches!(SinkingEventHandler::new().build_handler("resources", &[]), Ok(EventHandler::Sinking(_))));
}

#[test]
fn reads_default_and_foreign_strings_with_their_paths() {
    let content = r#"<resources><string name="a">b</string></resources>"#.as_bytes();
    let default = xml_helper::read_default_strings("res", content).unwrap();
    assert_eq!(default.path(), "res/values/strings.xml");
    let foreign = xml_helper::read_foreign_strings("res", "fr", content).unwrap();
    assert_eq!(foreign.path(), "res/values-fr/strings.xml");
    assert_eq!(foreign.into_strings(), vec![AndroidString::localizable("a", "b")]);
}
