//! The calls this library makes into the `regex`, `csv` & `xml` crates

use vstd::prelude::*;
use xml::reader::XmlEvent as ReadXmlEvent;
use xml::writer::XmlEvent as WriteXmlEvent;

use crate::reader::xml_reader::event_handler::Attribute;
use crate::reader::xml_reader::events_handler::ReadEventView;
use crate::reader::xml_reader::reader::{event_views, ReadEvent};
use crate::writer::xml_writer::{write_event_views, WriteEvent, WriteEventView};
use crate::text::{
    char_count, escaped_apostrophe_count, is_locale_suffix_at, is_mapping_at, texts_of,
};

verus! {

/// Pattern matching an apostrophe
pub open spec fn apostrophe_pattern() -> Seq<char> {
    "(')"@
}

/// Pattern matching an apostrophe escaped by a backslash
pub open spec fn escaped_apostrophe_pattern() -> Seq<char> {
    "(\\\\')"@
}

/// Pattern matching positional format strings like `%1$s` or `%2$d`
pub open spec fn format_string_pattern() -> Seq<char> {
    "(%\\d+\\$[ds])"@
}

/// Pattern matching a mapping like `fr=french`
pub open spec fn mapping_pattern() -> Seq<char> {
    "^([a-zA-Z]+)=([a-zA-Z]+)$"@
}

/// Pattern matching the locale suffix of a values directory like `values-fr`
pub open spec fn locale_suffix_pattern() -> Seq<char> {
    "-([a-zA-z]+)$"@
}

/// What `regex::Regex::new(pattern)` & then `find_iter(text)` give: `None`
/// when the pattern doesn't compile, else the texts of the successive
/// non-overlapping matches
pub uninterp spec fn regex_matches_of(pattern: Seq<char>, text: Seq<char>) -> Option<Seq<Seq<char>>>;

/// Calls `regex::Regex::new` & `Regex::find_iter`. The result is named by
/// `regex_matches_of`. Besides, for the apostrophe patterns the number of
/// matches is the number of (escaped) apostrophes, & the format string pattern
/// compiles: what the `regex` documentation gives for these patterns
#[verifier::external_body]
pub(crate) fn regex_find_all(pattern: &str, text: &str) -> (r: Option<Vec<String>>)
    ensures
        match r {
            Some(v) => regex_matches_of(pattern@, text@) == Some(texts_of(v@)),
            None => regex_matches_of(pattern@, text@) is None,
        },
        pattern@ == apostrophe_pattern() ==> r is Some && r->Some_0@.len() == char_count(text@, '\''),
        pattern@ == escaped_apostrophe_pattern() ==> r is Some && r->Some_0@.len()
            == escaped_apostrophe_count(text@),
        pattern@ == format_string_pattern() ==> r is Some,
{
    match regex::Regex::new(pattern) {
        Ok(re) => Some(re.find_iter(text).map(|m| String::from(m.as_str())).collect()),
        Err(_) => None,
    }
}

/// What `regex::Regex::new(pattern)` & then `captures(text)` give: `None`
/// when the pattern doesn't compile, `Some(None)` when the text doesn't match,
/// else the capture groups (group 0 being the whole match)
pub uninterp spec fn regex_captures_of(pattern: Seq<char>, text: Seq<char>) -> Option<Option<Seq<Option<Seq<char>>>>>;

/// The texts of capture groups
pub open spec fn group_texts(groups: Seq<Option<String>>) -> Seq<Option<Seq<char>>> {
    groups.map_values(|g: Option<String>| match g {
        Some(s) => Some(s@),
        None => None,
    })
}

/// Calls `regex::Regex::new` & `Regex::captures`. The result is named by
/// `regex_captures_of`. Besides, for the mapping & the locale suffix patterns
/// (which are anchored at the end of the text), it says which texts match & what
/// the groups capture, as the `regex` documentation gives for these patterns
#[verifier::external_body]
pub(crate) fn regex_captures(pattern: &str, text: &str) -> (r: Option<Option<Vec<Option<String>>>>)
    ensures
        match r {
            Some(Some(v)) => regex_captures_of(pattern@, text@) == Some(Some(group_texts(v@))),
            Some(None) => regex_captures_of(pattern@, text@) == Some(None::<Seq<Option<Seq<char>>>>),
            None => regex_captures_of(pattern@, text@) is None,
        },
        pattern@ == mapping_pattern() ==> r is Some && (match r->Some_0 {
            Some(v) => exists|k: int| is_mapping_at(text@, k) && #[trigger] group_texts(v@) == seq![
                Some(text@),
                Some(text@.take(k)),
                Some(text@.skip(k + 1)),
            ],
            None => forall|k: int| !is_mapping_at(text@, k),
        }),
        pattern@ == locale_suffix_pattern() ==> r is Some && (match r->Some_0 {
            Some(v) => exists|k: int| is_locale_suffix_at(text@, k) && #[trigger] group_texts(v@) == seq![
                Some(text@.skip(k)),
                Some(text@.skip(k + 1)),
            ],
            None => forall|k: int| !is_locale_suffix_at(text@, k),
        }),
{
    match regex::Regex::new(pattern) {
        Err(_) => None,
        Ok(re) => match re.captures(text) {
            None => Some(None),
            Some(c) => Some(Some(c.iter().map(|m| m.map(|m| String::from(m.as_str()))).collect())),
        },
    }
}

/// The error that writing formatted text reports (std's `fmt::Error`)
#[verifier::external_type_specification]
#[verifier::external_body]
pub struct ExFmtError(std::fmt::Error);

/// The error the `csv` crate reports
#[verifier::external_type_specification]
#[verifier::external_body]
pub struct ExCsvError(csv::Error);

/// The error the `xml` crate reports when reading
#[verifier::external_type_specification]
#[verifier::external_body]
pub struct ExXmlReadError(xml::reader::Error);

/// The error the `xml` crate reports when writing
#[verifier::external_type_specification]
#[verifier::external_body]
pub struct ExXmlWriteError(xml::writer::Error);

/// An I/O error (std's `io::Error`)
#[verifier::external_type_specification]
#[verifier::external_body]
pub struct ExIoError(std::io::Error);

/// Calls `Display::fmt` of `csv::Error`; nothing is stated of the text
#[verifier::external_body]
pub(crate) fn csv_error_text(error: &csv::Error) -> String {
    format!("{}", error)
}

/// Calls `Display::fmt` of `xml::reader::Error`; nothing is stated of the text
#[verifier::external_body]
pub(crate) fn xml_read_error_text(error: &xml::reader::Error) -> String {
    format!("{}", error)
}

/// Calls `Display::fmt` of `xml::writer::Error`; nothing is stated of the text
#[verifier::external_body]
pub(crate) fn xml_write_error_text(error: &xml::writer::Error) -> String {
    format!("{}", error)
}

/// Calls `Display::fmt` of `std::io::Error`; nothing is stated of the text
#[verifier::external_body]
pub(crate) fn io_error_text(error: &std::io::Error) -> String {
    format!("{}", error)
}

/// What reading a document with `xml::reader::EventReader` (default
/// `ParserConfig`) gives: its events up to the end of the document or up to
/// the first error, & whether there is such an error
pub uninterp spec fn xml_events_of(content: Seq<u8>) -> (Seq<ReadEventView>, bool);

/// Calls `xml::ParserConfig::create_reader` & iterates over the events: the
/// result is named by `xml_events_of`
#[verifier::external_body]
pub(crate) fn xml_read_events(content: &[u8]) -> (r: (Vec<ReadEvent>, Option<xml::reader::Error>))
    ensures
        xml_events_of(content@) == (event_views(r.0@), r.1 is Some),
{
    let mut events = Vec::new();
    for event in xml::ParserConfig::new().create_reader(content) {
        events.push(match event {
            Err(error) => return (events, Some(error)),
            Ok(ReadXmlEvent::StartElement { name, attributes, .. }) => ReadEvent::StartElement {
                name: name.local_name,
                attributes: attributes.into_iter().map(|a| Attribute { name: a.name.local_name, value: a.value }).collect(),
            },
            Ok(ReadXmlEvent::EndElement { .. }) => ReadEvent::EndElement,
            Ok(ReadXmlEvent::Characters(text)) => ReadEvent::Characters(text),
            Ok(ReadXmlEvent::CData(text)) => ReadEvent::CData(text),
            Ok(_) => ReadEvent::Other,
        });
    }
    (events, None)
}

/// What `xml::writer::EventWriter` (with `perform_indent` on, the given indent
/// string & with or without the document declaration) writes for the given
/// events: `None` when it reports an error
pub uninterp spec fn xml_emitted_of(events: Seq<WriteEventView>, indent: Seq<char>, declaration: bool) -> Option<Seq<u8>>;

/// Calls `xml::EmitterConfig::create_writer` & `EventWriter::write` for each
/// event: the bytes written are named by `xml_emitted_of`
#[verifier::external_body]
pub(crate) fn xml_emit(events: &[WriteEvent], indent: &str, declaration: bool) -> (r: Result<Vec<u8>, xml::writer::Error>)
    ensures
        match r {
            Ok(bytes) => xml_emitted_of(write_event_views(events@), indent@, declaration) == Some(bytes@),
            Err(_) => xml_emitted_of(write_event_views(events@), indent@, declaration) is None,
        },
{
    let config = xml::EmitterConfig::new().perform_indent(true).indent_string(indent.to_string());
    let mut writer = config.write_document_declaration(declaration).create_writer(Vec::new());
    for event in events {
        writer.write(match event {
            WriteEvent::StartElement { name, attributes } => attributes.iter().fold(
                WriteXmlEvent::start_element(name.as_str()), |e, a| e.attr(a.name.as_str(), a.value.as_str())).into(),
            WriteEvent::EndElement => WriteXmlEvent::end_element().into(),
            WriteEvent::Characters(text) => WriteXmlEvent::characters(text),
            WriteEvent::CData(text) => WriteXmlEvent::cdata(text),
        })?;
    }
    Ok(writer.into_inner())
}

/// The texts of the fields of each row
pub open spec fn row_texts(rows: Seq<Vec<String>>) -> Seq<Seq<Seq<char>>> {
    rows.map_values(|row: Vec<String>| texts_of(row@))
}

/// What reading CSV content with a `csv::Reader` (with headers, not flexible,
/// trimming all fields) gives: the header row followed by the records, up to the
/// first error, & whether there is such an error
pub uninterp spec fn csv_rows_of(content: Seq<u8>) -> (Seq<Seq<Seq<char>>>, bool);

/// Calls `csv::ReaderBuilder::from_reader`, `Reader::headers` & iterates over
/// `Reader::records`: the result is named by `csv_rows_of`. When there are no
/// rows, reading the headers failed
#[verifier::external_body]
pub(crate) fn csv_read_rows(content: &[u8]) -> (r: (Vec<Vec<String>>, Option<csv::Error>))
    ensures
        csv_rows_of(content@) == (row_texts(r.0@), r.1 is Some),
        r.0@.len() == 0 ==> r.1 is Some,
{
    let mut builder = csv::ReaderBuilder::new();
    let mut reader = builder.has_headers(true).flexible(false).trim(csv::Trim::All).from_reader(content);
    let mut rows = Vec::new();
    match reader.headers() {
        Ok(header) => rows.push(header.iter().map(String::from).collect()),
        Err(error) => return (rows, Some(error)),
    }
    for record in reader.records() {
        match record {
            Ok(record) => rows.push(record.iter().map(String::from).collect()),
            Err(error) => return (rows, Some(error)),
        }
    }
    (rows, None)
}

/// What a `csv::Writer` (default configuration) writes for the given rows:
/// `None` when it reports an error
pub uninterp spec fn csv_written_of(rows: Seq<Seq<Seq<char>>>) -> Option<Seq<u8>>;

/// Calls `csv::Writer::from_writer`, `Writer::write_record` for each row &
/// `Writer::into_inner`: the bytes written are named by `csv_written_of`
#[verifier::external_body]
pub(crate) fn csv_write_rows(rows: &[Vec<String>]) -> (r: Result<Vec<u8>, csv::Error>)
    ensures
        match r {
            Ok(bytes) => csv_written_of(row_texts(rows@)) == Some(bytes@),
            Err(_) => csv_written_of(row_texts(rows@)) is None,
        },
{
    let mut writer = csv::Writer::from_writer(Vec::new());
    for row in rows {
        writer.write_record(row)?;
    }
    writer.into_inner().map_err(|error| csv::Error::from(error.into_error()))
}

} // verus!
