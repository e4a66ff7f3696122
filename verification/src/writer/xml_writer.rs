//! Writing strings out as an Android `strings.xml` document

use vstd::prelude::*;
use vstd::utf8::encode_utf8;

use crate::android_string::{AndroidString, AndroidStringView};
use crate::error::{ErrorKind, InnerError};
use crate::external::{xml_emit, xml_emitted_of, xml_events_of, xml_read_events};
use crate::reader::xml_reader::event_handler::{attribute_views, Attribute, AttributeView};
use crate::reader::xml_reader::events_handler::ReadEventView;
use crate::reader::xml_reader::reader::{event_views, ReadEvent};

verus! {

/// One event of a document being written
pub enum WriteEvent {
    StartElement { name: String, attributes: Vec<Attribute> },
    EndElement,
    Characters(String),
    CData(String),
}

/// What a `WriteEvent` is
pub enum WriteEventView {
    StartElement { name: Seq<char>, attributes: Seq<AttributeView> },
    EndElement,
    Characters(Seq<char>),
    CData(Seq<char>),
}

impl View for WriteEvent {
    type V = WriteEventView;

    open spec fn view(&self) -> WriteEventView {
        match self {
            WriteEvent::StartElement { name, attributes } => WriteEventView::StartElement {
                name: name@,
                attributes: attribute_views(attributes@),
            },
            WriteEvent::EndElement => WriteEventView::EndElement,
            WriteEvent::Characters(text) => WriteEventView::Characters(text@),
            WriteEvent::CData(text) => WriteEventView::CData(text@),
        }
    }
}

/// What each event of a list is
pub open spec fn write_event_views(events: Seq<WriteEvent>) -> Seq<WriteEventView> {
    events.map_values(|e: WriteEvent| e@)
}

/// The characters & CDATA sections among events read, in order
pub open spec fn text_events_of(events: Seq<ReadEventView>) -> Seq<WriteEventView>
    decreases events.len(),
{
    if events.len() == 0 {
        Seq::empty()
    } else {
        let rest = text_events_of(events.drop_last());
        match events.last() {
            ReadEventView::Characters(text) => rest.push(WriteEventView::Characters(text)),
            ReadEventView::CData(text) => rest.push(WriteEventView::CData(text)),
            _ => rest,
        }
    }
}

/// The events that write a string's value: its characters & CDATA sections as
/// read out of the value wrapped in an element, if it reads well
pub open spec fn value_events(value: Seq<char>) -> Option<Seq<WriteEventView>> {
    let (events, malformed) = xml_events_of(encode_utf8("<a>"@ + value + "</a>"@));
    if malformed {
        None
    } else {
        Some(text_events_of(events))
    }
}

/// The attributes of a `<string>` element: its name &, for a string not to
/// be localized, `translatable="false"`
pub open spec fn string_attributes(string: AndroidStringView) -> Seq<AttributeView> {
    seq![AttributeView { name: "name"@, value: string.name }] + if string.is_localizable {
        Seq::empty()
    } else {
        seq![AttributeView { name: "translatable"@, value: "false"@ }]
    }
}

/// The events that write strings as `<string>` elements, if all values read well
pub open spec fn strings_events(strings: Seq<AndroidString>) -> Option<Seq<WriteEventView>>
    decreases strings.len(),
{
    if strings.len() == 0 {
        Some(Seq::empty())
    } else {
        match (strings_events(strings.drop_last()), value_events(strings.last()@.value)) {
            (Some(rest), Some(value)) => Some(
                rest + seq![
                    WriteEventView::StartElement {
                        name: "string"@,
                        attributes: string_attributes(strings.last()@),
                    },
                ] + value + seq![WriteEventView::EndElement],
            ),
            _ => None,
        }
    }
}

/// The events of a whole document: the strings inside a `<resources>` element
pub open spec fn document_events(strings: Seq<AndroidString>) -> Option<Seq<WriteEventView>> {
    match strings_events(strings) {
        Some(events) => Some(
            seq![WriteEventView::StartElement { name: "resources"@, attributes: Seq::empty() }] + events + seq![
                WriteEventView::EndElement,
            ],
        ),
        None => None,
    }
}

/// Adds the events that write a string's value: its characters & CDATA
/// sections, as read out of the value wrapped in an element
pub fn write_string(events: &mut Vec<WriteEvent>, value: &str) -> (r: Result<(), InnerError>)
    ensures
        match r {
            Ok(()) => value_events(value@) matches Some(v) && write_event_views(final(events)@)
                == write_event_views(old(events)@) + v,
            Err(e) => value_events(value@) is None && e.kind is XmlRead,
        },
{
    proof {
        reveal_strlit("<a>");
        reveal_strlit("</a>");
    }
    let mut wrapped = String::from_str("<a>");
    wrapped.append(value);
    wrapped.append("</a>");
    let bytes = wrapped.as_str().as_bytes();
    assert(bytes@ == encode_utf8("<a>"@ + value@ + "</a>"@));
    let (read_events, error) = xml_read_events(bytes);
    if let Some(e) = error {
        return Err(InnerError::from_xml_read(e));
    }
    let ghost read = event_views(read_events@);
    let ghost start = write_event_views(events@);
    let mut k: usize = 0;
    assert(read.take(0) =~= Seq::<ReadEventView>::empty());
    while k < read_events.len()
        invariant
            k <= read_events@.len(),
            read == event_views(read_events@),
            write_event_views(events@) == start + text_events_of(read.take(k as int)),
        decreases read_events@.len() - k,
    {
        proof {
            assert(read.take(k + 1).drop_last() =~= read.take(k as int));
            assert(read.take(k + 1).last() == read_events@[k as int]@);
        }
        let ghost before = events@;
        match &read_events[k] {
            ReadEvent::Characters(text) => {
                events.push(WriteEvent::Characters(text.clone()));
                assert(write_event_views(events@) =~= write_event_views(before).push(WriteEventView::Characters(text@)));
            },
            ReadEvent::CData(text) => {
                events.push(WriteEvent::CData(text.clone()));
                assert(write_event_views(events@) =~= write_event_views(before).push(WriteEventView::CData(text@)));
            },
            _ => {},
        }
        k = k + 1;
    }
    assert(read.take(k as int) =~= read);
    Ok(())
}

/// Writes strings out as a `strings.xml` document (indented by four spaces &
/// with an XML declaration): each string as a `<string>` element inside a
/// `<resources>` element
pub fn write(android_strings: &[AndroidString]) -> (r: Result<Vec<u8>, InnerError>)
    ensures
        match r {
            Ok(bytes) => document_events(android_strings@) matches Some(events) && xml_emitted_of(events, "    "@, true)
                == Some(bytes@),
            Err(e) => document_events(android_strings@) is None && e.kind is XmlRead || (document_events(
                android_strings@,
            ) matches Some(events) && xml_emitted_of(events, "    "@, true) is None && e.kind is XmlWrite),
        },
{
    proof {
        reveal_strlit("resources");
        reveal_strlit("string");
        reveal_strlit("name");
        reveal_strlit("translatable");
        reveal_strlit("false");
    }
    let mut events: Vec<WriteEvent> = Vec::new();
    let no_attributes: Vec<Attribute> = Vec::new();
    assert(attribute_views(no_attributes@) =~= Seq::<AttributeView>::empty());
    events.push(WriteEvent::StartElement { name: String::from_str("resources"), attributes: no_attributes });
    let ghost start = write_event_views(events@);
    assert(start =~= seq![WriteEventView::StartElement { name: "resources"@, attributes: Seq::empty() }]);
    let mut i: usize = 0;
    assert(android_strings@.take(0) =~= Seq::<AndroidString>::empty());
    while i < android_strings.len()
        invariant
            i <= android_strings@.len(),
            start == seq![WriteEventView::StartElement { name: "resources"@, attributes: Seq::<AttributeView>::empty() }],
            strings_events(android_strings@.take(i as int)) matches Some(written) && write_event_views(events@)
                == start + written,
        decreases android_strings@.len() - i,
    {
        let ghost before = write_event_views(events@);
        let ghost written = strings_events(android_strings@.take(i as int))->Some_0;
        proof {
            assert(android_strings@.take(i + 1).drop_last() =~= android_strings@.take(i as int));
            assert(android_strings@.take(i + 1).last() == android_strings@[i as int]);
        }
        let android_string = &android_strings[i];
        let mut attributes: Vec<Attribute> = Vec::new();
        attributes.push(Attribute { name: String::from_str("name"), value: String::from_str(android_string.name()) });
        if !android_string.is_localizable() {
            attributes.push(Attribute { name: String::from_str("translatable"), value: String::from_str("false") });
        }
        assert(attribute_views(attributes@) =~= string_attributes(android_string@));
        let ghost string_start = WriteEventView::StartElement {
            name: "string"@,
            attributes: string_attributes(android_string@),
        };
        events.push(WriteEvent::StartElement { name: String::from_str("string"), attributes });
        assert(write_event_views(events@) =~= before.push(string_start));
        let written_value = write_string(&mut events, android_string.value());
        if let Err(e) = written_value {
            proof {
                lemma_unwritable_stays_unwritable(android_strings@, i + 1);
            }
            return Err(e);
        }
        let ghost after_value = write_event_views(events@);
        events.push(WriteEvent::EndElement);
        proof {
            let value = value_events(android_string@.value)->Some_0;
            assert(write_event_views(events@) =~= after_value.push(WriteEventView::EndElement));
            assert(after_value =~= before.push(string_start) + value);
            assert(write_event_views(events@) =~= start + (written + seq![string_start] + value + seq![
                WriteEventView::EndElement,
            ]));
        }
        i = i + 1;
    }
    assert(android_strings@.take(i as int) =~= android_strings@);
    let ghost before_end = write_event_views(events@);
    events.push(WriteEvent::EndElement);
    assert(write_event_views(events@) =~= before_end.push(WriteEventView::EndElement));
    assert(document_events(android_strings@) == Some(write_event_views(events@)));
    proof {
        reveal_strlit("    ");
    }
    match xml_emit(events.as_slice(), "    ", true) {
        Ok(bytes) => Ok(bytes),
        Err(e) => Err(InnerError::from_xml_write(e)),
    }
}

/// Once a value doesn't read well, no more strings make the document writable
proof fn lemma_unwritable_stays_unwritable(strings: Seq<AndroidString>, k: int)
    requires
        0 <= k <= strings.len(),
        strings_events(strings.take(k)) is None,
    ensures
        strings_events(strings) is None,
    decreases strings.len() - k,
{
    if k < strings.len() {
        assert(strings.take(k + 1).drop_last() =~= strings.take(k));
        lemma_unwritable_stays_unwritable(strings, k + 1);
    } else {
        assert(strings.take(k) =~= strings);
    }
}

} // verus!
