//! Reading the strings of a document

use vstd::prelude::*;

use crate::android_string::{views_of, AndroidString, AndroidStringView};
use crate::error::{is_message, ErrorKind, InnerError};
use crate::external::{xml_events_of, xml_read_events};
use crate::reader::xml_reader::event_handler::{attribute_views, Attribute};
use crate::reader::xml_reader::events_handler::{initial_state, next_state, EventsHandler, ReadEventView, ReaderState};
use crate::reader::xml_reader::string_event_handler::missing_name_message;

verus! {

/// One event met while reading a document, as far as reading strings cares
pub enum ReadEvent {
    StartElement { name: String, attributes: Vec<Attribute> },
    EndElement,
    Characters(String),
    CData(String),
    Other,
}

impl View for ReadEvent {
    type V = ReadEventView;

    open spec fn view(&self) -> ReadEventView {
        match self {
            ReadEvent::StartElement { name, attributes } => ReadEventView::StartElement {
                name: name@,
                attributes: attribute_views(attributes@),
            },
            ReadEvent::EndElement => ReadEventView::EndElement,
            ReadEvent::Characters(text) => ReadEventView::Characters(text@),
            ReadEvent::CData(text) => ReadEventView::CData(text@),
            ReadEvent::Other => ReadEventView::Other,
        }
    }
}

/// What each event of a list is
pub open spec fn event_views(events: Seq<ReadEvent>) -> Seq<ReadEventView> {
    events.map_values(|e: ReadEvent| e@)
}

/// Where reading stands after the given events, if it could go on
pub open spec fn run_events(events: Seq<ReadEventView>) -> Option<ReaderState>
    decreases events.len(),
{
    if events.len() == 0 {
        Some(initial_state())
    } else {
        match run_events(events.drop_last()) {
            Some(state) => next_state(state, events.last()),
            None => None,
        }
    }
}

/// Once reading stopped, more events don't make it go on
pub proof fn lemma_stopped_reading_stays_stopped(events: Seq<ReadEventView>, k: int)
    requires
        0 <= k <= events.len(),
        run_events(events.take(k)) is None,
    ensures
        run_events(events) is None,
    decreases events.len() - k,
{
    if k < events.len() {
        assert(events.take(k + 1).drop_last() =~= events.take(k));
        lemma_stopped_reading_stays_stopped(events, k + 1);
    } else {
        assert(events.take(k) =~= events);
    }
}

/// The strings read out of a document, if reading succeeds
pub open spec fn strings_read(content: Seq<u8>) -> Option<Seq<AndroidStringView>> {
    let (events, malformed) = xml_events_of(content);
    match run_events(events) {
        Some(state) => if malformed {
            None
        } else {
            Some(state.strings)
        },
        None => None,
    }
}

/// Reads the strings out of a document: those of the `<string>` elements right
/// inside a top level `<resources>` element, in order, each with the value of
/// its last `name` attribute, localizable unless it says `translatable="false"`
/// & with its characters & CDATA sections (kept as such) for value. Fails on a
/// `<string>` element there without a name, & where the document isn't well formed
pub fn read(content: &[u8]) -> (r: Result<Vec<AndroidString>, InnerError>)
    ensures
        ({
            let (events, malformed) = xml_events_of(content@);
            match r {
                Ok(strings) => !malformed && (run_events(events) matches Some(state) && views_of(strings@)
                    == state.strings),
                Err(e) => run_events(events) is None && is_message(e.kind, missing_name_message())
                    || run_events(events) is Some && malformed && e.kind is XmlRead,
            }
        }),
        match r {
            Ok(strings) => strings_read(content@) == Some(views_of(strings@)),
            Err(_) => strings_read(content@) is None,
        },
{
    let (events, error) = xml_read_events(content);
    let ghost views = event_views(events@);
    let mut events_handler = EventsHandler::new();
    let mut k: usize = 0;
    assert(views.take(0) =~= Seq::<ReadEventView>::empty());
    while k < events.len()
        invariant
            k <= events@.len(),
            views == event_views(events@),
            xml_events_of(content@) == (views, error is Some),
            run_events(views.take(k as int)) == Some(events_handler@),
        decreases events@.len() - k,
    {
        proof {
            assert(views.take(k + 1).drop_last() =~= views.take(k as int));
            assert(views.take(k + 1).last() == events@[k as int]@);
        }
        let ghost state = events_handler@;
        if events_handler.has_handlers() {
            match &events[k] {
                ReadEvent::StartElement { name, attributes } => {
                    let handled = events_handler.handle_start_element_event(name.as_str(), attributes.as_slice());
                    if let Err(e) = handled {
                        proof {
                            assert(views[k as int] == ReadEventView::StartElement {
                                name: name@,
                                attributes: attribute_views(attributes@),
                            });
                            assert(run_events(views.take(k + 1)) == next_state(state, views[k as int]));
                            lemma_stopped_reading_stays_stopped(views, k + 1);
                        }
                        return Err(e);
                    }
                },
                ReadEvent::EndElement => events_handler.handle_end_element_event(),
                ReadEvent::Characters(text) => events_handler.handle_characters_event(text.clone()),
                ReadEvent::CData(text) => events_handler.handle_cdata_event(text.clone()),
                ReadEvent::Other => {},
            }
        }
        k = k + 1;
    }
    assert(views.take(k as int) =~= views);
    match error {
        Some(e) => Err(InnerError::from_xml_read(e)),
        None => Ok(events_handler.strings()),
    }
}

} // verus!
