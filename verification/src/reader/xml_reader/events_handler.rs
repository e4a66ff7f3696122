//! Handling the events of a document with a stack of element handlers

use vstd::prelude::*;

use crate::android_string::{views_of, AndroidString, AndroidStringView};
use crate::error::{is_message, InnerError};
use crate::reader::xml_reader::event_handler::{
    attribute_views, built_of, child_handler, with_text, Attribute, AttributeView, EventHandler, HandlerView,
};
use crate::reader::xml_reader::root_event_handler::RootEventHandler;
use crate::reader::xml_reader::string_event_handler::{cdata_text, missing_name_message};

verus! {

/// One event met while reading a document, as far as reading strings cares
pub enum ReadEventView {
    StartElement { name: Seq<char>, attributes: Seq<AttributeView> },
    EndElement,
    Characters(Seq<char>),
    CData(Seq<char>),
    Other,
}

/// Where reading stands: the handlers of the open elements (the innermost last)
/// & the strings built so far
pub struct ReaderState {
    pub handlers: Seq<HandlerView>,
    pub strings: Seq<AndroidStringView>,
}

/// Before any event: the top level is open & no string was built
pub open spec fn initial_state() -> ReaderState {
    ReaderState { handlers: seq![HandlerView::Root], strings: Seq::empty() }
}

/// Where reading stands after one more event, if it can go on: an element
/// gets the handler its parent's handler builds (& reading stops where there is
/// none); texts go to the innermost handler; a closed element's string, if
/// it built one, is kept. Nothing happens once no element is open
pub open spec fn next_state(state: ReaderState, event: ReadEventView) -> Option<ReaderState> {
    if state.handlers.len() == 0 {
        Some(state)
    } else {
        let last = state.handlers.last();
        match event {
            ReadEventView::StartElement { name, attributes } => match child_handler(last, name, attributes) {
                Some(h) => Some(ReaderState { handlers: state.handlers.push(h), strings: state.strings }),
                None => None,
            },
            ReadEventView::EndElement => Some(
                ReaderState {
                    handlers: state.handlers.drop_last(),
                    strings: match built_of(last) {
                        Some(s) => state.strings.push(s),
                        None => state.strings,
                    },
                },
            ),
            ReadEventView::Characters(text) => Some(
                ReaderState {
                    handlers: state.handlers.update(state.handlers.len() - 1, with_text(last, text)),
                    strings: state.strings,
                },
            ),
            ReadEventView::CData(text) => Some(
                ReaderState {
                    handlers: state.handlers.update(state.handlers.len() - 1, with_text(last, cdata_text(text))),
                    strings: state.strings,
                },
            ),
            ReadEventView::Other => Some(state),
        }
    }
}

/// Handles the events of a document
pub struct EventsHandler {
    android_strings: Vec<AndroidString>,
    event_handlers: Vec<EventHandler>,
}

/// What the handlers of a stack are
pub open spec fn handler_views(handlers: Seq<EventHandler>) -> Seq<HandlerView> {
    handlers.map_values(|h: EventHandler| h@)
}

impl View for EventsHandler {
    type V = ReaderState;

    closed spec fn view(&self) -> ReaderState {
        ReaderState { handlers: handler_views(self.event_handlers@), strings: views_of(self.android_strings@) }
    }
}

impl EventsHandler {
    pub fn new() -> (r: EventsHandler)
        ensures
            r@ == initial_state(),
    {
        let r = EventsHandler { android_strings: Vec::new(), event_handlers: vec![EventHandler::Root(RootEventHandler::new())] };
        assert(r@.handlers =~= initial_state().handlers);
        assert(r@.strings =~= initial_state().strings);
        r
    }

    /// Whether any element is open
    pub fn has_handlers(&self) -> (r: bool)
        ensures
            r == (self@.handlers.len() > 0),
    {
        self.event_handlers.len() > 0
    }

    /// An element starts: it gets the handler the innermost handler builds for it
    pub fn handle_start_element_event(&mut self, tag_name: &str, attributes: &[Attribute]) -> (r: Result<(), InnerError>)
        requires
            old(self)@.handlers.len() > 0,
        ensures
            match r {
                Ok(()) => next_state(
                    old(self)@,
                    ReadEventView::StartElement { name: tag_name@, attributes: attribute_views(attributes@) },
                ) == Some(final(self)@),
                Err(e) => next_state(
                    old(self)@,
                    ReadEventView::StartElement { name: tag_name@, attributes: attribute_views(attributes@) },
                ) is None && is_message(e.kind, missing_name_message()),
            },
    {
        let n = self.event_handlers.len();
        let handler = self.event_handlers[n - 1].build_handler(tag_name, attributes);
        match handler {
            Ok(h) => {
                let ghost before = self.event_handlers@;
                self.event_handlers.push(h);
                assert(handler_views(self.event_handlers@) =~= handler_views(before).push(h@));
                Ok(())
            },
            Err(e) => Err(e),
        }
    }

    /// Characters go to the innermost handler
    pub fn handle_characters_event(&mut self, text: String)
        requires
            old(self)@.handlers.len() > 0,
        ensures
            next_state(old(self)@, ReadEventView::Characters(text@)) == Some(final(self)@),
    {
        let n = self.event_handlers.len();
        let ghost before = self.event_handlers@;
        let mut handler = self.event_handlers.pop().unwrap();
        handler.handle_characters_event(text);
        self.event_handlers.push(handler);
        assert(handler_views(self.event_handlers@) =~= handler_views(before).update(n - 1, handler@));
    }

    /// A CDATA section goes to the innermost handler
    pub fn handle_cdata_event(&mut self, text: String)
        requires
            old(self)@.handlers.len() > 0,
        ensures
            next_state(old(self)@, ReadEventView::CData(text@)) == Some(final(self)@),
    {
        let n = self.event_handlers.len();
        let ghost before = self.event_handlers@;
        let mut handler = self.event_handlers.pop().unwrap();
        handler.handle_cdata_event(text);
        self.event_handlers.push(handler);
        assert(handler_views(self.event_handlers@) =~= handler_views(before).update(n - 1, handler@));
    }

    /// The innermost element ends: the string its handler built, if any, is kept
    pub fn handle_end_element_event(&mut self)
        ensures
            next_state(old(self)@, ReadEventView::EndElement) == Some(final(self)@),
    {
        let ghost before = self.event_handlers@;
        if let Some(event_handler) = self.event_handlers.pop() {
            assert(handler_views(self.event_handlers@) =~= handler_views(before).drop_last());
            if let Some(android_string) = event_handler.built_string() {
                let ghost strings_before = self.android_strings@;
                self.android_strings.push(android_string);
                assert(views_of(self.android_strings@) =~= views_of(strings_before).push(android_string@));
            }
        }
    }

    /// The strings built
    pub fn strings(self) -> (r: Vec<AndroidString>)
        ensures
            views_of(r@) == self@.strings,
    {
        self.android_strings
    }
}

} // verus!
