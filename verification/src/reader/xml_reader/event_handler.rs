//! The handlers of the elements met while reading a document: each element
//! gets the handler that its parent's handler builds for it

use vstd::prelude::*;

use crate::android_string::{AndroidString, AndroidStringView};
use crate::error::{is_message, InnerError};
use crate::reader::xml_reader::resources_event_handler::{resources_child, ResourcesEventHandler};
use crate::reader::xml_reader::root_event_handler::RootEventHandler;
use crate::reader::xml_reader::sinking_event_handler::SinkingEventHandler;
use crate::reader::xml_reader::string_event_handler::{
    cdata_text, missing_name_message, with_appended, StringEventHandler, StringEventHandlerView,
};

verus! {

/// An attribute of an element: its local name & its value
pub struct Attribute {
    pub name: String,
    pub value: String,
}

/// What an `Attribute` holds
pub struct AttributeView {
    pub name: Seq<char>,
    pub value: Seq<char>,
}

impl View for Attribute {
    type V = AttributeView;

    open spec fn view(&self) -> AttributeView {
        AttributeView { name: self.name@, value: self.value@ }
    }
}

/// What each attribute of a list holds
pub open spec fn attribute_views(attributes: Seq<Attribute>) -> Seq<AttributeView> {
    attributes.map_values(|a: Attribute| a@)
}

/// One handler per element that is open at the moment
pub enum EventHandler {
    Root(RootEventHandler),
    Resources(ResourcesEventHandler),
    Sinking(SinkingEventHandler),
    Str(StringEventHandler),
}

/// What kind of handler an `EventHandler` is (& what a string handler built)
pub enum HandlerView {
    Root,
    Resources,
    Sinking,
    Str(StringEventHandlerView),
}

impl View for EventHandler {
    type V = HandlerView;

    open spec fn view(&self) -> HandlerView {
        match self {
            EventHandler::Root(_) => HandlerView::Root,
            EventHandler::Resources(_) => HandlerView::Resources,
            EventHandler::Sinking(_) => HandlerView::Sinking,
            EventHandler::Str(h) => HandlerView::Str(h@),
        }
    }
}

/// The handler an element gets inside an element handled by `parent`: at the
/// top level, `<resources>` is looked into; inside it, `<string>` builds a
/// string (& must have a name: else there is no handler but an error); all
/// else is skipped
pub open spec fn child_handler(parent: HandlerView, tag_name: Seq<char>, attributes: Seq<AttributeView>) -> Option<HandlerView> {
    match parent {
        HandlerView::Root => if tag_name == "resources"@ {
            Some(HandlerView::Resources)
        } else {
            Some(HandlerView::Sinking)
        },
        HandlerView::Resources => resources_child(tag_name, attributes),
        _ => Some(HandlerView::Sinking),
    }
}

/// The handler after text was met: only a string handler keeps it
pub open spec fn with_text(handler: HandlerView, text: Seq<char>) -> HandlerView {
    match handler {
        HandlerView::Str(h) => HandlerView::Str(with_appended(h, text)),
        _ => handler,
    }
}

/// The string a handler built, if any
pub open spec fn built_of(handler: HandlerView) -> Option<AndroidStringView> {
    match handler {
        HandlerView::Str(h) => h.built,
        _ => None,
    }
}

impl EventHandler {
    /// The handler for an element inside the one this handler handles
    pub fn build_handler(&self, tag_name: &str, attributes: &[Attribute]) -> (r: Result<EventHandler, InnerError>)
        ensures
            match r {
                Ok(h) => child_handler(self@, tag_name@, attribute_views(attributes@)) == Some(h@),
                Err(e) => child_handler(self@, tag_name@, attribute_views(attributes@)) is None && is_message(
                    e.kind,
                    missing_name_message(),
                ),
            },
    {
        match self {
            EventHandler::Root(h) => h.build_handler(tag_name, attributes),
            EventHandler::Resources(h) => h.build_handler(tag_name, attributes),
            EventHandler::Sinking(h) => h.build_handler(tag_name, attributes),
            EventHandler::Str(h) => h.build_handler(tag_name, attributes),
        }
    }

    /// Characters met inside the element
    pub fn handle_characters_event(&mut self, text: String)
        ensures
            final(self)@ == with_text(old(self)@, text@),
    {
        match self {
            EventHandler::Str(h) => h.handle_characters_event(text),
            _ => {},
        }
    }

    /// A CDATA section met inside the element
    pub fn handle_cdata_event(&mut self, text: String)
        ensures
            final(self)@ == with_text(old(self)@, cdata_text(text@)),
    {
        match self {
            EventHandler::Str(h) => h.handle_cdata_event(text),
            _ => {},
        }
    }

    /// The string built, if any
    pub fn built_string(&self) -> (r: Option<AndroidString>)
        ensures
            match r {
                Some(s) => built_of(self@) == Some(s@),
                None => built_of(self@) is None,
            },
    {
        match self {
            EventHandler::Str(h) => h.built_string(),
            _ => None,
        }
    }
}

} // verus!
