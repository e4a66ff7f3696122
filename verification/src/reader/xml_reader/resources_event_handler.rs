//! Handling the content of a `<resources>` element

use vstd::prelude::*;

use crate::error::{is_message, InnerError};
use crate::names::strs_equal;
use crate::reader::xml_reader::event_handler::{attribute_views, Attribute, EventHandler, HandlerView};
use crate::reader::xml_reader::sinking_event_handler::SinkingEventHandler;
use crate::reader::xml_reader::string_event_handler::{
    marks_unlocalizable, missing_name_message, name_attribute, StringEventHandler, StringEventHandlerView,
};

verus! {

/// Handles the elements inside a `<resources>` element
pub struct ResourcesEventHandler {}

/// The handler for an element inside `<resources>`: one that builds a string for
/// a `<string>` element with a name, none for one without, else one that skips
pub open spec fn resources_child(tag_name: Seq<char>, attributes: Seq<crate::reader::xml_reader::event_handler::AttributeView>) -> Option<HandlerView> {
    if tag_name == "string"@ {
        match name_attribute(attributes) {
            Some(name) => Some(
                HandlerView::Str(
                    StringEventHandlerView { name, is_localizable: !marks_unlocalizable(attributes), built: None },
                ),
            ),
            None => None,
        }
    } else {
        Some(HandlerView::Sinking)
    }
}

impl ResourcesEventHandler {
    pub fn new() -> (r: ResourcesEventHandler) {
        ResourcesEventHandler {}
    }

    /// A `<string>` element gets a handler that builds its string; any other
    /// one is skipped
    pub fn build_handler(&self, tag_name: &str, attributes: &[Attribute]) -> (r: Result<EventHandler, InnerError>)
        ensures
            match r {
                Ok(h) => resources_child(tag_name@, attribute_views(attributes@)) == Some(h@),
                Err(e) => resources_child(tag_name@, attribute_views(attributes@)) is None && is_message(
                    e.kind,
                    missing_name_message(),
                ),
            },
    {
        proof {
            reveal_strlit("string");
        }
        if strs_equal(tag_name, "string") {
            match StringEventHandler::build(attributes) {
                Ok(h) => Ok(EventHandler::Str(h)),
                Err(e) => Err(e),
            }
        } else {
            Ok(EventHandler::Sinking(SinkingEventHandler::new()))
        }
    }
}

} // verus!
