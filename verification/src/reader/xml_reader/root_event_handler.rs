//! Handling the top level of a document

use vstd::prelude::*;

use crate::error::InnerError;
use crate::names::strs_equal;
use crate::reader::xml_reader::event_handler::{Attribute, EventHandler, HandlerView};
use crate::reader::xml_reader::resources_event_handler::ResourcesEventHandler;
use crate::reader::xml_reader::sinking_event_handler::SinkingEventHandler;

verus! {

/// Handles the elements at the top level of a document
pub struct RootEventHandler {}

impl RootEventHandler {
    pub fn new() -> (r: RootEventHandler) {
        RootEventHandler {}
    }

    /// A `<resources>` element is looked into; any other one is skipped
    pub fn build_handler(&self, tag_name: &str, _attributes: &[Attribute]) -> (r: Result<EventHandler, InnerError>)
        ensures
            r matches Ok(h) && h@ == (if tag_name@ == "resources"@ {
                HandlerView::Resources
            } else {
                HandlerView::Sinking
            }),
    {
        proof {
            reveal_strlit("resources");
        }
        if strs_equal(tag_name, "resources") {
            Ok(EventHandler::Resources(ResourcesEventHandler::new()))
        } else {
            Ok(EventHandler::Sinking(SinkingEventHandler::new()))
        }
    }
}

} // verus!
