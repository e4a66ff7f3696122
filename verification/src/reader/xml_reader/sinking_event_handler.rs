//! Skipping an element along with all it holds

use vstd::prelude::*;

use crate::error::InnerError;
use crate::reader::xml_reader::event_handler::{Attribute, EventHandler, HandlerView};

verus! {

/// Handles an element whose content is of no interest
pub struct SinkingEventHandler {}

impl SinkingEventHandler {
    pub fn new() -> (r: SinkingEventHandler) {
        SinkingEventHandler {}
    }

    /// Elements inside a skipped element are skipped too
    pub fn build_handler(&self, _tag_name: &str, _attributes: &[Attribute]) -> (r: Result<EventHandler, InnerError>)
        ensures
            r matches Ok(h) && h@ == HandlerView::Sinking,
    {
        Ok(EventHandler::Sinking(SinkingEventHandler::new()))
    }
}

} // verus!
