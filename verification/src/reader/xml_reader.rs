//! Reading the strings of an Android `strings.xml` file

pub mod event_handler;
pub mod events_handler;
pub mod reader;
pub mod resources_event_handler;
pub mod root_event_handler;
pub mod sinking_event_handler;
pub mod string_event_handler;

pub use self::reader::read;
