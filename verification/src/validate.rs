pub mod apostrophe;
pub mod format_string;
pub mod missing_strings;
pub mod validator;
pub mod formatter;
