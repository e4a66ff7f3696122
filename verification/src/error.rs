//! Errors, each carrying some context (most usually the path of the file with issues)

use vstd::prelude::*;

use crate::external::{csv_error_text, io_error_text, xml_read_error_text, xml_write_error_text};

verus! {

/// An error along with where it happened
#[derive(Debug)]
pub struct LocalizationError {
    pub context: String,
    pub kind: ErrorKind,
}

/// What went wrong
#[derive(Debug)]
pub enum ErrorKind {
    Csv(csv::Error),
    Io(std::io::Error),
    Message(String),
    XmlRead(xml::reader::Error),
    XmlWrite(xml::writer::Error),
}

/// An error of a component that doesn't know the context: it becomes an
/// `LocalizationError` once the context is added
#[derive(Debug)]
pub struct InnerError {
    pub kind: ErrorKind,
}

/// Whether an error is a message with the given text
pub open spec fn is_message(kind: ErrorKind, text: Seq<char>) -> bool {
    kind matches ErrorKind::Message(m) && m@ == text
}

impl LocalizationError {
    pub fn new(context: String, error: InnerError) -> (r: LocalizationError)
        ensures
            r.context@ == context@,
            r.kind == error.kind,
    {
        error.into_error(context)
    }

    pub fn context(&self) -> (r: &str)
        ensures
            r@ == self.context@,
    {
        self.context.as_str()
    }

    /// The text describing this error: the context, then what went wrong
    /// (what `Display` would print)
    pub fn to_display_string(&self) -> (r: String)
        ensures
            r@.len() >= self.context@.len() + 2,
            r@.take(self.context@.len() + 2int) == self.context@ + ": "@,
            self.kind matches ErrorKind::Message(m) ==> r@ == self.context@ + ": "@ + m@,
    {
        proof {
            reveal_strlit(": ");
        }
        let mut r = String::from_str(self.context.as_str());
        r.append(": ");
        let kind = self.kind.describe();
        r.append(kind.as_str());
        assert(r@.take(self.context@.len() + 2int) =~= self.context@ + ": "@);
        r
    }
}

impl ErrorKind {
    /// The text describing what went wrong
    pub fn describe(&self) -> (r: String)
        ensures
            self matches ErrorKind::Message(m) ==> r@ == m@,
    {
        match self {
            ErrorKind::Csv(e) => csv_error_text(e),
            ErrorKind::Io(e) => io_error_text(e),
            ErrorKind::Message(m) => String::from_str(m.as_str()),
            ErrorKind::XmlRead(e) => xml_read_error_text(e),
            ErrorKind::XmlWrite(e) => xml_write_error_text(e),
        }
    }
}

impl InnerError {
    /// Adds the context
    pub fn into_error(self, context: String) -> (r: LocalizationError)
        ensures
            r.context@ == context@,
            r.kind == self.kind,
    {
        LocalizationError { context, kind: self.kind }
    }

    pub fn from_csv(error: csv::Error) -> (r: InnerError)
        ensures
            r.kind == ErrorKind::Csv(error),
    {
        InnerError { kind: ErrorKind::Csv(error) }
    }

    pub fn from_io(error: std::io::Error) -> (r: InnerError)
        ensures
            r.kind == ErrorKind::Io(error),
    {
        InnerError { kind: ErrorKind::Io(error) }
    }

    pub fn from_message(message: &str) -> (r: InnerError)
        ensures
            is_message(r.kind, message@),
    {
        InnerError { kind: ErrorKind::Message(String::from_str(message)) }
    }

    pub fn from_xml_read(error: xml::reader::Error) -> (r: InnerError)
        ensures
            r.kind == ErrorKind::XmlRead(error),
    {
        InnerError { kind: ErrorKind::XmlRead(error) }
    }

    pub fn from_xml_write(error: xml::writer::Error) -> (r: InnerError)
        ensures
            r.kind == ErrorKind::XmlWrite(error),
    {
        InnerError { kind: ErrorKind::XmlWrite(error) }
    }
}

} // verus!
