use vstd::prelude::*;

use crate::localized_string::LocalizedString;

verus! {

/// Strings localized to one locale
#[derive(Clone, Debug, PartialEq)]
pub struct LocalizedStrings {
    locale: String,
    strings: Vec<LocalizedString>,
}

/// What a `LocalizedStrings` holds
pub struct LocalizedStringsView {
    pub locale: Seq<char>,
    pub strings: Seq<LocalizedString>,
}

impl View for LocalizedStrings {
    type V = LocalizedStringsView;

    closed spec fn view(&self) -> LocalizedStringsView {
        LocalizedStringsView { locale: self.locale@, strings: self.strings@ }
    }
}

impl LocalizedStrings {
    pub fn new(locale: String, strings: Vec<LocalizedString>) -> (s: LocalizedStrings)
        ensures
            s@ == (LocalizedStringsView { locale: locale@, strings: strings@ }),
    {
        LocalizedStrings { locale, strings }
    }

    pub fn locale(&self) -> (r: &str)
        ensures
            r@ == self@.locale,
    {
        self.locale.as_str()
    }

    pub fn strings(&self) -> (r: &[LocalizedString])
        ensures
            r@ == self@.strings,
    {
        self.strings.as_slice()
    }

    pub fn into_strings(self) -> (r: Vec<LocalizedString>)
        ensures
            r@ == self@.strings,
    {
        self.strings
    }
}

} // verus!
