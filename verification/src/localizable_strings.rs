use vstd::prelude::*;

use crate::android_string::AndroidString;

verus! {

/// Default locale strings that are missing in (& so need localizing to) a locale
#[derive(Clone, Debug, PartialEq)]
pub struct LocalizableStrings {
    to_locale: String,
    default_locale_strings: Vec<AndroidString>,
}

/// What a `LocalizableStrings` holds
pub struct LocalizableStringsView {
    pub to_locale: Seq<char>,
    pub default_locale_strings: Seq<AndroidString>,
}

impl View for LocalizableStrings {
    type V = LocalizableStringsView;

    closed spec fn view(&self) -> LocalizableStringsView {
        LocalizableStringsView {
            to_locale: self.to_locale@,
            default_locale_strings: self.default_locale_strings@,
        }
    }
}

impl LocalizableStrings {
    pub fn new(to_locale: String, default_locale_strings: Vec<AndroidString>) -> (s: LocalizableStrings)
        ensures
            s@ == (LocalizableStringsView {
                to_locale: to_locale@,
                default_locale_strings: default_locale_strings@,
            }),
    {
        LocalizableStrings { to_locale, default_locale_strings }
    }

    pub fn to_locale(&self) -> (r: &str)
        ensures
            r@ == self@.to_locale,
    {
        self.to_locale.as_str()
    }

    pub fn default_locale_strings(&self) -> (r: &[AndroidString])
        ensures
            r@ == self@.default_locale_strings,
    {
        self.default_locale_strings.as_slice()
    }
}

} // verus!
