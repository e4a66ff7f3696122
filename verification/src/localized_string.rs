use vstd::prelude::*;

use crate::names::Named;

verus! {

/// A string as it comes back from localization: its name, the default locale's
/// value it was localized from & the localized value
#[derive(Clone, Debug, PartialEq)]
pub struct LocalizedString {
    name: String,
    default: String,
    localized: String,
}

/// What a `LocalizedString` holds
pub struct LocalizedStringView {
    pub name: Seq<char>,
    pub default: Seq<char>,
    pub localized: Seq<char>,
}

impl View for LocalizedString {
    type V = LocalizedStringView;

    closed spec fn view(&self) -> LocalizedStringView {
        LocalizedStringView { name: self.name@, default: self.default@, localized: self.localized@ }
    }
}

impl LocalizedString {
    pub fn new(name: String, default: String, localized: String) -> (s: LocalizedString)
        ensures
            s@ == (LocalizedStringView { name: name@, default: default@, localized: localized@ }),
    {
        LocalizedString { name, default, localized }
    }

    /// Builds from borrowed texts
    pub fn build(name: &str, default: &str, localized: &str) -> (s: LocalizedString)
        ensures
            s@ == (LocalizedStringView { name: name@, default: default@, localized: localized@ }),
    {
        LocalizedString::new(String::from_str(name), String::from_str(default), String::from_str(localized))
    }

    pub fn name(&self) -> (r: &str)
        ensures
            r@ == self@.name,
    {
        self.name.as_str()
    }

    pub fn default(&self) -> (r: &str)
        ensures
            r@ == self@.default,
    {
        self.default.as_str()
    }

    pub fn localized(&self) -> (r: &str)
        ensures
            r@ == self@.localized,
    {
        self.localized.as_str()
    }

    /// A copy that is equal to this one in every respect
    pub fn duplicate(&self) -> (r: LocalizedString)
        ensures
            r == *self,
    {
        LocalizedString {
            name: self.name.clone(),
            default: self.default.clone(),
            localized: self.localized.clone(),
        }
    }
}

impl Named for LocalizedString {
    open spec fn name_view(&self) -> Seq<char> {
        self@.name
    }

    fn name_str(&self) -> (r: &str) {
        self.name.as_str()
    }
}

} // verus!
