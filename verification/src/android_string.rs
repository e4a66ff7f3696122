use vstd::prelude::*;

use crate::names::Named;

verus! {

/// One `<string>` element of an Android `strings.xml` file
#[derive(Clone, Debug, Hash, PartialEq)]
pub struct AndroidString {
    name: String,
    value: String,
    is_localizable: bool,
}

/// What an `AndroidString` holds
pub struct AndroidStringView {
    pub name: Seq<char>,
    pub value: Seq<char>,
    pub is_localizable: bool,
}

impl View for AndroidString {
    type V = AndroidStringView;

    closed spec fn view(&self) -> AndroidStringView {
        AndroidStringView { name: self.name@, value: self.value@, is_localizable: self.is_localizable }
    }
}

/// What each string of a list holds
pub open spec fn views_of(strings: Seq<AndroidString>) -> Seq<AndroidStringView> {
    strings.map_values(|s: AndroidString| s@)
}

impl AndroidString {
    pub fn new(name: String, value: String, is_localizable: bool) -> (s: AndroidString)
        ensures
            s@ == (AndroidStringView { name: name@, value: value@, is_localizable }),
    {
        AndroidString { name, value, is_localizable }
    }

    /// A string that is to be localized
    pub fn localizable(name: &str, value: &str) -> (s: AndroidString)
        ensures
            s@ == (AndroidStringView { name: name@, value: value@, is_localizable: true }),
    {
        AndroidString::new(String::from_str(name), String::from_str(value), true)
    }

    /// A string that is not to be localized
    pub fn unlocalizable(name: &str, value: &str) -> (s: AndroidString)
        ensures
            s@ == (AndroidStringView { name: name@, value: value@, is_localizable: false }),
    {
        AndroidString::new(String::from_str(name), String::from_str(value), false)
    }

    pub fn name(&self) -> (r: &str)
        ensures
            r@ == self@.name,
    {
        self.name.as_str()
    }

    pub fn value(&self) -> (r: &str)
        ensures
            r@ == self@.value,
    {
        self.value.as_str()
    }

    pub fn is_localizable(&self) -> (r: bool)
        ensures
            r == self@.is_localizable,
    {
        self.is_localizable
    }

    /// Text describing this string (what `Display` would print)
    pub fn to_display_string(&self) -> (r: String)
        ensures
            r@ == (if self@.is_localizable { "Localizable: true; Name: "@ } else {
                "Localizable: false; Name: "@
            }) + self@.name + "; Value: "@ + self@.value,
    {
        let mut r = if self.is_localizable {
            String::from_str("Localizable: true; Name: ")
        } else {
            String::from_str("Localizable: false; Name: ")
        };
        r.append(self.name.as_str());
        r.append("; Value: ");
        r.append(self.value.as_str());
        r
    }

    /// A copy that is equal to this one in every respect
    pub fn duplicate(&self) -> (r: AndroidString)
        ensures
            r == *self,
    {
        AndroidString {
            name: self.name.clone(),
            value: self.value.clone(),
            is_localizable: self.is_localizable,
        }
    }
}

impl Named for AndroidString {
    open spec fn name_view(&self) -> Seq<char> {
        self@.name
    }

    fn name_str(&self) -> (r: &str) {
        self.name.as_str()
    }
}

} // verus!
