//! Building a string out of a `<string>` element

use vstd::prelude::*;

use crate::android_string::{AndroidString, AndroidStringView};
use crate::error::{is_message, InnerError};
use crate::names::strs_equal;
use crate::reader::xml_reader::event_handler::{attribute_views, Attribute, AttributeView, EventHandler, HandlerView};
use crate::reader::xml_reader::sinking_event_handler::SinkingEventHandler;

verus! {

/// What a `<string>` element without a `name` attribute gives
pub open spec fn missing_name_message() -> Seq<char> {
    "string element is missing required name attribute"@
}

/// The value of the last attribute called `name`, if there is one
pub open spec fn name_attribute(attributes: Seq<AttributeView>) -> Option<Seq<char>>
    decreases attributes.len(),
{
    if attributes.len() == 0 {
        None
    } else if attributes.last().name == "name"@ {
        Some(attributes.last().value)
    } else {
        name_attribute(attributes.drop_last())
    }
}

/// Whether some attribute says `translatable="false"`
pub open spec fn marks_unlocalizable(attributes: Seq<AttributeView>) -> bool {
    exists|i: int| 0 <= i < attributes.len() && (#[trigger] attributes[i]).name == "translatable"@
        && attributes[i].value == "false"@
}

/// Text appended to what was built so far
pub open spec fn appended_text(built: Option<AndroidStringView>, text: Seq<char>) -> Seq<char> {
    match built {
        Some(s) => s.value + text,
        None => text,
    }
}

/// The text a CDATA section stands for in a string's value: the section itself
pub open spec fn cdata_text(text: Seq<char>) -> Seq<char> {
    "<![CDATA["@ + text + "]]>"@
}

/// Builds one string out of the texts of a `<string>` element
pub struct StringEventHandler {
    pub name: String,
    pub is_localizable: bool,
    pub built_android_string: Option<AndroidString>,
}

/// What a `StringEventHandler` holds
pub struct StringEventHandlerView {
    pub name: Seq<char>,
    pub is_localizable: bool,
    pub built: Option<AndroidStringView>,
}

impl View for StringEventHandler {
    type V = StringEventHandlerView;

    open spec fn view(&self) -> StringEventHandlerView {
        StringEventHandlerView {
            name: self.name@,
            is_localizable: self.is_localizable,
            built: match self.built_android_string {
                Some(s) => Some(s@),
                None => None,
            },
        }
    }
}

/// The handler after `text` was appended to its string
pub open spec fn with_appended(h: StringEventHandlerView, text: Seq<char>) -> StringEventHandlerView {
    StringEventHandlerView {
        name: h.name,
        is_localizable: h.is_localizable,
        built: Some(
            AndroidStringView { name: h.name, value: appended_text(h.built, text), is_localizable: h.is_localizable },
        ),
    }
}

impl StringEventHandler {
    /// A handler for a `<string>` element with the given attributes: it needs a
    /// `name` & is localizable unless it says `translatable="false"`
    pub fn build(attributes: &[Attribute]) -> (r: Result<StringEventHandler, InnerError>)
        ensures
            match r {
                Ok(h) => name_attribute(attribute_views(attributes@)) == Some(h.name@) && h.is_localizable
                    == !marks_unlocalizable(attribute_views(attributes@)) && h.built_android_string is None,
                Err(e) => name_attribute(attribute_views(attributes@)) is None && is_message(e.kind, missing_name_message()),
            },
    {
        proof {
            reveal_strlit("name");
            reveal_strlit("translatable");
            reveal_strlit("false");
        }
        let ghost views = attribute_views(attributes@);
        let mut string_name: Option<String> = None;
        let mut is_localizable = true;
        let mut i: usize = 0;
        assert(views.take(0) =~= Seq::<AttributeView>::empty());
        while i < attributes.len()
            invariant
                i <= attributes@.len(),
                views == attribute_views(attributes@),
                match string_name {
                    Some(n) => name_attribute(views.take(i as int)) == Some(n@),
                    None => name_attribute(views.take(i as int)) is None,
                },
                is_localizable == !marks_unlocalizable(views.take(i as int)),
            decreases attributes@.len() - i,
        {
            let ghost before = views.take(i as int);
            proof {
                assert(views.take(i + 1).drop_last() =~= before);
                assert(views.take(i + 1).last() == attributes@[i as int]@);
            }
            let attribute = &attributes[i];
            if strs_equal(attribute.name.as_str(), "name") {
                string_name = Some(attribute.value.clone());
            } else if strs_equal(attribute.name.as_str(), "translatable") {
                if strs_equal(attribute.value.as_str(), "false") {
                    is_localizable = false;
                }
            }
            i = i + 1;
            proof {
                let now = views.take(i as int);
                let a = attributes@[i - 1]@;
                assert(now =~= before.push(a));
                assert(now[i - 1] == a);
                if marks_unlocalizable(before) {
                    let j = choose|j: int| 0 <= j < before.len() && (#[trigger] before[j]).name == "translatable"@
                        && before[j].value == "false"@;
                    assert(now[j] == before[j]);
                }
                if marks_unlocalizable(now) {
                    let j = choose|j: int| 0 <= j < now.len() && (#[trigger] now[j]).name == "translatable"@
                        && now[j].value == "false"@;
                    if j < before.len() {
                        assert(now[j] == before[j]);
                    }
                }
                assert(marks_unlocalizable(now) == (marks_unlocalizable(before) || (a.name == "translatable"@
                    && a.value == "false"@)));
                assert("name"@ != "translatable"@) by {
                    reveal_strlit("name");
                    reveal_strlit("translatable");
                    assert("name"@.len() != "translatable"@.len());
                }
            }
        }
        assert(views.take(i as int) =~= views);
        match string_name {
            None => Err(InnerError::from_message("string element is missing required name attribute")),
            Some(name) => Ok(StringEventHandler { name, is_localizable, built_android_string: None }),
        }
    }

    /// Appends `text` to the value built so far, or starts the value with it
    pub fn append_or_create_string(&mut self, text: &str)
        ensures
            final(self)@ == with_appended(old(self)@, text@),
    {
        let value = match &self.built_android_string {
            None => String::from_str(text),
            Some(s) => {
                let mut v = String::from_str(s.value());
                v.append(text);
                v
            },
        };
        self.built_android_string = Some(AndroidString::new(self.name.clone(), value, self.is_localizable));
    }

    /// Characters of the element go into the value as they are
    pub fn handle_characters_event(&mut self, text: String)
        ensures
            final(self)@ == with_appended(old(self)@, text@),
    {
        self.append_or_create_string(text.as_str())
    }

    /// A CDATA section of the element goes into the value as a CDATA section
    pub fn handle_cdata_event(&mut self, text: String)
        ensures
            final(self)@ == with_appended(old(self)@, cdata_text(text@)),
    {
        proof {
            reveal_strlit("<![CDATA[");
            reveal_strlit("]]>");
        }
        let mut wrapped = String::from_str("<![CDATA[");
        wrapped.append(text.as_str());
        wrapped.append("]]>");
        self.append_or_create_string(wrapped.as_str())
    }

    /// The string built so far, if any text was seen
    pub fn built_string(&self) -> (r: Option<AndroidString>)
        ensures
            r == self.built_android_string,
    {
        match &self.built_android_string {
            Some(s) => Some(s.duplicate()),
            None => None,
        }
    }

    /// Elements inside a `<string>` element are skipped
    pub fn build_handler(&self, _tag_name: &str, _attributes: &[Attribute]) -> (r: Result<EventHandler, InnerError>)
        ensures
            r matches Ok(h) && h@ == HandlerView::Sinking,
    {
        Ok(EventHandler::Sinking(SinkingEventHandler::new()))
    }
}

} // verus!
