//! Where the `strings.xml` files of a `res` directory are & what was read from one

use vstd::prelude::*;
use vstd::string::StrSliceExecFns;

use crate::android_string::{views_of, AndroidString};
use crate::error::LocalizationError;
use crate::reader::xml_reader::reader::{read, strings_read};

verus! {

/// Name of the values directory of the default locale
pub const BASE_VALUES_DIR_NAME: &'static str = "values";

/// Name of the strings file in each values directory
pub const STRING_FILE_NAME: &'static str = "strings.xml";

/// `name` appended to the path `dir` as one more component (as `PathBuf::push`
/// does with a relative component)
pub open spec fn joined_path(dir: Seq<char>, name: Seq<char>) -> Seq<char> {
    if dir.len() == 0 || dir.last() == '/' {
        dir + name
    } else {
        dir + seq!['/'] + name
    }
}

/// Path of the strings file of the default locale
pub open spec fn default_strings_path(res_dir_path: Seq<char>) -> Seq<char> {
    joined_path(joined_path(res_dir_path, "values"@), "strings.xml"@)
}

/// Path of the strings file of a foreign locale
pub open spec fn foreign_strings_path(res_dir_path: Seq<char>, locale_id: Seq<char>) -> Seq<char> {
    joined_path(joined_path(res_dir_path, "values-"@ + locale_id), "strings.xml"@)
}

/// Appends `name` to the path `dir` as one more component
pub fn join_path(dir: &str, name: &str) -> (r: String)
    ensures
        r@ == joined_path(dir@, name@),
{
    let n = dir.unicode_len();
    let mut r = String::from_str(dir);
    if n > 0 && dir.get_char(n - 1) != '/' {
        proof {
            reveal_strlit("/");
        }
        r.append("/");
    }
    r.append(name);
    r
}

/// Path of the strings file of the default locale
pub fn default_strings_file_path(res_dir_path: &str) -> (r: String)
    ensures
        r@ == default_strings_path(res_dir_path@),
{
    proof {
        reveal_strlit("values");
        reveal_strlit("strings.xml");
    }
    let values_dir = join_path(res_dir_path, BASE_VALUES_DIR_NAME);
    join_path(values_dir.as_str(), STRING_FILE_NAME)
}

/// Path of the strings file of a foreign locale
pub fn foreign_strings_file_path(res_dir_path: &str, locale_id: &str) -> (r: String)
    ensures
        r@ == foreign_strings_path(res_dir_path@, locale_id@),
{
    proof {
        reveal_strlit("values-");
        reveal_strlit("strings.xml");
    }
    let mut values_dir_name = String::from_str("values-");
    values_dir_name.append(locale_id);
    let values_dir = join_path(res_dir_path, values_dir_name.as_str());
    join_path(values_dir.as_str(), STRING_FILE_NAME)
}

/// Reads the strings out of the content of the strings file at `path`; an
/// error carries the path
pub fn read_strings(path: String, content: &[u8]) -> (r: Result<StringsWithPath, LocalizationError>)
    ensures
        match r {
            Ok(s) => s@.path == path@ && strings_read(content@) == Some(views_of(s@.strings)),
            Err(e) => strings_read(content@) is None && e.context@ == path@,
        },
{
    match read(content) {
        Ok(strings) => Ok(StringsWithPath { path, strings }),
        Err(e) => Err(e.into_error(path)),
    }
}

/// Reads the strings out of the content of the default locale's strings file
pub fn read_default_strings(res_dir_path: &str, content: &[u8]) -> (r: Result<StringsWithPath, LocalizationError>)
    ensures
        match r {
            Ok(s) => s@.path == default_strings_path(res_dir_path@) && strings_read(content@) == Some(
                views_of(s@.strings),
            ),
            Err(e) => strings_read(content@) is None && e.context@ == default_strings_path(res_dir_path@),
        },
{
    read_strings(default_strings_file_path(res_dir_path), content)
}

/// Reads the strings out of the content of a foreign locale's strings file
pub fn read_foreign_strings(res_dir_path: &str, locale_id: &str, content: &[u8]) -> (r: Result<StringsWithPath, LocalizationError>)
    ensures
        match r {
            Ok(s) => s@.path == foreign_strings_path(res_dir_path@, locale_id@) && strings_read(content@) == Some(
                views_of(s@.strings),
            ),
            Err(e) => strings_read(content@) is None && e.context@ == foreign_strings_path(res_dir_path@, locale_id@),
        },
{
    read_strings(foreign_strings_file_path(res_dir_path, locale_id), content)
}

/// The strings read from a strings file, along with the file's path
#[derive(Debug)]
pub struct StringsWithPath {
    path: String,
    strings: Vec<AndroidString>,
}

/// What a `StringsWithPath` holds
pub struct StringsWithPathView {
    pub path: Seq<char>,
    pub strings: Seq<AndroidString>,
}

impl View for StringsWithPath {
    type V = StringsWithPathView;

    closed spec fn view(&self) -> StringsWithPathView {
        StringsWithPathView { path: self.path@, strings: self.strings@ }
    }
}

impl StringsWithPath {
    pub fn new(path: String, strings: Vec<AndroidString>) -> (r: StringsWithPath)
        ensures
            r@ == (StringsWithPathView { path: path@, strings: strings@ }),
    {
        StringsWithPath { path, strings }
    }

    pub fn path(&self) -> (r: &str)
        ensures
            r@ == self@.path,
    {
        self.path.as_str()
    }

    pub fn strings(&self) -> (r: &[AndroidString])
        ensures
            r@ == self@.strings,
    {
        self.strings.as_slice()
    }

    pub fn into_strings(self) -> (r: Vec<AndroidString>)
        ensures
            r@ == self@.strings,
    {
        self.strings
    }
}

} // verus!
