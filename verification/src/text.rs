//! Facts about texts that several parts of the library state contracts over

use vstd::prelude::*;

verus! {

/// The texts of a list of strings
pub open spec fn texts_of(strings: Seq<String>) -> Seq<Seq<char>> {
    strings.map_values(|s: String| s@)
}

/// How often `c` occurs in `text`
pub open spec fn char_count(text: Seq<char>, c: char) -> nat
    decreases text.len(),
{
    if text.len() == 0 {
        0
    } else {
        char_count(text.drop_first(), c) + if text[0] == c { 1nat } else { 0nat }
    }
}

/// How often an apostrophe escaped by a backslash (`\'`) occurs in `text`
pub open spec fn escaped_apostrophe_count(text: Seq<char>) -> nat
    decreases text.len(),
{
    if text.len() < 2 {
        0
    } else if text[0] == '\\' && text[1] == '\'' {
        escaped_apostrophe_count(text.skip(2)) + 1
    } else {
        escaped_apostrophe_count(text.drop_first())
    }
}

/// An ASCII letter (a-z or A-Z)
pub open spec fn is_ascii_letter(c: char) -> bool {
    ('a' <= c && c <= 'z') || ('A' <= c && c <= 'Z')
}

/// `text` is of the form `xx=yy` with the `=` at `k` & ASCII letters elsewhere
pub open spec fn is_mapping_at(text: Seq<char>, k: int) -> bool {
    &&& 0 < k < text.len() - 1
    &&& text[k] == '='
    &&& forall|i: int| 0 <= i < text.len() && i != k ==> is_ascii_letter(#[trigger] text[i])
}

/// `text` ends in a `-` at `k` followed by characters between `A` & `z`
pub open spec fn is_locale_suffix_at(text: Seq<char>, k: int) -> bool {
    &&& 0 <= k < text.len() - 1
    &&& text[k] == '-'
    &&& forall|i: int| k < i < text.len() ==> 'A' <= #[trigger] text[i] && text[i] <= 'z'
}

} // verus!
