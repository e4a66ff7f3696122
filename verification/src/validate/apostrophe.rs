//! Finding unescaped apostrophes

use vstd::prelude::*;

use crate::android_string::AndroidString;
use crate::external::{apostrophe_pattern, escaped_apostrophe_pattern, regex_find_all};
use crate::text::{char_count, escaped_apostrophe_count};

verus! {

/// Strings with unescaped apostrophes
#[derive(Debug, PartialEq)]
pub struct InvalidStrings {
    pub invalid_strings: Vec<AndroidString>,
}

/// A value is invalid when it has more apostrophes than escaped apostrophes
pub open spec fn is_invalid_text(value: Seq<char>) -> bool {
    char_count(value, '\'') != escaped_apostrophe_count(value)
}

/// An apostrophe not preceded by a backslash is at `i`
pub open spec fn is_unescaped_apostrophe_at(value: Seq<char>, i: int) -> bool {
    0 <= i < value.len() && value[i] == '\'' && (i == 0 || value[i - 1] != '\\')
}

/// The strings with invalid values, in order
pub open spec fn invalid_strings_of(strings: Seq<AndroidString>) -> Seq<AndroidString> {
    strings.filter(|s: AndroidString| is_invalid_text(s@.value))
}

/// Fails with the strings that have unescaped apostrophes (in the order given)
/// if there are any
pub fn validate(strings: &[AndroidString]) -> (r: Result<(), InvalidStrings>)
    ensures
        match r {
            Ok(()) => invalid_strings_of(strings@).len() == 0,
            Err(e) => invalid_strings_of(strings@).len() > 0 && e.invalid_strings@ == invalid_strings_of(strings@),
        },
{
    let ghost pred = |s: AndroidString| is_invalid_text(s@.value);
    let mut invalid_strings: Vec<AndroidString> = Vec::new();
    let mut i: usize = 0;
    assert(strings@.take(0) =~= Seq::<AndroidString>::empty());
    while i < strings.len()
        invariant
            i <= strings@.len(),
            pred == (|s: AndroidString| is_invalid_text(s@.value)),
            invalid_strings@ == strings@.take(i as int).filter(pred),
        decreases strings@.len() - i,
    {
        proof {
            let t = strings@.take(i as int);
            assert(strings@.take(i + 1) =~= t.push(strings@[i as int]));
            t.lemma_filter_push(strings@[i as int], pred);
        }
        if is_invalid_value(strings[i].value()) {
            invalid_strings.push(strings[i].duplicate());
        }
        i = i + 1;
    }
    assert(strings@.take(i as int) =~= strings@);
    if invalid_strings.len() == 0 {
        Ok(())
    } else {
        Err(InvalidStrings { invalid_strings })
    }
}

/// Whether the number of apostrophes differs from the number of escaped
/// apostrophes in `value`
pub fn is_invalid_value(value: &str) -> (r: bool)
    ensures
        r == is_invalid_text(value@),
{
    let apostrophes = regex_find_all("(')", value);
    let escaped_apostrophes = regex_find_all("(\\\\')", value);
    match (apostrophes, escaped_apostrophes) {
        (Some(a), Some(e)) => a.len() != e.len(),
        _ => false,
    }
}

/// There are never fewer apostrophes than escaped apostrophes, & there are
/// more exactly when an apostrophe isn't escaped
pub proof fn lemma_invalid_iff_unescaped_apostrophe(value: Seq<char>)
    ensures
        char_count(value, '\'') >= escaped_apostrophe_count(value),
        is_invalid_text(value) <==> exists|i: int| #[trigger] is_unescaped_apostrophe_at(value, i),
    decreases value.len(),
{
    let rest = value.drop_first();
    if value.len() == 0 {
    } else if value.len() == 1 {
        assert(rest.len() == 0);
        if value[0] == '\'' {
            assert(is_unescaped_apostrophe_at(value, 0));
        }
    } else if value[0] == '\\' && value[1] == '\'' {
        let rest2 = value.skip(2);
        lemma_invalid_iff_unescaped_apostrophe(rest2);
        assert(rest.drop_first() =~= rest2);
        assert(rest[0] == '\'');
        assert(char_count(rest, '\'') == char_count(rest2, '\'') + 1);
        assert(char_count(value, '\'') == char_count(rest, '\''));
        if exists|i: int| #[trigger] is_unescaped_apostrophe_at(rest2, i) {
            let i = choose|i: int| #[trigger] is_unescaped_apostrophe_at(rest2, i);
            assert(is_unescaped_apostrophe_at(value, i + 2));
        }
        if exists|i: int| #[trigger] is_unescaped_apostrophe_at(value, i) {
            let i = choose|i: int| #[trigger] is_unescaped_apostrophe_at(value, i);
            assert(i >= 2);
            assert(is_unescaped_apostrophe_at(rest2, i - 2));
        }
    } else {
        lemma_invalid_iff_unescaped_apostrophe(rest);
        if value[0] == '\'' {
            assert(is_unescaped_apostrophe_at(value, 0));
        } else {
            if exists|i: int| #[trigger] is_unescaped_apostrophe_at(rest, i) {
                let i = choose|i: int| #[trigger] is_unescaped_apostrophe_at(rest, i);
                assert(is_unescaped_apostrophe_at(value, i + 1));
            }
            if exists|i: int| #[trigger] is_unescaped_apostrophe_at(value, i) {
                let i = choose|i: int| #[trigger] is_unescaped_apostrophe_at(value, i);
                assert(i >= 1);
                assert(is_unescaped_apostrophe_at(rest, i - 1));
            }
        }
    }
}

} // verus!
