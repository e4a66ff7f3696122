//! Finding the foreign locales of a `res` directory: each `values-<locale id>`
//! directory with a strings file stands for one

use vstd::prelude::*;

use crate::external::{group_texts, locale_suffix_pattern, regex_captures};
use crate::text::{is_locale_suffix_at, texts_of};
use vstd::std_specs::iter::IteratorSpec;
use crate::error::{is_message, InnerError};

verus! {

/// What the name of a values directory starts with
pub open spec fn values_dir_prefix() -> Seq<char> {
    seq!['v', 'a', 'l', 'u', 'e', 's', '-']
}

/// Whether a directory's name is that of a values directory (`values-...`)
pub open spec fn is_values_dir_name(dir_name: Seq<char>) -> bool {
    dir_name.len() >= values_dir_prefix().len() && dir_name.take(values_dir_prefix().len() as int)
        == values_dir_prefix()
}

/// The locale id of a directory's name: none unless the name is that of a
/// values directory (`values-...`); else what follows a `-` near the end of the
/// name, where only characters from `A` to `z` follow that `-`
pub open spec fn locale_id_of(dir_name: Seq<char>) -> Option<Seq<char>> {
    if is_values_dir_name(dir_name) && exists|k: int| is_locale_suffix_at(dir_name, k) {
        Some(dir_name.skip((choose|k: int| is_locale_suffix_at(dir_name, k)) + 1))
    } else {
        None
    }
}

/// Whether a directory's name is that of a values directory (`values-...`)
fn starts_with_values_prefix(dir_name: &str) -> (r: bool)
    ensures
        r == is_values_dir_name(dir_name@),
{
    broadcast use vstd::string::axiom_spec_iter, vstd::string::next_postcondition;

    let prefix: Vec<char> = vec!['v', 'a', 'l', 'u', 'e', 's', '-'];
    assert(prefix@ =~= values_dir_prefix());
    let mut chars = dir_name.chars();
    let mut i: usize = 0;
    assert(dir_name@.skip(0) =~= dir_name@);
    while i < prefix.len()
        invariant
            i <= prefix@.len(),
            prefix@ == values_dir_prefix(),
            i <= dir_name@.len(),
            chars.remaining() == dir_name@.skip(i as int),
            forall|k: int| 0 <= k < i ==> dir_name@[k] == prefix@[k],
        decreases prefix@.len() - i,
    {
        let next = chars.next();
        match next {
            None => {
                assert(dir_name@.skip(i as int).len() == 0);
                return false;
            },
            Some(c) => {
                assert(c == dir_name@[i as int]);
                if c != prefix[i] {
                    assert(dir_name@[i as int] != values_dir_prefix()[i as int]);
                    proof {
                        if dir_name@.len() >= values_dir_prefix().len() {
                            assert(dir_name@.take(values_dir_prefix().len() as int)[i as int] == dir_name@[i as int]);
                        }
                    }
                    return false;
                }
                assert(dir_name@.skip(i as int).drop_first() =~= dir_name@.skip(i + 1));
            },
        }
        i = i + 1;
    }
    assert(dir_name@.take(values_dir_prefix().len() as int) =~= values_dir_prefix());
    true
}

/// There is at most one place a locale suffix starts at
pub proof fn lemma_locale_suffix_unique(dir_name: Seq<char>, k1: int, k2: int)
    requires
        is_locale_suffix_at(dir_name, k1),
        is_locale_suffix_at(dir_name, k2),
    ensures
        k1 == k2,
{
    if k1 < k2 {
        assert('A' <= dir_name[k2]);
    } else if k2 < k1 {
        assert('A' <= dir_name[k1]);
    }
}

/// The locale id of a directory's name, if it is that of a values directory
/// with a locale id
pub fn locale_id_of_dir_name(dir_name: &str) -> (r: Option<String>)
    ensures
        match r {
            Some(id) => locale_id_of(dir_name@) == Some(id@),
            None => locale_id_of(dir_name@) is None,
        },
{
    if !starts_with_values_prefix(dir_name) {
        return None;
    }
    proof {
        reveal_strlit("-([a-zA-z]+)$");
    }
    let captures = regex_captures("-([a-zA-z]+)$", dir_name);
    match captures {
        Some(Some(groups)) => {
            if groups.len() > 1 {
                match &groups[1] {
                    Some(id) => {
                        proof {
                            let k = choose|k: int| is_locale_suffix_at(dir_name@, k) && #[trigger] group_texts(groups@)
                                == seq![Some(dir_name@.skip(k)), Some(dir_name@.skip(k + 1))];
                            let c = choose|k: int| is_locale_suffix_at(dir_name@, k);
                            lemma_locale_suffix_unique(dir_name@, k, c);
                            assert(group_texts(groups@)[1] == Some(id@));
                        }
                        Some(id.clone())
                    },
                    None => {
                        proof {
                            let k = choose|k: int| is_locale_suffix_at(dir_name@, k) && #[trigger] group_texts(groups@)
                                == seq![Some(dir_name@.skip(k)), Some(dir_name@.skip(k + 1))];
                            assert(group_texts(groups@)[1] is Some);
                        }
                        None
                    },
                }
            } else {
                proof {
                    let k = choose|k: int| is_locale_suffix_at(dir_name@, k) && #[trigger] group_texts(groups@)
                        == seq![Some(dir_name@.skip(k)), Some(dir_name@.skip(k + 1))];
                    assert(group_texts(groups@).len() == 2);
                }
                None
            }
        },
        _ => None,
    }
}

/// The error when the `res` directory isn't there: `Res dir(<path>) doesn't exist`
pub fn res_dir_missing_error(res_dir_path: &str) -> (r: InnerError)
    ensures
        is_message(r.kind, "Res dir("@ + res_dir_path@ + ") doesn't exist"@),
{
    let mut message = String::from_str("Res dir(");
    message.append(res_dir_path);
    message.append(") doesn't exist");
    InnerError::from_message(message.as_str())
}

/// The locale ids of values directories (those with a strings file), in order
pub open spec fn locale_ids_of(dir_names: Seq<Seq<char>>) -> Seq<Seq<char>>
    decreases dir_names.len(),
{
    if dir_names.len() == 0 {
        Seq::empty()
    } else {
        let rest = locale_ids_of(dir_names.drop_last());
        match locale_id_of(dir_names.last()) {
            Some(id) => rest.push(id),
            None => rest,
        }
    }
}

/// Picks the locale ids out of the names of the directories of a `res`
/// directory that hold a strings file: only the values directories
/// (`values-...`) count
pub fn find(dir_names: &[String]) -> (r: Vec<String>)
    ensures
        texts_of(r@) == locale_ids_of(texts_of(dir_names@)),
{
    let ghost names = texts_of(dir_names@);
    let mut ids: Vec<String> = Vec::new();
    let mut i: usize = 0;
    assert(names.take(0) =~= Seq::<Seq<char>>::empty());
    assert(texts_of(ids@) =~= Seq::<Seq<char>>::empty());
    while i < dir_names.len()
        invariant
            i <= dir_names@.len(),
            names == texts_of(dir_names@),
            texts_of(ids@) == locale_ids_of(names.take(i as int)),
        decreases dir_names@.len() - i,
    {
        proof {
            assert(names.take(i + 1).drop_last() =~= names.take(i as int));
            assert(names.take(i + 1).last() == dir_names@[i as int]@);
        }
        if let Some(id) = locale_id_of_dir_name(dir_names[i].as_str()) {
            let ghost before = ids@;
            ids.push(id);
            assert(texts_of(ids@) =~= texts_of(before).push(id@));
        }
        i = i + 1;
    }
    assert(names.take(i as int) =~= names);
    ids
}

/// The texts of a list, each once, in order of first appearance
pub open spec fn distinct_texts(texts: Seq<Seq<char>>) -> Seq<Seq<char>>
    decreases texts.len(),
{
    if texts.len() == 0 {
        Seq::empty()
    } else {
        let rest = distinct_texts(texts.drop_last());
        if rest.contains(texts.last()) {
            rest
        } else {
            rest.push(texts.last())
        }
    }
}

/// The texts of the pairs of a map
pub open spec fn pair_texts(map: Seq<(String, String)>) -> Seq<(Seq<char>, Seq<char>)> {
    map.map_values(|p: (String, String)| (p.0@, p.1@))
}

/// Whether a map has a pair with the given key
fn has_key(map: &Vec<(String, String)>, key: &str) -> (r: bool)
    ensures
        r == (exists|k: int| 0 <= k < map@.len() && (#[trigger] map@[k]).0@ == key@),
{
    let mut i: usize = 0;
    while i < map.len()
        invariant
            i <= map@.len(),
            forall|k: int| 0 <= k < i ==> (#[trigger] map@[k]).0@ != key@,
        decreases map@.len() - i,
    {
        if crate::names::strs_equal(map[i].0.as_str(), key) {
            return true;
        }
        i = i + 1;
    }
    false
}

/// The map as it is if it isn't empty, else a map from each locale id found to
/// itself (in order of first appearance)
pub fn build_map_if_empty_or_return(map: Vec<(String, String)>, found_locale_ids: &[String]) -> (r: Vec<(String, String)>)
    ensures
        map@.len() > 0 ==> r@ == map@,
        map@.len() == 0 ==> pair_texts(r@) == distinct_texts(texts_of(found_locale_ids@)).map_values(
            |id: Seq<char>| (id, id),
        ),
{
    if map.len() > 0 {
        return map;
    }
    let ghost ids = texts_of(found_locale_ids@);
    let mut built: Vec<(String, String)> = Vec::new();
    let mut i: usize = 0;
    assert(ids.take(0) =~= Seq::<Seq<char>>::empty());
    assert(pair_texts(built@) =~= Seq::<(Seq<char>, Seq<char>)>::empty());
    while i < found_locale_ids.len()
        invariant
            i <= found_locale_ids@.len(),
            ids == texts_of(found_locale_ids@),
            pair_texts(built@) == distinct_texts(ids.take(i as int)).map_values(|id: Seq<char>| (id, id)),
        decreases found_locale_ids@.len() - i,
    {
        let ghost done = distinct_texts(ids.take(i as int));
        proof {
            assert(ids.take(i + 1).drop_last() =~= ids.take(i as int));
            assert(ids.take(i + 1).last() == found_locale_ids@[i as int]@);
            assert(pair_texts(built@).len() == built@.len());
            assert(done.map_values(|id: Seq<char>| (id, id)).len() == done.len());
            assert(built@.len() == done.len());
        }
        let id = &found_locale_ids[i];
        let present = has_key(&built, id.as_str());
        proof {
            if present {
                let k = choose|k: int| 0 <= k < built@.len() && (#[trigger] built@[k]).0@ == id@;
                assert(pair_texts(built@)[k] == done.map_values(|id: Seq<char>| (id, id))[k]);
                assert(pair_texts(built@)[k].0 == done[k]);
                assert(done.contains(id@));
            } else {
                if done.contains(id@) {
                    let k = choose|k: int| 0 <= k < done.len() && done[k] == id@;
                    assert(pair_texts(built@)[k] == done.map_values(|id: Seq<char>| (id, id))[k]);
                    assert(pair_texts(built@)[k].0 == built@[k].0@);
                }
            }
        }
        if !present {
            let ghost before = built@;
            built.push((id.clone(), id.clone()));
            assert(pair_texts(built@) =~= pair_texts(before).push((id@, id@)));
        }
        i = i + 1;
    }
    assert(ids.take(i as int) =~= ids);
    built
}

} // verus!
