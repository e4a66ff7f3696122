//! What the command line front end decides: which mappings are valid, the
//! mappings they make & the messages it prints

use vstd::prelude::*;

use crate::external::{group_texts, mapping_pattern, regex_captures};
use crate::text::{is_mapping_at, texts_of};
use crate::validate::formatter::joined;
use crate::util::foreign_locale_ids_finder::pair_texts;

verus! {

/// A mapping is of the form `xx=yy` with ASCII letters on both sides
pub open spec fn is_valid_mapping(mapping: Seq<char>) -> bool {
    exists|k: int| is_mapping_at(mapping, k)
}

/// Where the `=` of a valid mapping is
pub open spec fn separator_of(mapping: Seq<char>) -> int {
    choose|k: int| is_mapping_at(mapping, k)
}

/// A valid mapping has just one `=`
proof fn lemma_mapping_separator_unique(mapping: Seq<char>, k1: int, k2: int)
    requires
        is_mapping_at(mapping, k1),
        is_mapping_at(mapping, k2),
    ensures
        k1 == k2,
{
    if k1 != k2 {
        assert(mapping[k2] == '=');
    }
}

/// Checks that a mapping is of the form `xx=yy`
pub fn mapping_validator(mapping: String) -> (r: Result<(), String>)
    ensures
        match r {
            Ok(()) => is_valid_mapping(mapping@),
            Err(message) => !is_valid_mapping(mapping@) && message@ == "Mapping should be of the format xx=yy; Found: "@
                + mapping@,
        },
{
    proof {
        reveal_strlit("^([a-zA-Z]+)=([a-zA-Z]+)$");
        reveal_strlit("Mapping should be of the format xx=yy; Found: ");
    }
    let valid_mapping = match regex_captures("^([a-zA-Z]+)=([a-zA-Z]+)$", mapping.as_str()) {
        Some(Some(groups)) => {
            proof {
                let k = choose|k: int| is_mapping_at(mapping@, k) && #[trigger] group_texts(groups@) == seq![
                    Some(mapping@),
                    Some(mapping@.take(k)),
                    Some(mapping@.skip(k + 1)),
                ];
                assert(group_texts(groups@).len() == 3);
                assert(group_texts(groups@)[1] is Some && group_texts(groups@)[2] is Some);
            }
            groups.len() > 2 && groups[1].is_some() && groups[2].is_some() && groups.len() <= 3
        },
        _ => false,
    };
    if valid_mapping {
        Ok(())
    } else {
        let mut message = String::from_str("Mapping should be of the format xx=yy; Found: ");
        message.append(mapping.as_str());
        Err(message)
    }
}

/// The pair a valid mapping makes: what is before the `=` to what is after it
pub open spec fn mapping_pair(mapping: Seq<char>) -> (Seq<char>, Seq<char>) {
    (mapping.take(separator_of(mapping)), mapping.skip(separator_of(mapping) + 1))
}

/// A map with the pair added: replacing the value of its key if the key is there
pub open spec fn with_pair(map: Seq<(Seq<char>, Seq<char>)>, pair: (Seq<char>, Seq<char>)) -> Seq<(Seq<char>, Seq<char>)>
    decreases map.len(),
{
    if map.len() == 0 {
        seq![pair]
    } else if map[0].0 == pair.0 {
        map.update(0, pair)
    } else {
        seq![map[0]] + with_pair(map.drop_first(), pair)
    }
}

/// The map that a list of valid mappings makes, the later ones winning
pub open spec fn mappings_map(mappings: Seq<Seq<char>>) -> Seq<(Seq<char>, Seq<char>)>
    decreases mappings.len(),
{
    if mappings.len() == 0 {
        Seq::empty()
    } else {
        with_pair(mappings_map(mappings.drop_last()), mapping_pair(mappings.last()))
    }
}

/// Adds a pair to a map, replacing the value of its key if the key is there
fn insert_pair(map: &mut Vec<(String, String)>, key: String, value: String)
    ensures
        pair_texts(final(map)@) == with_pair(pair_texts(old(map)@), (key@, value@)),
{
    let ghost pairs = pair_texts(map@);
    let mut i: usize = 0;
    assert(pairs.take(0) + pairs.skip(0) =~= pairs);
    assert(pairs.take(0) + with_pair(pairs.skip(0), (key@, value@)) =~= with_pair(pairs, (key@, value@)));
    while i < map.len()
        invariant
            i <= map@.len(),
            map@ == old(map)@,
            pairs == pair_texts(map@),
            with_pair(pairs, (key@, value@)) == pairs.take(i as int) + with_pair(pairs.skip(i as int), (key@, value@)),
            forall|k: int| 0 <= k < i ==> (#[trigger] map@[k]).0@ != key@,
        decreases map@.len() - i,
    {
        let ghost rest = pairs.skip(i as int);
        proof {
            assert(rest[0] == pairs[i as int]);
        }
        if crate::names::strs_equal(map[i].0.as_str(), key.as_str()) {
            let ghost before = map@;
            map.set(i, (key, value));
            proof {
                assert(with_pair(rest, (key@, value@)) == rest.update(0, (key@, value@)));
                assert(pair_texts(map@) =~= pairs.take(i as int) + rest.update(0, (key@, value@)));
            }
            return;
        }
        proof {
            assert(rest.drop_first() =~= pairs.skip(i + 1));
            assert(pairs.take(i + 1) =~= pairs.take(i as int).push(pairs[i as int]));
            assert(pairs.take(i as int) + with_pair(rest, (key@, value@)) =~= pairs.take(i + 1) + with_pair(
                pairs.skip(i + 1),
                (key@, value@),
            ));
        }
        i = i + 1;
    }
    let ghost before = map@;
    map.push((key, value));
    proof {
        assert(pairs.skip(i as int).len() == 0);
        assert(pairs.take(i as int) =~= pairs);
        assert(pair_texts(map@) =~= pair_texts(before).push((key@, value@)));
    }
}

/// The pair of a valid mapping
fn split_mapping(mapping: &str) -> (r: (String, String))
    requires
        is_valid_mapping(mapping@),
    ensures
        (r.0@, r.1@) == mapping_pair(mapping@),
{
    proof {
        reveal_strlit("^([a-zA-Z]+)=([a-zA-Z]+)$");
    }
    let captures = regex_captures("^([a-zA-Z]+)=([a-zA-Z]+)$", mapping);
    let groups = match captures {
        Some(Some(groups)) => groups,
        _ => {
            proof {
                let k = choose|k: int| is_mapping_at(mapping@, k);
                assert(!is_mapping_at(mapping@, k));
            }
            return (String::new(), String::new());
        },
    };
    proof {
        let k = choose|k: int| is_mapping_at(mapping@, k) && #[trigger] group_texts(groups@) == seq![
            Some(mapping@),
            Some(mapping@.take(k)),
            Some(mapping@.skip(k + 1)),
        ];
        lemma_mapping_separator_unique(mapping@, k, separator_of(mapping@));
        assert(group_texts(groups@).len() == 3);
        assert(group_texts(groups@)[1] == Some(mapping@.take(k)));
        assert(group_texts(groups@)[2] == Some(mapping@.skip(k + 1)));
    }
    let key = match &groups[1] {
        Some(key) => key.clone(),
        None => String::new(),
    };
    let value = match &groups[2] {
        Some(value) => value.clone(),
        None => String::new(),
    };
    (key, value)
}

/// The map the mappings given on the command line make (each of the form
/// `xx=yy`, as the validator checked), the later ones winning
pub fn build_mappings(mappings: Option<Vec<String>>) -> (r: Vec<(String, String)>)
    requires
        mappings matches Some(v) ==> forall|i: int| 0 <= i < v@.len() ==> is_valid_mapping(#[trigger] v@[i]@),
    ensures
        match mappings {
            Some(v) => pair_texts(r@) == mappings_map(texts_of(v@)),
            None => r@.len() == 0,
        },
{
    let mut map: Vec<(String, String)> = Vec::new();
    match mappings {
        None => map,
        Some(values) => {
            let ghost texts = texts_of(values@);
            let mut i: usize = 0;
            assert(texts.take(0) =~= Seq::<Seq<char>>::empty());
            assert(pair_texts(map@) =~= Seq::<(Seq<char>, Seq<char>)>::empty());
            while i < values.len()
                invariant
                    i <= values@.len(),
                    texts == texts_of(values@),
                    forall|k: int| 0 <= k < values@.len() ==> is_valid_mapping(#[trigger] values@[k]@),
                    pair_texts(map@) == mappings_map(texts.take(i as int)),
                decreases values@.len() - i,
            {
                proof {
                    assert(texts.take(i + 1).drop_last() =~= texts.take(i as int));
                    assert(texts.take(i + 1).last() == values@[i as int]@);
                }
                let (key, value) = split_mapping(values[i].as_str());
                insert_pair(&mut map, key, value);
                i = i + 1;
            }
            assert(texts.take(i as int) =~= texts);
            map
        },
    }
}

/// The message for a missing argument
pub fn arg_missing_msg(arg_name: &str) -> (r: String)
    ensures
        r@ == arg_name@ + " arg is missing"@,
{
    let mut message = String::from_str(arg_name);
    message.append(" arg is missing");
    message
}

/// The message for a `res` directory that isn't there
pub fn invalid_res_dir_msg() -> (r: &'static str)
    ensures
        r@ == "Res dir path doesn't exist or it is not a directory"@,
{
    "Res dir path doesn't exist or it is not a directory"
}

/// The message for a mapping that the validator should have refused
pub fn invalid_mapping_validator_msg() -> (r: &'static str)
    ensures
        r@ == "Looks like mapping validator doesn't work!"@,
{
    "Looks like mapping validator doesn't work!"
}

/// What to print for the outcome of a command: on success the prefix & the
/// names of the files, one per line; on failure the error's text
pub fn exit_based_on_result(success_prefix: &str, result: Result<Vec<String>, String>) -> (r: Result<String, String>)
    ensures
        match (result, r) {
            (Ok(file_names), Ok(output)) => output@ == success_prefix@ + " - \n\n"@ + joined(texts_of(file_names@), "\n"@),
            (Err(error), Err(output)) => output@ == error@,
            _ => false,
        },
{
    match result {
        Ok(file_names) => {
            proof {
                reveal_strlit(" - \n\n");
                reveal_strlit("\n");
            }
            let mut output = String::from_str(success_prefix);
            output.append(" - \n\n");
            let ghost start = output@;
            let ghost texts = texts_of(file_names@);
            let mut i: usize = 0;
            while i < file_names.len()
                invariant
                    i <= file_names@.len(),
                    texts == texts_of(file_names@),
                    output@ == start + joined(texts.take(i as int), "\n"@),
                decreases file_names@.len() - i,
            {
                proof {
                    assert(texts.take(i + 1).drop_last() =~= texts.take(i as int));
                    assert(texts.take(i + 1).last() == file_names@[i as int]@);
                }
                if i > 0 {
                    output.append("\n");
                } else {
                    assert(texts.take(0) =~= Seq::<Seq<char>>::empty());
                }
                output.append(file_names[i].as_str());
                i = i + 1;
            }
            assert(texts.take(i as int) =~= texts);
            Ok(output)
        },
        Err(error) => Err(error),
    }
}

} // verus!
