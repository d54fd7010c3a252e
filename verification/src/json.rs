use crate::assoc::Assoc;
use std::collections::BTreeMap;
use std::collections::HashMap;
use vstd::prelude::*;

verus! {

/// The parser's and the serializer's error. Nothing is read from it.
#[verifier::external_type_specification]
#[verifier::external_body]
pub struct ExJsonError(serde_json::Error);

/// What `serde_json::from_str` makes of a text at the type of a map from
/// strings to strings: the map, or nothing where it reports an error.
pub uninterp spec fn json_string_map(text: Seq<char>) -> Option<Map<Seq<char>, Seq<char>>>;

/// What `serde_json::from_str` makes of a text at the type of a map from
/// strings to lists of strings.
pub uninterp spec fn json_list_map(text: Seq<char>) -> Option<Map<Seq<char>, Seq<Seq<char>>>>;

/// The text that `serde_json::to_string` writes for a map from strings to
/// strings whose keys it meets in ascending order.
pub uninterp spec fn string_map_json(m: Map<Seq<char>, Seq<char>>) -> Option<Seq<char>>;

/// The text that `serde_json::to_string` writes for a map from strings to
/// lists of strings whose keys it meets in ascending order.
pub uninterp spec fn list_map_json(m: Map<Seq<char>, Seq<Seq<char>>>) -> Option<Seq<char>>;

/// The text that `serde_json::to_string` writes for the array whose elements
/// are the given documents, each read with `serde_json::from_str`.
pub uninterp spec fn array_json(items: Seq<Seq<char>>) -> Option<Seq<char>>;

/// Calls `serde_json::from_str` for a `HashMap<String, String>` and lists the
/// entries of the map it built. Trusted: whether the parser accepts the text
/// and which map it builds depend on the text alone, and a map holds each key
/// once. The order of the entries is that of the hash map's walk, of which
/// nothing is claimed.
#[verifier::external_body]
pub(crate) fn parse_string_map(text: &str) -> (r: Result<Assoc<String>, serde_json::Error>)
    ensures
        match r {
            Ok(m) => m.wf() && json_string_map(text@) == Some(m@),
            Err(_) => json_string_map(text@) is None,
        },
{
    let parsed: HashMap<String, String> = serde_json::from_str(text)?;
    Ok(Assoc { entries: parsed.into_iter().collect() })
}

/// Calls `serde_json::from_str` for a `HashMap<String, Vec<String>>` and lists
/// the entries of the map it built. Trusted in the same way as the parser of
/// string maps.
#[verifier::external_body]
pub(crate) fn parse_list_map(text: &str) -> (r: Result<Assoc<Vec<String>>, serde_json::Error>)
    ensures
        match r {
            Ok(m) => m.wf() && json_list_map(text@) == Some(m@),
            Err(_) => json_list_map(text@) is None,
        },
{
    let parsed: HashMap<String, Vec<String>> = serde_json::from_str(text)?;
    Ok(Assoc { entries: parsed.into_iter().collect() })
}

/// Calls `serde_json::to_string` on the entries, handed over as a `BTreeMap`
/// of references so that the text does not depend on a hasher. Trusted: the
/// text depends on the mapping alone.
#[verifier::external_body]
pub(crate) fn write_string_map(m: &Assoc<String>) -> (r: Result<String, serde_json::Error>)
    requires
        m.wf(),
    ensures
        match r {
            Ok(s) => string_map_json(m@) == Some(s@),
            Err(_) => string_map_json(m@) is None,
        },
{
    let sorted: BTreeMap<&String, &String> = m.entries.iter().map(|e| (&e.0, &e.1)).collect();
    serde_json::to_string(&sorted)
}

/// Calls `serde_json::to_string` on the entries, handed over as a `BTreeMap`
/// of references. Trusted: the text depends on the mapping alone.
#[verifier::external_body]
pub(crate) fn write_list_map(m: &Assoc<Vec<String>>) -> (r: Result<String, serde_json::Error>)
    requires
        m.wf(),
    ensures
        match r {
            Ok(s) => list_map_json(m@) == Some(s@),
            Err(_) => list_map_json(m@) is None,
        },
{
    let sorted: BTreeMap<&String, &Vec<String>> = m.entries.iter().map(|e| (&e.0, &e.1)).collect();
    serde_json::to_string(&sorted)
}

/// Reads each document with `serde_json::from_str` as a `serde_json::Value`
/// and calls `serde_json::to_string` on the list of them. Trusted: the text
/// depends on the documents alone, and there is none where a document is not
/// JSON.
#[verifier::external_body]
pub(crate) fn write_array(items: &Vec<String>) -> (r: Result<String, serde_json::Error>)
    ensures
        match r {
            Ok(s) => array_json(items.deep_view()) == Some(s@),
            Err(_) => array_json(items.deep_view()) is None,
        },
{
    let mut values: Vec<serde_json::Value> = Vec::new();
    for item in items.iter() {
        values.push(serde_json::from_str(item)?);
    }
    serde_json::to_string(&values)
}

} // verus!
