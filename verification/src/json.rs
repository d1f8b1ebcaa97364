//! Reading JSON with `serde_json`.
//!
//! What a JSON text says is left to `serde_json`. Each function here reads a text
//! as one kind of value and names what comes of it; the text alone decides.
use std::collections::HashMap;
use vstd::prelude::*;

verus! {

/// The error of `serde_json`, which is only carried.
#[verifier::external_type_specification]
#[verifier::external_body]
pub struct ExSerdeJsonError(serde_json::Error);

/// The members of a JSON object: the JSON text of the value of each name. `None`
/// for a text that `serde_json` does not read as an object.
pub uninterp spec fn json_members_of(text: Seq<char>) -> Option<Map<Seq<char>, Seq<char>>>;

/// The JSON texts of the items of a JSON array. `None` for a text that `serde_json`
/// does not read as an array.
pub uninterp spec fn json_items_of(text: Seq<char>) -> Option<Seq<Seq<char>>>;

/// The text that a JSON string holds. `None` for a text that `serde_json` does not
/// read as a string.
pub uninterp spec fn json_string_of(text: Seq<char>) -> Option<Seq<char>>;

/// The numbers that a JSON array of numbers holds. `None` for a text that
/// `serde_json` does not read as an array of whole numbers from 0 to 2^64 - 1.
pub uninterp spec fn json_numbers_of(text: Seq<char>) -> Option<Seq<u64>>;

/// Whether `list` has the entries of `map`, each once, in some order.
pub open spec fn lists_map(list: Seq<(String, String)>, map: Map<Seq<char>, Seq<char>>) -> bool {
    &&& forall|i: int|
        0 <= i < list.len() ==> map.contains_key((#[trigger] list[i]).0@) && map[list[i].0@]
            == list[i].1@
    &&& forall|i: int, j: int|
        0 <= i < j < list.len() ==> (#[trigger] list[i]).0@ != (#[trigger] list[j]).0@
    &&& forall|name: Seq<char>| #[trigger]
        map.contains_key(name) ==> exists|i: int|
            0 <= i < list.len() && (#[trigger] list[i]).0@ == name
}

/// `serde_json::from_str` as a map from names to values, each value written out
/// again by `serde_json::Value::to_string`. It fails on what it does not read as a
/// JSON object. A name that comes twice has its later value. The order of the list is left open.
#[verifier::external_body]
pub(crate) fn json_members(text: &str) -> (r: Result<Vec<(String, String)>, serde_json::Error>)
    ensures
        match r {
            Ok(list) => json_members_of(text@) is Some && lists_map(
                list@,
                json_members_of(text@)->0,
            ),
            Err(_) => json_members_of(text@) is None,
        },
{
    let map: HashMap<String, serde_json::Value> = serde_json::from_str(text)?;
    Ok(map.into_iter().map(|(name, value)| (name, value.to_string())).collect())
}

/// `serde_json::from_str` as a list of values, each written out again by
/// `serde_json::Value::to_string`. It fails on what is no JSON array.
#[verifier::external_body]
pub(crate) fn json_items(text: &str) -> (r: Result<Vec<String>, serde_json::Error>)
    ensures
        match r {
            Ok(list) => json_items_of(text@) == Some(crate::text::texts(list@)),
            Err(_) => json_items_of(text@) is None,
        },
{
    let items: Vec<serde_json::Value> = serde_json::from_str(text)?;
    Ok(items.iter().map(|item| item.to_string()).collect())
}

/// `serde_json::from_str` as a string. It fails on what is no JSON string.
#[verifier::external_body]
pub(crate) fn json_string(text: &str) -> (r: Result<String, serde_json::Error>)
    ensures
        match r {
            Ok(s) => json_string_of(text@) == Some(s@),
            Err(_) => json_string_of(text@) is None,
        },
{
    serde_json::from_str(text)
}

/// `serde_json::from_str` as a list of numbers. It fails on what is no JSON array,
/// and on items that are not whole numbers from 0 to 2^64 - 1.
#[verifier::external_body]
pub(crate) fn json_numbers(text: &str) -> (r: Result<Vec<u64>, serde_json::Error>)
    ensures
        match r {
            Ok(list) => json_numbers_of(text@) == Some(list@),
            Err(_) => json_numbers_of(text@) is None,
        },
{
    serde_json::from_str(text)
}

} // verus!
