//! Node metadata: a JSON object of `serde_json`, seen through its entries.

use vstd::prelude::*;

verus! {

#[verifier::external_type_specification]
#[verifier::external_body]
pub struct ExJsonValue(serde_json::Value);

#[verifier::external_type_specification]
#[verifier::external_body]
#[verifier::reject_recursive_types(K)]
#[verifier::reject_recursive_types(V)]
pub struct ExJsonMap<K, V>(serde_json::Map<K, V>);

/// The entries of a JSON object, by key.
pub uninterp spec fn json_entries(m: serde_json::Map<String, serde_json::Value>) -> Map<
    Seq<char>,
    serde_json::Value,
>;

/// The JSON string holding the given text.
pub uninterp spec fn json_text(s: Seq<char>) -> serde_json::Value;

/// The JSON number holding the given count.
pub uninterp spec fn json_count(n: usize) -> serde_json::Value;

/// Relies on `serde_json::Map::new`: an object with no entries.
pub assume_specification[ serde_json::Map::<String, serde_json::Value>::new ]() -> (r: serde_json::Map<String, serde_json::Value>)
    ensures
        json_entries(r).dom() == Set::<Seq<char>>::empty(),
;

/// Relies on `serde_json::Map::insert`: the key maps to the value afterwards,
/// every other entry is kept, and the previous value of the key is returned.
pub assume_specification[ serde_json::Map::<String, serde_json::Value>::insert ](
    m: &mut serde_json::Map<String, serde_json::Value>,
    k: String,
    v: serde_json::Value,
) -> (r: Option<serde_json::Value>)
    ensures
        json_entries(*final(m)) == json_entries(*old(m)).insert(k@, v),
        r == (if json_entries(*old(m)).contains_key(k@) {
            Some(json_entries(*old(m))[k@])
        } else {
            None
        }),
;

/// Relies on `impl From<String> for serde_json::Value`: a JSON string of the text.
pub assume_specification[ <serde_json::Value as core::convert::From<String>>::from ](
    s: String,
) -> (r: serde_json::Value)
    ensures
        r == json_text(s@),
;

/// Relies on `impl From<usize> for serde_json::Value`: a JSON number of the count.
pub assume_specification[ <serde_json::Value as core::convert::From<usize>>::from ](
    n: usize,
) -> (r: serde_json::Value)
    ensures
        r == json_count(n),
;

/// The entries of the JSON object that a text holds, or `None` when the text
/// is not a JSON object.
pub uninterp spec fn json_object_of(text: Seq<char>) -> Option<Map<Seq<char>, serde_json::Value>>;

/// Relies on `serde_json::from_str` into a `serde_json::Map`: the object the
/// text holds, or an error when it holds none.
#[verifier::external_body]
fn parse_object(text: &str) -> (r: Option<serde_json::Map<String, serde_json::Value>>)
    ensures
        match r {
            Some(m) => json_object_of(text@) == Some(json_entries(m)),
            None => json_object_of(text@) is None,
        },
{
    serde_json::from_str::<serde_json::Map<String, serde_json::Value>>(text).ok()
}

/// Node metadata from its stored text: the object the text holds; missing
/// or malformed metadata is an empty object.
pub fn read_metadata(text: Option<&str>) -> (r: serde_json::Map<String, serde_json::Value>)
    ensures
        json_entries(r).dom() == match text {
            Some(t) => match json_object_of(t@) {
                Some(e) => e.dom(),
                None => Set::empty(),
            },
            None => Set::empty(),
        },
        forall|k: Seq<char>|
            #[trigger] json_entries(r).contains_key(k) ==> (text matches Some(t) && json_object_of(t@) matches Some(
                e,
            ) && json_entries(r)[k] == e[k]),
{
    match text {
        Some(t) => match parse_object(t) {
            Some(m) => m,
            None => serde_json::Map::new(),
        },
        None => serde_json::Map::new(),
    }
}

} // verus!
