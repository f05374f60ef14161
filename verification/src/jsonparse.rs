//! Calls into `serde_json` for maps of strings and `dockerconfigjson` documents.
use vstd::prelude::*;
use crate::strmap::{keys_sorted, pairs_of};
use std::collections::BTreeMap;

verus! {

/// What `serde_json::to_string` writes for the `BTreeMap<String, String>`
/// holding the pairs `p`.
pub uninterp spec fn json_string_map_text(p: Seq<(Seq<char>, Seq<char>)>) -> Seq<char>;

/// `serde_json::to_string` of the `BTreeMap<String, String>` holding `pairs`
/// (already in ascending key order, so the map holds exactly them). Writing a
/// map with string keys cannot fail. Beyond naming the text, the contract
/// states one fact of serde_json: what it writes for a map of strings,
/// `serde_json::from_str` reads back as that map.
#[verifier::external_body]
pub(crate) fn write_string_map(pairs: &Vec<(String, String)>) -> (s: String)
    requires
        keys_sorted(pairs_of(pairs@)),
    ensures
        s@ == json_string_map_text(pairs_of(pairs@)),
        json_string_map(s@) == Some(pairs_of(pairs@)),
{
    let m: BTreeMap<String, String> = pairs.iter().cloned().collect();
    serde_json::to_string(&m).expect("a map with string keys serializes")
}

/// What `serde_json::from_str::<BTreeMap<String, String>>` gives for `text`:
/// the map's pairs in ascending key order, or `None` when `text` is not a JSON
/// object whose values are all strings.
pub uninterp spec fn json_string_map(text: Seq<char>) -> Option<Seq<(Seq<char>, Seq<char>)>>;

/// Parses `text` as a JSON object of strings (`serde_json::from_str` into a
/// `BTreeMap<String, String>`), with the pairs in the map's key order.
///
/// Beyond naming the result, the contract states one fact of serde_json: what
/// `serde_json::to_string` writes for a map of strings reads back as that map.
#[verifier::external_body]
pub(crate) fn parse_string_map(text: &str) -> (r: Option<Vec<(String, String)>>)
    ensures
        r is Some == json_string_map(text@) is Some,
        r matches Some(v) ==> pairs_of(v@) == json_string_map(text@)->0,
        r matches Some(v) ==> forall|p: Seq<(Seq<char>, Seq<char>)>|
            keys_sorted(p) && text@ == #[trigger] json_string_map_text(p) ==> pairs_of(v@) == p,
        r is None ==> forall|p: Seq<(Seq<char>, Seq<char>)>|
            !(keys_sorted(p) && text@ == #[trigger] json_string_map_text(p)),
{
    serde_json::from_str::<BTreeMap<String, String>>(text).ok().map(|m| m.into_iter().collect())
}

/// The three optional string fields of a `dockerconfigjson` entry: `auth`,
/// `username`, `password` (each `None` when absent or not a string).
pub type AuthFields = (Option<String>, Option<String>, Option<String>);

/// What reading the `auths` object of a `dockerconfigjson` document gives:
/// for each member in key order, its key and the three fields; `None` when
/// the bytes are not JSON or `auths` is not an object.
pub uninterp spec fn dockerconfig_entries(raw: Seq<u8>) -> Option<
    Seq<(Seq<char>, (Option<Seq<char>>, Option<Seq<char>>, Option<Seq<char>>))>,
>;

pub open spec fn fields_view(f: AuthFields) -> (Option<Seq<char>>, Option<Seq<char>>, Option<Seq<char>>) {
    (
        match f.0 {
            Some(s) => Some(s@),
            None => None,
        },
        match f.1 {
            Some(s) => Some(s@),
            None => None,
        },
        match f.2 {
            Some(s) => Some(s@),
            None => None,
        },
    )
}

pub open spec fn entries_view(v: Seq<(String, AuthFields)>) -> Seq<
    (Seq<char>, (Option<Seq<char>>, Option<Seq<char>>, Option<Seq<char>>)),
> {
    v.map_values(|e: (String, AuthFields)| (e.0@, fields_view(e.1)))
}

/// Reads the `auths` members of a `dockerconfigjson` document
/// (`serde_json::from_slice` into a `Value`, then `.get("auths")` as an object).
#[verifier::external_body]
pub(crate) fn dockerconfig_auths(raw: &[u8]) -> (r: Option<Vec<(String, AuthFields)>>)
    ensures
        r is Some == dockerconfig_entries(raw@) is Some,
        r matches Some(v) ==> entries_view(v@) == dockerconfig_entries(raw@)->0,
{
    let v: serde_json::Value = serde_json::from_slice(raw).ok()?;
    let auths = v.get("auths")?.as_object()?;
    let field = |e: &serde_json::Value, k: &str| e.get(k).and_then(|x| x.as_str()).map(String::from);
    Some(auths.iter().map(|(h, e)| (h.clone(), (field(e, "auth"), field(e, "username"), field(e, "password")))).collect())
}

} // verus!
