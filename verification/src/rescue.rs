//! Annotations of the auto-rescue controller, and the `original-image` map it
//! records on rescued pods.
use vstd::prelude::*;
use crate::jsonparse::{parse_string_map, json_string_map, json_string_map_text, write_string_map};
use crate::strmap::{StrMap, keys_sorted, pairs_map, pairs_of};

verus! {

/// Opt-in: only pods with this set to `"true"` are rescued.
pub const AUTO_RESCUE: &'static str = "stubby.io/auto-rescue";

/// JSON object `{container_name: original_image}` recorded when stubbing.
pub const ORIGINAL_IMAGE: &'static str = "stubby.io/original-image";

/// RFC 3339 time of the latest stub action.
pub const RESCUED_AT: &'static str = "stubby.io/rescued-at";

/// Dummy type hint, as for the webhook: `backend` (default) or `frontend`.
pub const TYPE: &'static str = "stubby.io/type";

/// The map an `original-image` annotation holds: empty when the annotation
/// is absent or is not a JSON object of strings.
pub open spec fn decoded_originals(raw: Option<Seq<char>>) -> Map<Seq<char>, Seq<char>> {
    match raw {
        None => Map::empty(),
        Some(t) => match json_string_map(t) {
            None => Map::empty(),
            Some(p) => pairs_map(p),
        },
    }
}

/// Serializes the container-to-original-image map for the [`ORIGINAL_IMAGE`]
/// annotation with `serde_json`: a compact JSON object with the keys in
/// ascending order, so patches are stable.
pub fn encode_original_images(map: &StrMap<String>) -> (s: String)
    ensures
        s@ == json_string_map_text(map.pairs()),
        keys_sorted(map.pairs()),
        map@ == pairs_map(map.pairs()),
        json_string_map(s@) == Some(map.pairs()),
        decoded_originals(Some(s@)) == map@,
{
    let entries = map.entries();
    let mut pairs: Vec<(String, String)> = Vec::new();
    let mut i: usize = 0;
    while i < entries.len()
        invariant
            i <= entries@.len(),
            pairs_of(entries@) == map.pairs(),
            pairs_of(pairs@) == map.pairs().take(i as int),
        decreases entries@.len() - i,
    {
        let k = entries[i].0.clone();
        let v = entries[i].1.clone();
        let ghost before = pairs@;
        pairs.push((k, v));
        proof {
            assert(pairs@ == before.push((k, v)));
            assert(map.pairs()[i as int] == (entries@[i as int].0@, entries@[i as int].1@));
            assert(pairs_of(pairs@) =~= pairs_of(before).push((k@, v@)));
            assert(pairs_of(pairs@) =~= map.pairs().take(i + 1));
        }
        i += 1;
    }
    assert(map.pairs().take(i as int) =~= map.pairs());
    write_string_map(&pairs)
}

/// Reads an [`ORIGINAL_IMAGE`] annotation. Anything absent or malformed gives
/// an empty map, and the pod counts as not rescued.
///
/// What [`encode_original_images`] writes reads back as the same map.
pub fn decode_original_images(raw: Option<&String>) -> (m: StrMap<String>)
    ensures
        m@ == decoded_originals(match raw {
            Some(s) => Some(s@),
            None => None,
        }),
        forall|p: Seq<(Seq<char>, Seq<char>)>|
            raw matches Some(s) && keys_sorted(p) && s@ == #[trigger] json_string_map_text(p)
                ==> m@ == pairs_map(p),
{
    let mut m: StrMap<String> = StrMap::new();
    let text = match raw {
        Some(t) => t,
        None => return m,
    };
    let pairs = match parse_string_map(text.as_str()) {
        Some(p) => p,
        None => return m,
    };
    let ghost pv = pairs_of(pairs@);
    let mut i: usize = 0;
    while i < pairs.len()
        invariant
            i <= pairs@.len(),
            pv == pairs_of(pairs@),
            m@ == pairs_map(pv.take(i as int)),
        decreases pairs@.len() - i,
    {
        let k = pairs[i].0.clone();
        let v = pairs[i].1.clone();
        m.insert(k, v);
        proof {
            assert(pv.take(i + 1).drop_last() =~= pv.take(i as int));
            assert(pv[i as int] == (pairs@[i as int].0@, pairs@[i as int].1@));
        }
        i += 1;
    }
    assert(pv.take(i as int) =~= pv);
    m
}

} // verus!
