//! Saved key bindings as they are stored in a tmux option: a JSON object from
//! key to the tmux command that binds it.

use crate::text_map;
use std::collections::BTreeMap;
use vstd::prelude::*;

verus! {

/// The JSON object of a map of strings.
pub uninterp spec fn json_text(map: Map<Seq<char>, Seq<char>>) -> Seq<char>;

/// The map of strings that a JSON text gives, if it gives one.
pub uninterp spec fn json_map(bytes: Seq<u8>) -> Option<Map<Seq<char>, Seq<char>>>;

/// `serde_json::to_string` on an ordered map of strings, which never fails.
/// The text is a function of the map, here named `json_text`, and with a newline
/// behind it reads back as the map. How the text looks is left to that name.
#[verifier::external_body]
pub(crate) fn to_json(items: &Vec<(String, String)>) -> (res: String)
    requires
        text_map::ascending(text_map::entries_view(items@)),
    ensures
        res@ == json_text(text_map::map_of(text_map::entries_view(items@))),
        json_map(vstd::utf8::encode_utf8(res@.push('\n'))) == Some(
            text_map::map_of(text_map::entries_view(items@)),
        ),
{
    let map: BTreeMap<&str, &str> = items.iter().map(|e| (e.0.as_str(), e.1.as_str())).collect();
    serde_json::to_string(&map).expect("a map of strings serializes")
}

/// `serde_json::from_slice` to an ordered map of strings. Whether the bytes
/// give a map, and which, is a function of the bytes, here named `json_map`;
/// its entries come in the order of their keys, each key once.
#[verifier::external_body]
pub(crate) fn from_json(bytes: &[u8]) -> (res: Option<Vec<(String, String)>>)
    ensures
        match res {
            Some(items) => text_map::ascending(text_map::entries_view(items@)) && json_map(bytes@)
                == Some(text_map::map_of(text_map::entries_view(items@))),
            None => json_map(bytes@) is None,
        },
{
    let parsed: Result<BTreeMap<String, String>, serde_json::Error> = serde_json::from_slice(bytes);
    match parsed {
        Ok(map) => Some(map.into_iter().collect()),
        Err(_) => None,
    }
}

} // verus!
