//! The cache of discovered repositories: a JSON list of path strings.
use vstd::prelude::*;
use crate::scanner::{texts, DiscoveredSet};

verus! {

/// The list of paths that JSON text holds, if it is a list of strings.
pub uninterp spec fn json_path_list(bytes: Seq<u8>) -> Option<Seq<Seq<char>>>;

/// The JSON text of a list of paths.
pub uninterp spec fn json_of_path_list(paths: Seq<Seq<char>>) -> Seq<u8>;

/// Relies on `serde_json::from_slice::<Vec<String>>`: reads JSON text as a
/// list of strings, failing on anything else.
#[verifier::external_body]
fn decode_path_list(bytes: &[u8]) -> (r: Option<Vec<String>>)
    ensures
        r is Some <==> json_path_list(bytes@) is Some,
        r matches Some(v) ==> json_path_list(bytes@) == Some(texts(v@)),
{
    match serde_json::from_slice::<Vec<String>>(bytes) {
        Ok(v) => Some(v),
        Err(_) => None,
    }
}

/// Relies on `serde_json::to_vec`: writes a list of strings as JSON text.
/// It fails only where a `Serialize` impl fails or a map has a key that is
/// not a string, neither of which a list of strings has.
#[verifier::external_body]
fn encode_path_list(paths: &Vec<String>) -> (r: Option<Vec<u8>>)
    ensures
        r is Some,
        r matches Some(b) ==> b@ == json_of_path_list(texts(paths@)),
{
    match serde_json::to_vec(paths) {
        Ok(b) => Some(b),
        Err(_) => None,
    }
}

/// The repositories to use from the cache instead of walking: none when a
/// rescan is forced or there is no cache file; otherwise the list that the
/// file holds, as it stands, or none where it is not a JSON list of strings.
pub fn cached_repositories(force_rescan: bool, cache_bytes: Option<&[u8]>) -> (r: Option<
    Vec<String>,
>)
    ensures
        force_rescan ==> r is None,
        cache_bytes is None ==> r is None,
        !force_rescan && cache_bytes is Some ==> (r is Some <==> json_path_list(
            cache_bytes.unwrap()@,
        ) is Some),
        r matches Some(v) ==> !force_rescan && cache_bytes is Some && json_path_list(
            cache_bytes.unwrap()@,
        ) == Some(texts(v@)),
{
    if force_rescan {
        return None;
    }
    match cache_bytes {
        Some(b) => decode_path_list(b),
        None => None,
    }
}

impl DiscoveredSet {
    /// The cache file's contents for this set.
    pub fn to_cache_bytes(&self) -> (r: Vec<u8>)
        ensures
            r@ == json_of_path_list(self@),
    {
        let paths = self.paths();
        match encode_path_list(&paths) {
            Some(b) => b,
            None => Vec::new(),
        }
    }
}

} // verus!
