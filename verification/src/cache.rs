//! The cache of line maps, keyed by extension, content hash and test policy.

use std::collections::hash_map::RandomState;
use dashmap::DashMap;
use vstd::prelude::*;
use crate::block::CachedInfoView;
use crate::block::CachedNodeInfo;
use crate::block::line_map_view;

verus! {

/// `dashmap::DashMap`: a concurrent hash map. Its values are looked into
/// through `cache_contents` alone.
#[verifier::external_type_specification]
#[verifier::external_body]
#[verifier::reject_recursive_types(K)]
#[verifier::reject_recursive_types(V)]
#[verifier::reject_recursive_types(S)]
pub struct ExDashMap<K, V, S>(DashMap<K, V, S>);

/// What a `DashMap` of line maps holds: for each key, the value of the line
/// map stored under it.
pub uninterp spec fn cache_contents(
    map: DashMap<(String, u64, bool), Vec<Option<CachedNodeInfo>>, RandomState>,
) -> Map<(Seq<char>, u64, bool), Seq<Option<CachedInfoView>>>;

/// The contents of a cache that holds nothing.
pub open spec fn no_line_maps() -> Map<(Seq<char>, u64, bool), Seq<Option<CachedInfoView>>> {
    Map::empty()
}

/// The value of a cache key.
pub open spec fn key_view(key: (String, u64, bool)) -> (Seq<char>, u64, bool) {
    (key.0@, key.1, key.2)
}

/// `DashMap::new`: a map that holds nothing.
#[verifier::external_body]
fn dashmap_new() -> (made: DashMap<(String, u64, bool), Vec<Option<CachedNodeInfo>>, RandomState>)
    ensures
        cache_contents(made) == no_line_maps(),
{
    DashMap::new()
}

/// `DashMap::get`, with the value found copied out: a copy of the line map
/// stored under the key, or nothing if the map has no such key.
#[verifier::external_body]
fn dashmap_get(
    map: &DashMap<(String, u64, bool), Vec<Option<CachedNodeInfo>>, RandomState>,
    key: &(String, u64, bool),
) -> (found: Option<Vec<Option<CachedNodeInfo>>>)
    ensures
        match found {
            Some(line_map) => cache_contents(*map).contains_key(key_view(*key)) && line_map_view(
                line_map@,
            ) == cache_contents(*map)[key_view(*key)],
            None => !cache_contents(*map).contains_key(key_view(*key)),
        },
{
    map.get(key).map(|entry| entry.value().clone())
}

/// `DashMap::insert`: afterwards the map holds the line map under the key,
/// in place of what the key held before, and every other key as before.
#[verifier::external_body]
fn dashmap_insert(
    map: &mut DashMap<(String, u64, bool), Vec<Option<CachedNodeInfo>>, RandomState>,
    key: (String, u64, bool),
    line_map: Vec<Option<CachedNodeInfo>>,
)
    ensures
        cache_contents(*final(map)) == cache_contents(*old(map)).insert(
            key_view(key),
            line_map_view(line_map@),
        ),
{
    map.insert(key, line_map);
}

/// A cache of line maps. The key of a line map is the extension of the file,
/// the hash of its content and whether tests were allowed.
pub struct LineMapCache {
    map: DashMap<(String, u64, bool), Vec<Option<CachedNodeInfo>>, RandomState>,
}

impl View for LineMapCache {
    type V = Map<(Seq<char>, u64, bool), Seq<Option<CachedInfoView>>>;

    closed spec fn view(&self) -> Self::V {
        cache_contents(self.map)
    }
}

impl LineMapCache {
    /// A cache that holds nothing.
    pub fn new() -> (cache: LineMapCache)
        ensures
            cache@ == no_line_maps(),
    {
        LineMapCache { map: dashmap_new() }
    }

    /// Looks up the line map stored under a key.
    pub fn get(&self, extension: &str, content_hash: u64, allow_tests: bool) -> (found: Option<
        Vec<Option<CachedNodeInfo>>,
    >)
        ensures
            match found {
                Some(line_map) => self@.contains_key((extension@, content_hash, allow_tests))
                    && line_map_view(line_map@) == self@[(extension@, content_hash, allow_tests)],
                None => !self@.contains_key((extension@, content_hash, allow_tests)),
            },
    {
        let key = (extension.to_owned(), content_hash, allow_tests);
        dashmap_get(&self.map, &key)
    }

    /// Stores a line map under a key, in place of what the key held before.
    pub fn insert(
        &mut self,
        extension: &str,
        content_hash: u64,
        allow_tests: bool,
        line_map: Vec<Option<CachedNodeInfo>>,
    )
        ensures
            final(self)@ == old(self)@.insert(
                (extension@, content_hash, allow_tests),
                line_map_view(line_map@),
            ),
    {
        let key = (extension.to_owned(), content_hash, allow_tests);
        dashmap_insert(&mut self.map, key, line_map);
    }
}

} // verus!
