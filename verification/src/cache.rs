//! Capture-text cache: the raw text of selected syntax-tree nodes, keyed by
//! node identity.
//!
//! It is filled in one upfront pass, first write wins, and read-only
//! afterwards: query predicates test node text against it without
//! re-reading the input stream.

use vstd::prelude::*;

use std::collections::HashMap;

verus! {

broadcast use vstd::std_specs::hash::group_hash_axioms;

/// Maps a node's identity to the raw bytes of its span.
pub struct TextCache {
    map: HashMap<usize, Vec<u8>>,
}

impl TextCache {
    /// Whether the node's text has been cached.
    pub closed spec fn contains(&self, id: usize) -> bool {
        self.map@.contains_key(id)
    }

    /// The cached text of the node.
    pub closed spec fn text_at(&self, id: usize) -> Seq<u8> {
        self.map@[id]@
    }

    /// The empty cache.
    pub fn new() -> (c: TextCache)
        ensures
            forall|id: usize| !c.contains(id),
    {
        TextCache { map: HashMap::new() }
    }

    /// Whether the node's text has been cached.
    pub fn contains_key(&self, id: usize) -> (r: bool)
        ensures
            r == self.contains(id),
    {
        self.map.contains_key(&id)
    }

    /// Caches the node's text unless the node was seen before: the first
    /// write wins and later writes are no-ops. Returns whether the text
    /// was stored.
    pub fn insert_first(&mut self, id: usize, text: Vec<u8>) -> (inserted: bool)
        ensures
            inserted == !old(self).contains(id),
            final(self).contains(id),
            old(self).contains(id) ==> final(self).text_at(id) == old(self).text_at(id),
            !old(self).contains(id) ==> final(self).text_at(id) == text@,
            forall|j: usize| j != id ==> final(self).contains(j) == old(self).contains(j),
            forall|j: usize|
                j != id && old(self).contains(j) ==> final(self).text_at(j) == old(self).text_at(
                    j,
                ),
    {
        if self.map.contains_key(&id) {
            false
        } else {
            self.map.insert(id, text);
            true
        }
    }

    /// The cached text of a node, if any.
    pub fn get(&self, id: usize) -> (r: Option<&Vec<u8>>)
        ensures
            match r {
                Some(v) => self.contains(id) && v@ == self.text_at(id),
                None => !self.contains(id),
            },
    {
        self.map.get(&id)
    }
}

} // verus!
