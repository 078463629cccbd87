//! The insertion-ordered payload map of a header: batch digest to
//! (worker, timestamp).
//!
//! The map is held in an outside insertion-ordered container; its contents
//! are exposed to the proofs as a sequence of entries in insertion order,
//! which is part of the signed image of a header.

use vstd::prelude::*;

use crate::crypto::BatchDigest;

verus! {

/// The insertion-ordered payload of a header. The entries (in insertion
/// order) are given by [`payload_entries`]; keys are unique whenever the map
/// was built from [`PayloadMap::new`] and [`PayloadMap::insert`] alone,
/// which [`payload_keys_unique`] captures.
#[verifier::external_body]
pub struct PayloadMap {
    map: indexmap::IndexMap<BatchDigest, (u32, u64)>,
}

/// The entries of a payload map in insertion order: for each, the digest
/// bytes of the batch and its (worker, created-at timestamp) pair.
pub uninterp spec fn payload_entries(m: PayloadMap) -> Seq<(Seq<u8>, (u32, u64))>;

/// Index of the first entry with the given key, or -1 if none.
pub open spec fn payload_key_index(s: Seq<(Seq<u8>, (u32, u64))>, k: Seq<u8>) -> int
    decreases s.len(),
{
    if s.len() == 0 {
        -1
    } else if s[0].0 == k {
        0
    } else {
        let r = payload_key_index(s.subrange(1, s.len() as int), k);
        if r < 0 {
            -1
        } else {
            r + 1
        }
    }
}

/// Whether some entry has the given key.
pub open spec fn payload_has_key(s: Seq<(Seq<u8>, (u32, u64))>, k: Seq<u8>) -> bool {
    exists|i: int| 0 <= i < s.len() && s[i].0 == k
}

/// No two entries share a key.
pub open spec fn payload_keys_unique(s: Seq<(Seq<u8>, (u32, u64))>) -> bool {
    forall|i: int, j: int| 0 <= i < j < s.len() ==> s[i].0 != s[j].0
}

pub proof fn lemma_payload_key_index(s: Seq<(Seq<u8>, (u32, u64))>, k: Seq<u8>)
    ensures
        payload_key_index(s, k) >= 0 ==> {
            &&& payload_key_index(s, k) < s.len()
            &&& s[payload_key_index(s, k)].0 == k
            &&& forall|j: int| 0 <= j < payload_key_index(s, k) ==> s[j].0 != k
        },
        payload_key_index(s, k) < 0 ==> forall|j: int| 0 <= j < s.len() ==> s[j].0 != k,
        (payload_key_index(s, k) >= 0) == payload_has_key(s, k),
    decreases s.len(),
{
    if s.len() > 0 && s[0].0 != k {
        lemma_payload_key_index(s.subrange(1, s.len() as int), k);
        assert forall|j: int| 1 <= j < s.len() implies s[j] == s.subrange(
            1,
            s.len() as int,
        )[j - 1] by {}
        if payload_key_index(s, k) < 0 {
        } else {
            assert(s[payload_key_index(s, k)].0 == k);
        }
    }
}

impl PayloadMap {
    /// Relies on indexmap's `IndexMap::new`: an empty map.
    #[verifier::external_body]
    pub fn new() -> (r: PayloadMap)
        ensures
            payload_entries(r) == Seq::<(Seq<u8>, (u32, u64))>::empty(),
    {
        PayloadMap { map: indexmap::IndexMap::new() }
    }

    /// Relies on indexmap's `IndexMap::insert`: a present key keeps its
    /// position and has its value replaced; a new key is appended.
    #[verifier::external_body]
    pub fn insert(&mut self, digest: BatchDigest, worker: u32, created_at: u64)
        ensures
            payload_has_key(payload_entries(*old(self)), digest@) ==> payload_entries(
                *final(self),
            ) == payload_entries(*old(self)).update(
                payload_key_index(payload_entries(*old(self)), digest@),
                (digest@, (worker, created_at)),
            ),
            !payload_has_key(payload_entries(*old(self)), digest@) ==> payload_entries(
                *final(self),
            ) == payload_entries(*old(self)).push((digest@, (worker, created_at))),
    {
        self.map.insert(digest, (worker, created_at));
    }

    /// Relies on indexmap's `IndexMap::len`.
    #[verifier::external_body]
    pub fn len(&self) -> (r: usize)
        ensures
            r == payload_entries(*self).len(),
    {
        self.map.len()
    }

    /// Relies on indexmap's `IndexMap::is_empty`.
    #[verifier::external_body]
    pub fn is_empty(&self) -> (r: bool)
        ensures
            r == (payload_entries(*self).len() == 0),
    {
        self.map.is_empty()
    }

    /// Relies on indexmap's `IndexMap::contains_key`.
    #[verifier::external_body]
    pub fn contains_key(&self, digest: &BatchDigest) -> (r: bool)
        ensures
            r == payload_has_key(payload_entries(*self), digest@),
    {
        self.map.contains_key(digest)
    }

    /// Relies on indexmap's iteration order: the entries in insertion order.
    #[verifier::external_body]
    pub fn entries(&self) -> (r: Vec<(BatchDigest, (u32, u64))>)
        ensures
            r@.len() == payload_entries(*self).len(),
            forall|i: int|
                0 <= i < r@.len() ==> r@[i].0@ == payload_entries(*self)[i].0 && r@[i].1
                    == payload_entries(*self)[i].1,
    {
        self.map.iter().map(|(k, v)| (*k, *v)).collect()
    }
}

} // verus!
