//! Headers: authored round-nodes of the DAG referencing batches and parent
//! certificates.
//!
//! A header's digest is the hash of its canonical serialization without the
//! digest cache; the cache is filled at construction and recomputation is
//! byte-identical.

use vstd::prelude::*;

use crate::codec::{
    append_digest, decode_uint_le, decode_uleb, encode_uint_le, encode_uleb, le_bytes,
    lemma_concat_split, lemma_le_bytes_len, lemma_le_roundtrip, lemma_pow256_8,
    lemma_uleb_roundtrip, parse_le_val, parse_uleb, pow256, uleb,
};
use crate::committee::{AuthorityIdentifier, Committee, WorkerCache};
use crate::crypto::{blake2b256, blake2b_of, BatchDigest, CertificateDigest, HeaderDigest};
use crate::error::{DagError, DagResult};
use crate::payload::{
    payload_entries, payload_has_key, payload_key_index, payload_keys_unique, PayloadMap,
};
use crate::time::now;
use crate::{Epoch, Round, TimestampMs, WorkerId};

verus! {

/// Strict lexicographic order on byte strings.
pub open spec fn bytes_lt(a: Seq<u8>, b: Seq<u8>) -> bool
    decreases a.len(),
{
    if b.len() == 0 {
        false
    } else if a.len() == 0 {
        true
    } else if a[0] < b[0] {
        true
    } else if a[0] > b[0] {
        false
    } else {
        bytes_lt(a.subrange(1, a.len() as int), b.subrange(1, b.len() as int))
    }
}

/// Parents in strictly ascending digest order: the canonical rendering of a
/// set of parent certificate digests.
pub open spec fn parents_sorted(s: Seq<CertificateDigest>) -> bool {
    forall|i: int, j: int| 0 <= i < j < s.len() ==> bytes_lt(s[i]@, s[j]@)
}

/// Every payload key is a 32-byte digest.
pub open spec fn payload_keys_are_digests(s: Seq<(Seq<u8>, (u32, u64))>) -> bool {
    forall|i: int| 0 <= i < s.len() ==> s[i].0.len() == 32
}

/// One payload entry on the wire: the batch digest, the worker, the
/// timestamp.
pub open spec fn ser_payload_entry(e: (Seq<u8>, (u32, u64))) -> Seq<u8> {
    e.0 + le_bytes(e.1.0 as nat, 4) + le_bytes(e.1.1 as nat, 8)
}

/// The payload entries in insertion order, without the count prefix.
pub open spec fn ser_payload_seq(s: Seq<(Seq<u8>, (u32, u64))>) -> Seq<u8>
    decreases s.len(),
{
    if s.len() == 0 {
        Seq::empty()
    } else {
        ser_payload_entry(s[0]) + ser_payload_seq(s.subrange(1, s.len() as int))
    }
}

/// The parent digests in order, without the count prefix.
pub open spec fn ser_digest_seq(s: Seq<Seq<u8>>) -> Seq<u8>
    decreases s.len(),
{
    if s.len() == 0 {
        Seq::empty()
    } else {
        s[0] + ser_digest_seq(s.subrange(1, s.len() as int))
    }
}

/// The canonical serialization of a header's signed image: author, round,
/// epoch, creation time, payload entries in insertion order, parent digests
/// in order. The digest cache is excluded.
pub open spec fn ser_header_body(
    author: u16,
    round: u64,
    epoch: u64,
    created_at: u64,
    payload: Seq<(Seq<u8>, (u32, u64))>,
    parents: Seq<Seq<u8>>,
) -> Seq<u8> {
    le_bytes(author as nat, 2) + le_bytes(round as nat, 8) + le_bytes(epoch as nat, 8) + le_bytes(
        created_at as nat,
        8,
    ) + uleb(payload.len()) + ser_payload_seq(payload) + uleb(parents.len()) + ser_digest_seq(
        parents,
    )
}

/// A header in its first shape. The `digest` field caches the header's own
/// digest; it is excluded from the serialized image, filled once by the
/// construction paths, and left alone afterwards. A header whose cache
/// disagrees with its fields (only the test-oriented mutators can produce
/// one) fails `validate`.
pub struct HeaderV1 {
    pub author: AuthorityIdentifier,
    pub round: Round,
    pub epoch: Epoch,
    pub created_at: TimestampMs,
    pub payload: PayloadMap,
    pub parents: Vec<CertificateDigest>,
    pub digest: Option<HeaderDigest>,
}

impl HeaderV1 {
    /// The canonical serialization of this header without the cache.
    pub open spec fn spec_serialized(&self) -> Seq<u8> {
        ser_header_body(
            self.author.0,
            self.round,
            self.epoch,
            self.created_at,
            payload_entries(self.payload),
            self.parents@.map_values(|d: CertificateDigest| d@),
        )
    }

    /// The digest this header must carry: the hash of its canonical
    /// serialization.
    pub open spec fn spec_computed_digest(&self) -> Seq<u8> {
        blake2b_of(self.spec_serialized())
    }

    /// What `digest()` returns: the cache when set, the recomputation
    /// otherwise.
    pub open spec fn spec_digest(&self) -> Seq<u8> {
        match self.digest {
            Some(d) => d@,
            None => self.spec_computed_digest(),
        }
    }

    /// The digest cache, as stored.
    pub open spec fn spec_cache(&self) -> Option<HeaderDigest> {
        self.digest
    }

    /// The cache, when set, holds exactly the recomputed digest. All
    /// construction paths establish this.
    pub open spec fn digest_wf(&self) -> bool {
        self.digest is Some ==> self.digest.unwrap()@ == self.spec_computed_digest()
    }

    /// Payload and parents are structurally sound: unique 32-byte payload
    /// keys, parents strictly ordered.
    pub open spec fn wf(&self) -> bool {
        &&& payload_keys_unique(payload_entries(self.payload))
        &&& payload_keys_are_digests(payload_entries(self.payload))
        &&& parents_sorted(self.parents@)
    }

    /// Assemble a header; the creation time is the current wall clock and
    /// the digest cache is filled immediately.
    pub fn new(
        author: AuthorityIdentifier,
        round: Round,
        epoch: Epoch,
        payload: PayloadMap,
        parents: Vec<CertificateDigest>,
    ) -> (r: HeaderV1)
        ensures
            r.author == author,
            r.round == round,
            r.epoch == epoch,
            payload_entries(r.payload) == payload_entries(payload),
            r.parents@ == parents@,
            r.digest_wf(),
            r.spec_cache() is Some,
    {
        let mut h = HeaderV1 {
            author,
            round,
            epoch,
            created_at: now(),
            payload,
            parents,
            digest: None,
        };
        let d = h.compute_digest();
        h.digest = Some(d);
        h
    }

    /// Recompute the digest from the canonical serialization, ignoring the
    /// cache.
    pub fn compute_digest(&self) -> (r: HeaderDigest)
        ensures
            r@ == self.spec_computed_digest(),
    {
        let bytes = self.serialized();
        HeaderDigest::new(blake2b256(bytes.as_slice()))
    }

    /// The digest of this header: the cached value when present, the
    /// recomputation otherwise. On any header whose cache is sound this is
    /// the hash of the canonical serialization, and repeated calls return
    /// equal values.
    pub fn digest(&self) -> (r: HeaderDigest)
        ensures
            r@ == self.spec_digest(),
    {
        match &self.digest {
            Some(d) => *d,
            None => self.compute_digest(),
        }
    }

    /// The canonical serialization of this header (without the cache).
    pub fn serialized(&self) -> (r: Vec<u8>)
        ensures
            r@ == self.spec_serialized(),
    {
        let mut out: Vec<u8> = Vec::new();
        proof {
            lemma_pow256_8();
            assert(pow256(2) == 0x1_0000);
        }
        encode_uint_le(&mut out, self.author.0 as u64, 2);
        encode_uint_le(&mut out, self.round, 8);
        encode_uint_le(&mut out, self.epoch, 8);
        encode_uint_le(&mut out, self.created_at, 8);
        let entries = self.payload.entries();
        encode_uleb(&mut out, entries.len() as u64);
        let ghost pes = payload_entries(self.payload);
        let ghost head = out@;
        proof {
            assert(pes.skip(0) =~= pes);
            assert(out@.skip(head.len() as int) =~= Seq::<u8>::empty());
            assert(ser_payload_seq(pes) =~= out@.skip(head.len() as int) + ser_payload_seq(
                pes.skip(0),
            ));
        }
        let mut i: usize = 0;
        while i < entries.len()
            invariant
                i <= entries.len(),
                entries@.len() == pes.len(),
                forall|j: int|
                    0 <= j < entries@.len() ==> entries@[j].0@ == pes[j].0 && entries@[j].1
                        == pes[j].1,
                ser_payload_seq(pes) =~= out@.skip(head.len() as int) + ser_payload_seq(
                    pes.skip(i as int),
                ),
                out@.subrange(0, head.len() as int) =~= head,
                out@.len() >= head.len(),
            decreases entries.len() - i,
        {
            proof {
                assert(pes.skip(i as int)[0] == pes[i as int]);
                assert(pes.skip(i as int).subrange(1, pes.skip(i as int).len() as int) =~= pes.skip(
                    i + 1,
                ));
                lemma_pow256_8();
            }
            append_digest(&mut out, &entries[i].0.0);
            encode_uint_le(&mut out, entries[i].1.0 as u64, 4);
            encode_uint_le(&mut out, entries[i].1.1, 8);
            i = i + 1;
            proof {
                assert(ser_payload_seq(pes) =~= out@.skip(head.len() as int) + ser_payload_seq(
                    pes.skip(i as int),
                ));
                assert(out@.subrange(0, head.len() as int) =~= head);
            }
        }
        proof {
            assert(pes.skip(pes.len() as int) =~= Seq::<(Seq<u8>, (u32, u64))>::empty());
            assert(out@ =~= head + ser_payload_seq(pes));
        }
        encode_uleb(&mut out, self.parents.len() as u64);
        let ghost pas = self.parents@.map_values(|d: CertificateDigest| d@);
        let ghost head2 = out@;
        proof {
            assert(pas.skip(0) =~= pas);
            assert(out@.skip(head2.len() as int) =~= Seq::<u8>::empty());
            assert(ser_digest_seq(pas) =~= out@.skip(head2.len() as int) + ser_digest_seq(
                pas.skip(0),
            ));
        }
        let mut i: usize = 0;
        while i < self.parents.len()
            invariant
                i <= self.parents.len(),
                pas.len() == self.parents@.len(),
                pas == self.parents@.map_values(|d: CertificateDigest| d@),
                ser_digest_seq(pas) =~= out@.skip(head2.len() as int) + ser_digest_seq(
                    pas.skip(i as int),
                ),
                out@.subrange(0, head2.len() as int) =~= head2,
                out@.len() >= head2.len(),
            decreases self.parents.len() - i,
        {
            proof {
                assert(pas.skip(i as int)[0] == pas[i as int]);
                assert(pas.skip(i as int).subrange(1, pas.skip(i as int).len() as int) =~= pas.skip(
                    i + 1,
                ));
            }
            append_digest(&mut out, &self.parents[i].0);
            i = i + 1;
            proof {
                assert(ser_digest_seq(pas) =~= out@.skip(head2.len() as int) + ser_digest_seq(
                    pas.skip(i as int),
                ));
                assert(out@.subrange(0, head2.len() as int) =~= head2);
            }
        }
        proof {
            assert(pas.skip(pas.len() as int) =~= Seq::<Seq<u8>>::empty());
            assert(out@ =~= head2 + ser_digest_seq(pas));
            assert(out@ =~= self.spec_serialized());
        }
        out
    }

    /// Every worker referenced by the payload resolves under the author.
    pub open spec fn spec_workers_ok(&self, worker_cache: &WorkerCache) -> bool {
        forall|i: int|
            0 <= i < payload_entries(self.payload).len() ==> worker_cache.spec_has_worker(
                self.author,
                payload_entries(self.payload)[i].1.0,
            )
    }

    /// The cache, if set, agrees with the recomputed digest.
    pub open spec fn spec_digest_ok(&self) -> bool {
        self.spec_digest() == self.spec_computed_digest()
    }

    /// Everything `validate` checks, in one predicate.
    pub open spec fn spec_valid(&self, committee: &Committee, worker_cache: &WorkerCache) -> bool {
        &&& self.epoch == committee.epoch
        &&& self.spec_digest_ok()
        &&& committee.spec_stake_of(self.author) > 0
        &&& self.spec_workers_ok(worker_cache)
    }

    /// Validate this header against a committee and its worker cache: epoch
    /// equality, digest equality against recomputation, non-zero stake of
    /// the author, and worker registration of every payload entry — in that
    /// order, each failure with its own error.
    pub fn validate(&self, committee: &Committee, worker_cache: &WorkerCache) -> (r: DagResult<()>)
        ensures
            r is Ok <==> self.spec_valid(committee, worker_cache),
            self.epoch != committee.epoch ==> r == Err::<(), DagError>(
                DagError::InvalidEpoch { expected: committee.epoch, received: self.epoch },
            ),
            self.epoch == committee.epoch && !self.spec_digest_ok() ==> r == Err::<(), DagError>(
                DagError::InvalidHeaderDigest,
            ),
            self.epoch == committee.epoch && self.spec_digest_ok() && committee.spec_stake_of(
                self.author,
            ) == 0 ==> r == Err::<(), DagError>(DagError::UnknownAuthority(self.author)),
            self.epoch == committee.epoch && self.spec_digest_ok() && committee.spec_stake_of(
                self.author,
            ) > 0 && !self.spec_workers_ok(worker_cache) ==> (r matches Err(e) && e matches
                DagError::HeaderHasBadWorkerIds(d) && d@ == self.spec_digest()),
    {
        if self.epoch != committee.epoch() {
            return Err(
                DagError::InvalidEpoch { expected: committee.epoch(), received: self.epoch },
            );
        }
        let recomputed = self.compute_digest();
        let claimed = self.digest();
        if !recomputed.equals(&claimed) {
            return Err(DagError::InvalidHeaderDigest);
        }
        let voting_rights = committee.stake_by_id(self.author);
        if voting_rights == 0 {
            return Err(DagError::UnknownAuthority(self.author));
        }
        let entries = self.payload.entries();
        let ghost pes = payload_entries(self.payload);
        let mut i: usize = 0;
        while i < entries.len()
            invariant
                i <= entries.len(),
                self.epoch == committee.epoch,
                self.spec_digest_ok(),
                committee.spec_stake_of(self.author) > 0,
                claimed@ == self.spec_digest(),
                pes == payload_entries(self.payload),
                entries@.len() == pes.len(),
                forall|j: int|
                    0 <= j < entries@.len() ==> entries@[j].0@ == pes[j].0 && entries@[j].1
                        == pes[j].1,
                forall|j: int|
                    0 <= j < i ==> worker_cache.spec_has_worker(self.author, pes[j].1.0),
            decreases entries.len() - i,
        {
            if !worker_cache.has_worker(self.author, entries[i].1.0) {
                proof {
                    assert(!worker_cache.spec_has_worker(self.author, pes[i as int].1.0));
                    assert(payload_entries(self.payload)[i as int] == pes[i as int]);
                    assert(!self.spec_workers_ok(worker_cache));
                }
                return Err(DagError::HeaderHasBadWorkerIds(claimed));
            }
            i = i + 1;
        }
        proof {
            assert forall|j: int| 0 <= j < payload_entries(self.payload).len()
                implies worker_cache.spec_has_worker(
                self.author,
                payload_entries(self.payload)[j].1.0,
            ) by {
                assert(payload_entries(self.payload)[j] == pes[j]);
            }
            assert(self.spec_workers_ok(worker_cache));
        }
        Ok(())
    }
}

/// A versioned header.
pub enum Header {
    V1(HeaderV1),
}

impl Header {
    /// Assemble a header in the current version.
    pub fn new(
        author: AuthorityIdentifier,
        round: Round,
        epoch: Epoch,
        payload: PayloadMap,
        parents: Vec<CertificateDigest>,
    ) -> (r: Header)
        ensures
            r->V1_0.author == author,
            r->V1_0.round == round,
            r->V1_0.epoch == epoch,
            payload_entries(r->V1_0.payload) == payload_entries(payload),
            r->V1_0.parents@ == parents@,
            r->V1_0.digest_wf(),
            r->V1_0.spec_cache() is Some,
    {
        Header::V1(HeaderV1::new(author, round, epoch, payload, parents))
    }

    /// The inner shape.
    pub open spec fn v1(&self) -> HeaderV1 {
        match self {
            Header::V1(h) => *h,
        }
    }

    /// What `digest()` returns.
    pub open spec fn spec_digest(&self) -> Seq<u8> {
        self.v1().spec_digest()
    }

    pub open spec fn digest_wf(&self) -> bool {
        self.v1().digest_wf()
    }

    /// The digest of the header.
    pub fn digest(&self) -> (r: HeaderDigest)
        ensures
            r@ == self.spec_digest(),
    {
        match self {
            Header::V1(data) => data.digest(),
        }
    }

    /// Validate the header (see the shape's own `validate`).
    pub fn validate(&self, committee: &Committee, worker_cache: &WorkerCache) -> (r: DagResult<()>)
        ensures
            r is Ok <==> self.v1().spec_valid(committee, worker_cache),
            self.v1().epoch != committee.epoch ==> r == Err::<(), DagError>(
                DagError::InvalidEpoch { expected: committee.epoch, received: self.v1().epoch },
            ),
            self.v1().epoch == committee.epoch && !self.v1().spec_digest_ok() ==> r == Err::<
                (),
                DagError,
            >(DagError::InvalidHeaderDigest),
            self.v1().epoch == committee.epoch && self.v1().spec_digest_ok()
                && committee.spec_stake_of(self.v1().author) == 0 ==> r == Err::<(), DagError>(
                DagError::UnknownAuthority(self.v1().author),
            ),
            self.v1().epoch == committee.epoch && self.v1().spec_digest_ok()
                && committee.spec_stake_of(self.v1().author) > 0 && !self.v1().spec_workers_ok(
                worker_cache,
            ) ==> (r matches Err(e) && e matches DagError::HeaderHasBadWorkerIds(d) && d@
                == self.v1().spec_digest()),
    {
        match self {
            Header::V1(data) => data.validate(committee, worker_cache),
        }
    }
}

/// The common read surface of every header shape, plus the mutators used by
/// property tests.
pub trait HeaderAPI {
    spec fn spec_author(&self) -> AuthorityIdentifier;

    spec fn spec_round(&self) -> Round;

    spec fn spec_epoch(&self) -> Epoch;

    spec fn spec_created_at(&self) -> TimestampMs;

    spec fn spec_payload(&self) -> Seq<(Seq<u8>, (u32, u64))>;

    spec fn spec_parents(&self) -> Seq<CertificateDigest>;

    fn author(&self) -> (r: AuthorityIdentifier)
        ensures
            r == self.spec_author(),
    ;

    fn round(&self) -> (r: Round)
        ensures
            r == self.spec_round(),
    ;

    fn epoch(&self) -> (r: Epoch)
        ensures
            r == self.spec_epoch(),
    ;

    fn created_at(&self) -> (r: TimestampMs)
        ensures
            r == self.spec_created_at(),
    ;

    fn payload(&self) -> (r: &PayloadMap)
        ensures
            payload_entries(*r) == self.spec_payload(),
    ;

    fn parents(&self) -> (r: &Vec<CertificateDigest>)
        ensures
            r@ == self.spec_parents(),
    ;

    /// Replace the payload, leaving the digest cache untouched. For tests:
    /// the header then fails digest validation.
    fn update_payload(&mut self, new_payload: PayloadMap)
        ensures
            final(self).spec_payload() == payload_entries(new_payload),
            final(self).spec_round() == old(self).spec_round(),
    ;

    /// Replace the round, leaving the digest cache untouched. For tests:
    /// the header then fails digest validation.
    fn update_round(&mut self, new_round: Round)
        ensures
            final(self).spec_round() == new_round,
            final(self).spec_author() == old(self).spec_author(),
    ;

    /// Drop all parents, leaving the digest cache untouched.
    fn clear_parents(&mut self)
        ensures
            final(self).spec_parents().len() == 0,
            final(self).spec_round() == old(self).spec_round(),
    ;
}

impl HeaderAPI for HeaderV1 {
    open spec fn spec_author(&self) -> AuthorityIdentifier {
        self.author
    }

    open spec fn spec_round(&self) -> Round {
        self.round
    }

    open spec fn spec_epoch(&self) -> Epoch {
        self.epoch
    }

    open spec fn spec_created_at(&self) -> TimestampMs {
        self.created_at
    }

    open spec fn spec_payload(&self) -> Seq<(Seq<u8>, (u32, u64))> {
        payload_entries(self.payload)
    }

    open spec fn spec_parents(&self) -> Seq<CertificateDigest> {
        self.parents@
    }

    fn author(&self) -> AuthorityIdentifier {
        self.author
    }

    fn round(&self) -> Round {
        self.round
    }

    fn epoch(&self) -> Epoch {
        self.epoch
    }

    fn created_at(&self) -> TimestampMs {
        self.created_at
    }

    fn payload(&self) -> &PayloadMap {
        &self.payload
    }

    fn parents(&self) -> &Vec<CertificateDigest> {
        &self.parents
    }

    fn update_payload(&mut self, new_payload: PayloadMap) {
        self.payload = new_payload;
    }

    fn update_round(&mut self, new_round: Round) {
        self.round = new_round;
    }

    fn clear_parents(&mut self) {
        self.parents = Vec::new();
    }
}

impl HeaderAPI for Header {
    open spec fn spec_author(&self) -> AuthorityIdentifier {
        self.v1().author
    }

    open spec fn spec_round(&self) -> Round {
        self.v1().round
    }

    open spec fn spec_epoch(&self) -> Epoch {
        self.v1().epoch
    }

    open spec fn spec_created_at(&self) -> TimestampMs {
        self.v1().created_at
    }

    open spec fn spec_payload(&self) -> Seq<(Seq<u8>, (u32, u64))> {
        payload_entries(self.v1().payload)
    }

    open spec fn spec_parents(&self) -> Seq<CertificateDigest> {
        self.v1().parents@
    }

    fn author(&self) -> AuthorityIdentifier {
        match self {
            Header::V1(h) => h.author,
        }
    }

    fn round(&self) -> Round {
        match self {
            Header::V1(h) => h.round,
        }
    }

    fn epoch(&self) -> Epoch {
        match self {
            Header::V1(h) => h.epoch,
        }
    }

    fn created_at(&self) -> TimestampMs {
        match self {
            Header::V1(h) => h.created_at,
        }
    }

    fn payload(&self) -> &PayloadMap {
        match self {
            Header::V1(h) => &h.payload,
        }
    }

    fn parents(&self) -> &Vec<CertificateDigest> {
        match self {
            Header::V1(h) => &h.parents,
        }
    }

    fn update_payload(&mut self, new_payload: PayloadMap) {
        match self {
            Header::V1(h) => h.payload = new_payload,
        }
    }

    fn update_round(&mut self, new_round: Round) {
        match self {
            Header::V1(h) => h.round = new_round,
        }
    }

    fn clear_parents(&mut self) {
        match self {
            Header::V1(h) => h.parents = Vec::new(),
        }
    }
}


/// A step-by-step builder for a header; every field but the creation time
/// must be set before building.
pub struct HeaderV1Builder {
    pub author: Option<AuthorityIdentifier>,
    pub round: Option<Round>,
    pub epoch: Option<Epoch>,
    pub created_at: Option<TimestampMs>,
    pub payload: Option<PayloadMap>,
    pub parents: Option<Vec<CertificateDigest>>,
}

impl HeaderV1Builder {
    /// A builder with nothing set.
    pub fn new() -> (r: HeaderV1Builder)
        ensures
            r.author is None,
            r.round is None,
            r.epoch is None,
            r.created_at is None,
            r.payload is None,
            r.parents is None,
    {
        HeaderV1Builder {
            author: None,
            round: None,
            epoch: None,
            created_at: None,
            payload: None,
            parents: None,
        }
    }

    pub fn author(self, author: AuthorityIdentifier) -> (r: HeaderV1Builder)
        ensures
            r == (HeaderV1Builder { author: Some(author), ..self }),
    {
        HeaderV1Builder { author: Some(author), ..self }
    }

    pub fn round(self, round: Round) -> (r: HeaderV1Builder)
        ensures
            r == (HeaderV1Builder { round: Some(round), ..self }),
    {
        HeaderV1Builder { round: Some(round), ..self }
    }

    pub fn epoch(self, epoch: Epoch) -> (r: HeaderV1Builder)
        ensures
            r == (HeaderV1Builder { epoch: Some(epoch), ..self }),
    {
        HeaderV1Builder { epoch: Some(epoch), ..self }
    }

    pub fn created_at(self, created_at: TimestampMs) -> (r: HeaderV1Builder)
        ensures
            r == (HeaderV1Builder { created_at: Some(created_at), ..self }),
    {
        HeaderV1Builder { created_at: Some(created_at), ..self }
    }

    pub fn payload(self, payload: PayloadMap) -> (r: HeaderV1Builder)
        ensures
            r.payload is Some,
            payload_entries(r.payload.unwrap()) == payload_entries(payload),
            r.author == self.author,
            r.round == self.round,
            r.epoch == self.epoch,
            r.created_at == self.created_at,
            r.parents == self.parents,
    {
        HeaderV1Builder { payload: Some(payload), ..self }
    }

    pub fn parents(self, parents: Vec<CertificateDigest>) -> (r: HeaderV1Builder)
        ensures
            r == (HeaderV1Builder { parents: Some(parents), ..self }),
    {
        HeaderV1Builder { parents: Some(parents), ..self }
    }

    /// Record a batch in the payload under the given worker and creation
    /// time, starting an empty payload when none is set yet.
    pub fn with_payload_batch(
        self,
        batch: crate::batch::Batch,
        worker_id: crate::WorkerId,
        created_at: TimestampMs,
    ) -> (r: HeaderV1Builder)
        ensures
            r.author == self.author,
            r.round == self.round,
            r.epoch == self.epoch,
            r.created_at == self.created_at,
            r.parents == self.parents,
            r.payload is Some,
            ({
                let old_entries = if self.payload is Some {
                    payload_entries(self.payload.unwrap())
                } else {
                    Seq::<(Seq<u8>, (u32, u64))>::empty()
                };
                let d = crate::batch::spec_batch_digest(
                    crate::batch::BatchAPI::spec_transactions(&batch),
                );
                if payload_has_key(old_entries, d) {
                    payload_entries(r.payload.unwrap()) == old_entries.update(
                        payload_key_index(old_entries, d),
                        (d, (worker_id, created_at)),
                    )
                } else {
                    payload_entries(r.payload.unwrap()) == old_entries.push(
                        (d, (worker_id, created_at)),
                    )
                }
            }),
    {
        let mut payload = match self.payload {
            Some(p) => p,
            None => PayloadMap::new(),
        };
        let digest = batch.digest();
        payload.insert(digest, worker_id, created_at);
        HeaderV1Builder { payload: Some(payload), ..self }
    }

    /// Assemble the header; author, round, epoch, payload and parents must
    /// be set, and the creation time defaults to zero. The digest cache is
    /// filled immediately.
    pub fn build(self) -> (r: HeaderV1)
        requires
            self.author is Some,
            self.round is Some,
            self.epoch is Some,
            self.payload is Some,
            self.parents is Some,
        ensures
            r.author == self.author.unwrap(),
            r.round == self.round.unwrap(),
            r.epoch == self.epoch.unwrap(),
            r.created_at == if self.created_at is Some {
                self.created_at.unwrap()
            } else {
                0
            },
            payload_entries(r.payload) == payload_entries(self.payload.unwrap()),
            r.parents@ == self.parents.unwrap()@,
            r.digest_wf(),
            r.spec_cache() is Some,
    {
        let created_at = match self.created_at {
            Some(t) => t,
            None => 0,
        };
        let mut h = HeaderV1 {
            author: self.author.unwrap(),
            round: self.round.unwrap(),
            epoch: self.epoch.unwrap(),
            created_at,
            payload: self.payload.unwrap(),
            parents: self.parents.unwrap(),
            digest: None,
        };
        let d = h.compute_digest();
        h.digest = Some(d);
        h
    }
}


/// The plain fields of a parsed header: author, round, epoch, creation
/// time, payload entries, parent digests.
pub type HeaderFields = (u16, u64, u64, u64, Seq<(Seq<u8>, (u32, u64))>, Seq<Seq<u8>>);

/// The fields a header serializes to.
pub open spec fn header_fields(h: HeaderV1) -> HeaderFields {
    (
        h.author.0,
        h.round,
        h.epoch,
        h.created_at,
        payload_entries(h.payload),
        h.parents@.map_values(|d: CertificateDigest| d@),
    )
}

/// `n` consecutive payload entries starting at `pos`.
pub open spec fn parse_payload_seq(b: Seq<u8>, pos: int, n: nat) -> Option<
    (Seq<(Seq<u8>, (u32, u64))>, int),
>
    decreases n,
{
    if n == 0 {
        Some((Seq::empty(), pos))
    } else if pos < 0 || pos + 44 > b.len() {
        None
    } else {
        let e = (
            b.subrange(pos, pos + 32),
            (parse_le_val(b, pos + 32, 4) as u32, parse_le_val(b, pos + 36, 8) as u64),
        );
        match parse_payload_seq(b, pos + 44, (n - 1) as nat) {
            Some((rest, end)) => Some((seq![e] + rest, end)),
            None => None,
        }
    }
}

/// `n` consecutive 32-byte digests starting at `pos`.
pub open spec fn parse_digest_seq(b: Seq<u8>, pos: int, n: nat) -> Option<(Seq<Seq<u8>>, int)>
    decreases n,
{
    if n == 0 {
        Some((Seq::empty(), pos))
    } else if pos < 0 || pos + 32 > b.len() {
        None
    } else {
        match parse_digest_seq(b, pos + 32, (n - 1) as nat) {
            Some((rest, end)) => Some((seq![b.subrange(pos, pos + 32)] + rest, end)),
            None => None,
        }
    }
}

/// The header body starting at `pos`; duplicate payload keys are rejected.
pub open spec fn parse_header_body(b: Seq<u8>, pos: int) -> Option<(HeaderFields, int)> {
    if pos < 0 || pos + 26 > b.len() {
        None
    } else {
        let author = parse_le_val(b, pos, 2) as u16;
        let round = parse_le_val(b, pos + 2, 8) as u64;
        let epoch = parse_le_val(b, pos + 10, 8) as u64;
        let created_at = parse_le_val(b, pos + 18, 8) as u64;
        match parse_uleb(b, pos + 26) {
            Some((np, p1)) => match parse_payload_seq(b, p1, np) {
                Some((payload, p2)) => if !payload_keys_unique(payload) {
                    None
                } else {
                    match parse_uleb(b, p2) {
                        Some((npar, p3)) => match parse_digest_seq(b, p3, npar) {
                            Some((parents, p4)) => Some(
                                ((author, round, epoch, created_at, payload, parents), p4),
                            ),
                            None => None,
                        },
                        None => None,
                    }
                },
                None => None,
            },
            None => None,
        }
    }
}

/// A versioned header starting at `pos`: variant tag, then the body.
pub open spec fn parse_header(b: Seq<u8>, pos: int) -> Option<(HeaderFields, int)> {
    match parse_uleb(b, pos) {
        Some((tag, p)) => {
            if tag != 0 {
                None
            } else {
                parse_header_body(b, p)
            }
        },
        None => None,
    }
}

/// The serialization of a versioned header: variant tag, then the body
/// (without the digest cache).
pub open spec fn ser_header(h: &Header) -> Seq<u8> {
    uleb(0) + h.v1().spec_serialized()
}

/// Append the serialization of a versioned header.
pub fn encode_header(out: &mut Vec<u8>, h: &Header)
    ensures
        final(out)@ == old(out)@ + ser_header(h),
{
    encode_uleb(out, 0);
    match h {
        Header::V1(data) => {
            let body = data.serialized();
            crate::codec::append_raw(out, &body);
        },
    }
    proof {
        assert(out@ =~= old(out)@ + ser_header(h));
    }
}

pub proof fn lemma_ser_payload_seq_len(s: Seq<(Seq<u8>, (u32, u64))>)
    requires
        payload_keys_are_digests(s),
    ensures
        ser_payload_seq(s).len() == 44 * s.len(),
    decreases s.len(),
{
    if s.len() > 0 {
        let rest = s.subrange(1, s.len() as int);
        assert(payload_keys_are_digests(rest)) by {
            assert forall|i: int| 0 <= i < rest.len() implies rest[i].0.len() == 32 by {
                assert(rest[i] == s[i + 1]);
            }
        }
        lemma_ser_payload_seq_len(rest);
        lemma_le_bytes_len(s[0].1.0 as nat, 4);
        lemma_le_bytes_len(s[0].1.1 as nat, 8);
    }
}

pub proof fn lemma_ser_digest_seq_len(s: Seq<Seq<u8>>)
    requires
        forall|i: int| 0 <= i < s.len() ==> s[i].len() == 32,
    ensures
        ser_digest_seq(s).len() == 32 * s.len(),
    decreases s.len(),
{
    if s.len() > 0 {
        let rest = s.subrange(1, s.len() as int);
        assert(forall|i: int| 0 <= i < rest.len() ==> rest[i].len() == 32) by {
            assert forall|i: int| 0 <= i < rest.len() implies rest[i].len() == 32 by {
                assert(rest[i] == s[i + 1]);
            }
        }
        lemma_ser_digest_seq_len(rest);
    }
}

/// Parsing serialized payload entries recovers them.
pub proof fn lemma_payload_seq_roundtrip(b: Seq<u8>, pos: int, s: Seq<(Seq<u8>, (u32, u64))>)
    requires
        payload_keys_are_digests(s),
        0 <= pos,
        pos + ser_payload_seq(s).len() <= b.len(),
        b.subrange(pos, pos + ser_payload_seq(s).len()) == ser_payload_seq(s),
    ensures
        parse_payload_seq(b, pos, s.len()) == Some((s, pos + ser_payload_seq(s).len())),
    decreases s.len(),
{
    lemma_ser_payload_seq_len(s);
    if s.len() > 0 {
        let rest = s.subrange(1, s.len() as int);
        assert(payload_keys_are_digests(rest)) by {
            assert forall|i: int| 0 <= i < rest.len() implies rest[i].0.len() == 32 by {
                assert(rest[i] == s[i + 1]);
            }
        }
        lemma_ser_payload_seq_len(rest);
        let e = ser_payload_entry(s[0]);
        let f1 = s[0].0;
        let f2 = le_bytes(s[0].1.0 as nat, 4);
        let f3 = le_bytes(s[0].1.1 as nat, 8);
        lemma_le_bytes_len(s[0].1.0 as nat, 4);
        lemma_le_bytes_len(s[0].1.1 as nat, 8);
        assert(ser_payload_seq(s) =~= e + ser_payload_seq(rest));
        lemma_concat_split(b, pos, e, ser_payload_seq(rest));
        assert(e =~= f1 + (f2 + f3));
        lemma_concat_split(b, pos, f1, f2 + f3);
        lemma_concat_split(b, pos + 32, f2, f3);
        lemma_pow256_8();
        assert(pow256(4) == 0x1_0000_0000);
        lemma_le_roundtrip(b, pos + 32, s[0].1.0 as nat, 4);
        lemma_le_roundtrip(b, pos + 36, s[0].1.1 as nat, 8);
        assert(b.subrange(pos, pos + 32) == f1);
        lemma_payload_seq_roundtrip(b, pos + 44, rest);
        assert(parse_payload_seq(b, pos, s.len()).unwrap().0 =~= s);
    }
}

/// Parsing serialized digests recovers them.
pub proof fn lemma_digest_seq_roundtrip(b: Seq<u8>, pos: int, s: Seq<Seq<u8>>)
    requires
        forall|i: int| 0 <= i < s.len() ==> s[i].len() == 32,
        0 <= pos,
        pos + ser_digest_seq(s).len() <= b.len(),
        b.subrange(pos, pos + ser_digest_seq(s).len()) == ser_digest_seq(s),
    ensures
        parse_digest_seq(b, pos, s.len()) == Some((s, pos + ser_digest_seq(s).len())),
    decreases s.len(),
{
    lemma_ser_digest_seq_len(s);
    if s.len() > 0 {
        let rest = s.subrange(1, s.len() as int);
        assert(forall|i: int| 0 <= i < rest.len() ==> rest[i].len() == 32) by {
            assert forall|i: int| 0 <= i < rest.len() implies rest[i].len() == 32 by {
                assert(rest[i] == s[i + 1]);
            }
        }
        lemma_ser_digest_seq_len(rest);
        assert(ser_digest_seq(s) =~= s[0] + ser_digest_seq(rest));
        lemma_concat_split(b, pos, s[0], ser_digest_seq(rest));
        lemma_digest_seq_roundtrip(b, pos + 32, rest);
        assert(parse_digest_seq(b, pos, s.len()).unwrap().0 =~= s);
    }
}

/// Parsing a serialized header recovers its fields; the digest cache is
/// not part of the image.
pub proof fn lemma_header_roundtrip(b: Seq<u8>, pos: int, h: &Header)
    requires
        h.v1().wf(),
        0 <= pos,
        pos + ser_header(h).len() <= b.len(),
        b.subrange(pos, pos + ser_header(h).len()) == ser_header(h),
    ensures
        parse_header(b, pos) == Some((header_fields(h.v1()), pos + ser_header(h).len())),
{
    let d = h.v1();
    let body = d.spec_serialized();
    lemma_concat_split(b, pos, uleb(0), body);
    lemma_uleb_roundtrip(b, pos, 0);
    let p = pos + 1;
    let pes = payload_entries(d.payload);
    let pas = d.parents@.map_values(|dg: CertificateDigest| dg@);
    let f1 = le_bytes(d.author.0 as nat, 2);
    let f2 = le_bytes(d.round as nat, 8);
    let f3 = le_bytes(d.epoch as nat, 8);
    let f4 = le_bytes(d.created_at as nat, 8);
    let f5 = uleb(pes.len());
    let f6 = ser_payload_seq(pes);
    let f7 = uleb(pas.len());
    let f8 = ser_digest_seq(pas);
    lemma_pow256_8();
    assert(pow256(2) == 0x1_0000);
    lemma_le_bytes_len(d.author.0 as nat, 2);
    lemma_le_bytes_len(d.round as nat, 8);
    lemma_le_bytes_len(d.epoch as nat, 8);
    lemma_le_bytes_len(d.created_at as nat, 8);
    lemma_ser_payload_seq_len(pes);
    assert(forall|i: int| 0 <= i < pas.len() ==> pas[i].len() == 32) by {
        assert forall|i: int| 0 <= i < pas.len() implies pas[i].len() == 32 by {
            assert(pas[i] == d.parents@[i]@);
        }
    }
    lemma_ser_digest_seq_len(pas);
    assert(body =~= f1 + (f2 + f3 + f4 + f5 + f6 + f7 + f8));
    lemma_concat_split(b, p, f1, f2 + f3 + f4 + f5 + f6 + f7 + f8);
    assert(f2 + f3 + f4 + f5 + f6 + f7 + f8 =~= f2 + (f3 + f4 + f5 + f6 + f7 + f8));
    lemma_concat_split(b, p + 2, f2, f3 + f4 + f5 + f6 + f7 + f8);
    assert(f3 + f4 + f5 + f6 + f7 + f8 =~= f3 + (f4 + f5 + f6 + f7 + f8));
    lemma_concat_split(b, p + 10, f3, f4 + f5 + f6 + f7 + f8);
    assert(f4 + f5 + f6 + f7 + f8 =~= f4 + (f5 + f6 + f7 + f8));
    lemma_concat_split(b, p + 18, f4, f5 + f6 + f7 + f8);
    assert(f5 + f6 + f7 + f8 =~= f5 + (f6 + f7 + f8));
    lemma_concat_split(b, p + 26, f5, f6 + f7 + f8);
    lemma_le_roundtrip(b, p, d.author.0 as nat, 2);
    lemma_le_roundtrip(b, p + 2, d.round as nat, 8);
    lemma_le_roundtrip(b, p + 10, d.epoch as nat, 8);
    lemma_le_roundtrip(b, p + 18, d.created_at as nat, 8);
    lemma_uleb_roundtrip(b, p + 26, pes.len());
    let p1 = p + 26 + f5.len();
    assert(f6 + f7 + f8 =~= f6 + (f7 + f8));
    lemma_concat_split(b, p1, f6, f7 + f8);
    lemma_payload_seq_roundtrip(b, p1, pes);
    let p2 = p1 + f6.len();
    lemma_concat_split(b, p2, f7, f8);
    lemma_uleb_roundtrip(b, p2, pas.len());
    let p3 = p2 + f7.len();
    lemma_digest_seq_roundtrip(b, p3, pas);
}

/// Read `n` payload entries at `pos`.
fn decode_payload_entries(buf: &Vec<u8>, pos: usize, n: u64) -> (r: Option<
    (Vec<(BatchDigest, (u32, u64))>, usize),
>)
    ensures
        r is Some <==> parse_payload_seq(buf@, pos as int, n as nat) is Some,
        r is Some ==> {
            let (s, end) = parse_payload_seq(buf@, pos as int, n as nat).unwrap();
            &&& r.unwrap().0@.len() == s.len()
            &&& forall|i: int|
                0 <= i < s.len() ==> (#[trigger] r.unwrap().0@[i]).0@ == s[i].0
                    && r.unwrap().0@[i].1 == s[i].1
            &&& r.unwrap().1 == end
        },
    decreases n,
{
    if n == 0 {
        return Some((Vec::new(), pos));
    }
    if pos > buf.len() || 44 > buf.len() - pos {
        return None;
    }
    let d = crate::crypto::take_array::<32>(buf, pos);
    proof {
        lemma_pow256_8();
        crate::vote::lemma_parse_le_fits(buf@, pos + 32, 4);
        crate::vote::lemma_parse_le_fits(buf@, pos + 36, 8);
    }
    let w = decode_uint_le(buf, pos + 32, 4).unwrap().0 as u32;
    let ts = decode_uint_le(buf, pos + 36, 8).unwrap().0;
    match decode_payload_entries(buf, pos + 44, n - 1) {
        Some((mut rest, end)) => {
            rest.insert(0, (BatchDigest::new(d), (w, ts)));
            Some((rest, end))
        },
        None => None,
    }
}

/// Read `n` parent digests at `pos`.
fn decode_parent_digests(buf: &Vec<u8>, pos: usize, n: u64) -> (r: Option<
    (Vec<CertificateDigest>, usize),
>)
    ensures
        r is Some <==> parse_digest_seq(buf@, pos as int, n as nat) is Some,
        r is Some ==> {
            let (s, end) = parse_digest_seq(buf@, pos as int, n as nat).unwrap();
            &&& r.unwrap().0@.map_values(|dg: CertificateDigest| dg@) == s
            &&& r.unwrap().1 == end
        },
    decreases n,
{
    if n == 0 {
        let v: Vec<CertificateDigest> = Vec::new();
        proof {
            assert(v@.map_values(|dg: CertificateDigest| dg@) =~= Seq::<Seq<u8>>::empty());
        }
        return Some((v, pos));
    }
    if pos > buf.len() || 32 > buf.len() - pos {
        return None;
    }
    let d = crate::crypto::take_array::<32>(buf, pos);
    match decode_parent_digests(buf, pos + 32, n - 1) {
        Some((mut rest, end)) => {
            rest.insert(0, CertificateDigest::new(d));
            proof {
                let (s, _e) = parse_digest_seq(buf@, pos as int, n as nat).unwrap();
                assert(rest@.map_values(|dg: CertificateDigest| dg@) =~= s);
            }
            Some((rest, end))
        },
        None => None,
    }
}

/// When the entries cannot fit in the buffer, parsing fails.
pub proof fn lemma_parse_payload_seq_short(b: Seq<u8>, pos: int, n: nat)
    requires
        pos + 44 * n > b.len(),
        0 <= pos,
    ensures
        n > 0 ==> parse_payload_seq(b, pos, n) is None,
    decreases n,
{
    if n > 0 && !(pos + 44 > b.len()) {
        lemma_parse_payload_seq_short(b, pos + 44, (n - 1) as nat);
    }
}

/// When the digests cannot fit in the buffer, parsing fails.
pub proof fn lemma_parse_digest_seq_short(b: Seq<u8>, pos: int, n: nat)
    requires
        pos + 32 * n > b.len(),
        0 <= pos,
    ensures
        n > 0 ==> parse_digest_seq(b, pos, n) is None,
    decreases n,
{
    if n > 0 && !(pos + 32 > b.len()) {
        lemma_parse_digest_seq_short(b, pos + 32, (n - 1) as nat);
    }
}

/// Whether the batch digests are pairwise distinct.
fn keys_unique(entries: &Vec<(BatchDigest, (u32, u64))>) -> (r: bool)
    ensures
        r == (forall|a: int, b: int|
            0 <= a < b < entries@.len() ==> (#[trigger] entries@[a]).0@
                != (#[trigger] entries@[b]).0@),
{
    let m = entries.len();
    let mut i: usize = 0;
    while i < m
        invariant
            i <= m,
            m == entries.len(),
            forall|a: int, b: int|
                0 <= a < b < m && a < i ==> (#[trigger] entries@[a]).0@
                    != (#[trigger] entries@[b]).0@,
        decreases m - i,
    {
        let mut j: usize = i + 1;
        while j < m
            invariant
                i < j <= m,
                i < m,
                m == entries.len(),
                forall|b: int|
                    i < b < j ==> (#[trigger] entries@[b]).0@ != entries@[i as int].0@,
        decreases m - j,
        {
            if entries[i].0.equals(&entries[j].0) {
                return false;
            }
            j = j + 1;
        }
        proof {
            assert forall|b: int| i < b < m implies (#[trigger] entries@[b]).0@
                != entries@[i as int].0@ by {}
        }
        i = i + 1;
    }
    true
}

/// Read a versioned header at `pos`; the digest cache of the result is
/// unset, so its digest is recomputed on demand.
pub fn decode_header(buf: &Vec<u8>, pos: usize) -> (r: Option<(Header, usize)>)
    ensures
        r is Some <==> parse_header(buf@, pos as int) is Some,
        r is Some ==> {
            let (f, end) = parse_header(buf@, pos as int).unwrap();
            &&& header_fields(r.unwrap().0.v1()) == f
            &&& r.unwrap().0.v1().spec_cache() is None
            &&& r.unwrap().1 == end
            &&& payload_keys_unique(payload_entries(r.unwrap().0.v1().payload))
        },
{
    let tagr = decode_uleb(buf, pos);
    let (tag, p) = match tagr {
        None => {
            return None;
        },
        Some(t) => t,
    };
    if tag != 0 {
        return None;
    }
    if p > buf.len() || 26 > buf.len() - p {
        return None;
    }
    proof {
        lemma_pow256_8();
        assert(pow256(2) == 0x1_0000);
        crate::vote::lemma_parse_le_fits(buf@, p as int, 2);
        crate::vote::lemma_parse_le_fits(buf@, p + 2, 8);
        crate::vote::lemma_parse_le_fits(buf@, p + 10, 8);
        crate::vote::lemma_parse_le_fits(buf@, p + 18, 8);
    }
    let author = decode_uint_le(buf, p, 2).unwrap().0 as u16;
    let round = decode_uint_le(buf, p + 2, 8).unwrap().0;
    let epoch = decode_uint_le(buf, p + 10, 8).unwrap().0;
    let created_at = decode_uint_le(buf, p + 18, 8).unwrap().0;
    let npr = decode_uleb(buf, p + 26);
    let (np, p1) = match npr {
        None => {
            proof {
                if parse_uleb(buf@, p + 26) is Some {
                    crate::codec::lemma_parse_uleb_bounds(buf@, p + 26);
                    let (nn, pp) = parse_uleb(buf@, p + 26).unwrap();
                    assert(nn > u64::MAX);
                    lemma_parse_payload_seq_short(buf@, pp, nn);
                }
            }
            return None;
        },
        Some(t) => t,
    };
    let entries = match decode_payload_entries(buf, p1, np) {
        None => {
            return None;
        },
        Some(t) => t,
    };
    let (entry_vec, p2) = entries;
    let ghost parsed_entries = parse_payload_seq(buf@, p1 as int, np as nat).unwrap().0;
    if !keys_unique(&entry_vec) {
        proof {
            let (a, b2): (int, int) = choose|a: int, b2: int|
                0 <= a < b2 < entry_vec@.len() && (#[trigger] entry_vec@[a]).0@
                    == (#[trigger] entry_vec@[b2]).0@;
            assert(parsed_entries[a].0 == parsed_entries[b2].0);
            assert(!payload_keys_unique(parsed_entries));
            assert(parse_header_body(buf@, p as int) is None);
        }
        return None;
    }
    proof {
        assert forall|a: int, b2: int|
            0 <= a < b2 < parsed_entries.len() implies parsed_entries[a].0
                != parsed_entries[b2].0 by {
            assert(entry_vec@[a].0@ != entry_vec@[b2].0@);
        }
        assert(payload_keys_unique(parsed_entries));
    }
    let mut payload = PayloadMap::new();
    let m = entry_vec.len();
    let mut t: usize = 0;
    proof {
        assert(payload_entries(payload) =~= parsed_entries.take(0));
    }
    while t < m
        invariant
            t <= m,
            m == entry_vec.len(),
            entry_vec@.len() == parsed_entries.len(),
            payload_keys_unique(parsed_entries),
            forall|i: int|
                0 <= i < parsed_entries.len() ==> (#[trigger] entry_vec@[i]).0@
                    == parsed_entries[i].0 && entry_vec@[i].1 == parsed_entries[i].1,
            payload_entries(payload) == parsed_entries.take(t as int),
        decreases m - t,
    {
        proof {
            let pe = payload_entries(payload);
            if payload_has_key(pe, entry_vec@[t as int].0@) {
                let a = choose|a: int| 0 <= a < pe.len() && pe[a].0 == entry_vec@[t as int].0@;
                assert(pe[a] == parsed_entries[a]);
                assert(parsed_entries[a].0 == parsed_entries[t as int].0);
                assert(false);
            }
        }
        payload.insert(entry_vec[t].0, entry_vec[t].1.0, entry_vec[t].1.1);
        t = t + 1;
        proof {
            assert(payload_entries(payload) =~= parsed_entries.take(t as int));
        }
    }
    proof {
        assert(parsed_entries.take(m as int) =~= parsed_entries);
    }
    let nparr = decode_uleb(buf, p2);
    let (npar, p3) = match nparr {
        None => {
            proof {
                if parse_uleb(buf@, p2 as int) is Some {
                    crate::codec::lemma_parse_uleb_bounds(buf@, p2 as int);
                    let (nn, pp) = parse_uleb(buf@, p2 as int).unwrap();
                    assert(nn > u64::MAX);
                    lemma_parse_digest_seq_short(buf@, pp, nn);
                }
            }
            return None;
        },
        Some(t2) => t2,
    };
    let parents = match decode_parent_digests(buf, p3, npar) {
        None => {
            return None;
        },
        Some(t2) => t2,
    };
    let (parent_vec, p4) = parents;
    let h = HeaderV1 {
        author: AuthorityIdentifier(author),
        round,
        epoch,
        created_at,
        payload,
        parents: parent_vec,
        digest: None,
    };
    Some((Header::V1(h), p4))
}

} // verus!
