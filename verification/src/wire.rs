//! The wire envelopes primaries exchange: certificate push, vote
//! solicitation, certificate fetch, payload availability, and the messages
//! directed at (and received from) workers.

use vstd::prelude::*;

use crate::batch::{
    batch_fields, decode_batch, encode_batch, parse_batch, ser_batch, ser_metadata,
    ser_versioned_metadata, Batch, BatchFields, Metadata, MetadataAPI, VersionedMetadata,
};
use crate::certificate::{
    cert_matches_fields, decode_cert_vec, encode_cert_vec, parse_cert_seq, parse_certificate,
    ser_cert_seq, ser_certificate, CertificateFields,
};
use crate::codec::{
    append_digest, decode_bool, decode_bytes, decode_uint_le, decode_uleb, encode_bool,
    encode_bytes, encode_uint_le, encode_uleb, le_bytes, lemma_concat_split, lemma_le_bytes_len,
    lemma_le_roundtrip, lemma_pow256_8, lemma_uleb_roundtrip, parse_bool, parse_bytes,
    parse_le_val, parse_uleb, pow256, ser_bool, ser_bytes, uleb,
};
use crate::header::{parse_digest_seq, ser_digest_seq};
use crate::bitmap::{
    bitmap_elems, bitmap_serialized, rb_deserialize, rb_from_sorted, rb_serialize, rb_to_vec,
};
use crate::certificate::Certificate;
use crate::committee::{AuthorityIdentifier, WorkerInfo};
use crate::crypto::{BatchDigest, CertificateDigest, NetworkPublicKeyBytes};
use crate::header::Header;
use crate::vote::Vote;
use crate::{Round, WorkerId};

verus! {

/// Push of a certificate to a peer.
pub struct SendCertificateRequest {
    pub certificate: Certificate,
}

/// The peer's answer to a pushed certificate.
#[derive(Clone, Copy, Debug, PartialEq, Eq, Structural)]
pub struct SendCertificateResponse {
    pub accepted: bool,
}

/// A request for a vote on a newly produced header; the parents let a voter
/// that lacks them catch up before voting.
pub struct RequestVoteRequest {
    pub header: Header,
    pub parents: Vec<Certificate>,
}

/// The voter's answer: either a vote, or the digests of the certificates it
/// is missing.
pub struct RequestVoteResponse {
    pub vote: Option<Vote>,
    pub missing: Vec<CertificateDigest>,
}

/// Bulk fetch of certificates by digest.
pub struct GetCertificatesRequest {
    pub digests: Vec<CertificateDigest>,
}

/// The certificates found for a bulk fetch.
pub struct GetCertificatesResponse {
    pub certificates: Vec<Certificate>,
}

/// A fetch of missing certificates above a round: for each authority, a
/// serialized bitmap of round deltas (against the lower bound) that the
/// requestor already has and wants skipped.
pub struct FetchCertificatesRequest {
    /// The exclusive lower bound: peers return certificates above this
    /// round. It corresponds to the garbage-collection round at the
    /// requestor.
    pub exclusive_lower_bound: Round,
    /// Per authority, the serialized bitmap of `round - lower bound` deltas
    /// to skip.
    pub skip_rounds: Vec<(AuthorityIdentifier, Vec<u8>)>,
    /// Maximum number of certificates to return.
    pub max_items: usize,
}

/// The set of deltas a sorted list of rounds compresses to, against a lower
/// bound.
pub open spec fn delta_set(rounds: Seq<u64>, lower: u64) -> Set<u32> {
    Set::new(
        |d: u32| exists|k: int| 0 <= k < rounds.len() && rounds[k] == lower + d,
    )
}

/// Whether a decoded list of rounds matches a delta set under a lower
/// bound: strictly ascending, and holding exactly `lower + d` for the
/// deltas `d` of the set.
pub open spec fn rounds_match(rounds: Seq<u64>, s: Set<u32>, lower: u64) -> bool {
    &&& forall|i: int, j: int| 0 <= i < j < rounds.len() ==> rounds[i] < rounds[j]
    &&& forall|v: u64|
        #[trigger] rounds.contains(v) <==> (exists|d: u32| s.contains(d) && v == lower + d)
}

impl FetchCertificatesRequest {
    /// Decode the per-authority skip bitmaps back into plain round lists.
    /// An entry whose bytes fail to deserialize is skipped, so one
    /// malformed entry cannot deny service for the whole request; every
    /// entry carrying the serialization of a delta set is preserved, in
    /// order, with its rounds restored.
    pub fn get_bounds(&self) -> (r: (Round, Vec<(AuthorityIdentifier, Vec<u64>)>))
        requires
            self.exclusive_lower_bound + u32::MAX <= u64::MAX,
        ensures
            r.0 == self.exclusive_lower_bound,
            r.1@.len() <= self.skip_rounds@.len(),
            forall|i: int, s: Set<u32>|
                #![trigger self.skip_rounds@[i], bitmap_serialized(s)]
                0 <= i < self.skip_rounds@.len() && self.skip_rounds@[i].1@ == bitmap_serialized(
                    s,
                ) ==> exists|j: int|
                    0 <= j < r.1@.len() && (#[trigger] r.1@[j]).0 == self.skip_rounds@[i].0
                        && rounds_match(r.1@[j].1@, s, self.exclusive_lower_bound),
    {
        let lower = self.exclusive_lower_bound;
        let n = self.skip_rounds.len();
        let mut out: Vec<(AuthorityIdentifier, Vec<u64>)> = Vec::new();
        let mut i: usize = 0;
        while i < n
            invariant
                i <= n,
                n == self.skip_rounds.len(),
                lower == self.exclusive_lower_bound,
                lower + u32::MAX <= u64::MAX,
                out@.len() <= i,
                forall|k: int, s: Set<u32>|
                    #![trigger self.skip_rounds@[k], bitmap_serialized(s)]
                    0 <= k < i && self.skip_rounds@[k].1@ == bitmap_serialized(s) ==> exists|
                        j: int,
                    |
                        0 <= j < out@.len() && (#[trigger] out@[j]).0 == self.skip_rounds@[k].0
                            && rounds_match(out@[j].1@, s, lower),
            decreases n - i,
        {
            match rb_deserialize(&self.skip_rounds[i].1) {
                Some(bm) => {
                    let deltas = rb_to_vec(&bm);
                    let mut rounds: Vec<u64> = Vec::new();
                    let m = deltas.len();
                    let mut t: usize = 0;
                    while t < m
                        invariant
                            t <= m,
                            m == deltas.len(),
                            lower + u32::MAX <= u64::MAX,
                            forall|a: int, b: int| 0 <= a < b < m ==> deltas@[a] < deltas@[b],
                            rounds@.len() == t,
                            forall|a: int| 0 <= a < t ==> rounds@[a] == lower + deltas@[a],
                        decreases m - t,
                    {
                        rounds.push(lower + deltas[t] as u64);
                        t = t + 1;
                    }
                    proof {
                        let elems = bitmap_elems(bm);
                        assert forall|v: u64|
                            #[trigger] rounds@.contains(v) <==> (exists|d: u32|
                                elems.contains(d) && v == lower + d) by {
                            if rounds@.contains(v) {
                                let a = choose|a: int|
                                    0 <= a < rounds@.len() && rounds@[a] == v;
                                assert(deltas@.contains(deltas@[a]));
                                assert(elems.contains(deltas@[a]));
                            }
                            if exists|d: u32| elems.contains(d) && v == lower + d {
                                let d = choose|d: u32| elems.contains(d) && v == lower + d;
                                assert(deltas@.contains(d));
                                let a = choose|a: int|
                                    0 <= a < deltas@.len() && deltas@[a] == d;
                                assert(rounds@[a] == v);
                                assert(rounds@.contains(v));
                            }
                        }
                        assert forall|a: int, b: int|
                            0 <= a < b < rounds@.len() implies rounds@[a] < rounds@[b] by {
                            assert(deltas@[a] < deltas@[b]);
                        }
                        assert(rounds_match(rounds@, elems, lower));
                    }
                    let id = self.skip_rounds[i].0;
                    let ghost pre = out@;
                    out.push((id, rounds));
                    proof {
                        assert forall|k: int, s: Set<u32>|
                            #![trigger self.skip_rounds@[k], bitmap_serialized(s)]
                            0 <= k < i + 1 && self.skip_rounds@[k].1@ == bitmap_serialized(
                                s,
                            ) implies exists|j: int|
                            0 <= j < out@.len() && (#[trigger] out@[j]).0
                                == self.skip_rounds@[k].0 && rounds_match(
                                out@[j].1@,
                                s,
                                lower,
                            ) by {
                            if k < i {
                                let j = choose|j: int|
                                    0 <= j < pre.len() && (#[trigger] pre[j]).0
                                        == self.skip_rounds@[k].0 && rounds_match(
                                        pre[j].1@,
                                        s,
                                        lower,
                                    );
                                assert(out@[j] == pre[j]);
                                assert(out@[j].0 == self.skip_rounds@[k].0 && rounds_match(
                                    out@[j].1@,
                                    s,
                                    lower,
                                ));
                            } else {
                                assert(bitmap_elems(bm) == s);
                                let j = out@.len() - 1;
                                assert(out@[j].0 == self.skip_rounds@[k].0 && rounds_match(
                                    out@[j].1@,
                                    s,
                                    lower,
                                ));
                            }
                        }
                    }
                },
                None => {},
            }
            i = i + 1;
        }
        (lower, out)
    }

    /// Encode per-authority round lists into skip bitmaps against the given
    /// lower bound. Every round must lie above the bound by at most the
    /// 32-bit range, and each list must be strictly ascending.
    pub fn set_bounds(
        self,
        gc_round: Round,
        skip_rounds: Vec<(AuthorityIdentifier, Vec<u64>)>,
    ) -> (r: FetchCertificatesRequest)
        requires
            forall|i: int, a: int, b: int|
                0 <= i < skip_rounds@.len() && 0 <= a < b < skip_rounds@[i].1@.len()
                    ==> #[trigger] skip_rounds@[i].1@[a] < #[trigger] skip_rounds@[i].1@[b],
            forall|i: int, a: int|
                0 <= i < skip_rounds@.len() && 0 <= a < skip_rounds@[i].1@.len() ==> gc_round
                    <= #[trigger] skip_rounds@[i].1@[a] && skip_rounds@[i].1@[a] - gc_round
                    <= u32::MAX,
        ensures
            r.exclusive_lower_bound == gc_round,
            r.max_items == self.max_items,
            r.skip_rounds@.len() == skip_rounds@.len(),
            forall|i: int|
                0 <= i < skip_rounds@.len() ==> (#[trigger] r.skip_rounds@[i]).0
                    == skip_rounds@[i].0 && r.skip_rounds@[i].1@ == bitmap_serialized(
                    delta_set(skip_rounds@[i].1@, gc_round),
                ),
    {
        let n = skip_rounds.len();
        let mut encoded: Vec<(AuthorityIdentifier, Vec<u8>)> = Vec::new();
        let mut i: usize = 0;
        while i < n
            invariant
                i <= n,
                n == skip_rounds.len(),
                encoded@.len() == i,
                forall|k: int, a: int, b: int|
                    0 <= k < n && 0 <= a < b < skip_rounds@[k].1@.len()
                        ==> #[trigger] skip_rounds@[k].1@[a] < #[trigger] skip_rounds@[k].1@[b],
                forall|k: int, a: int|
                    0 <= k < n && 0 <= a < skip_rounds@[k].1@.len() ==> gc_round
                        <= #[trigger] skip_rounds@[k].1@[a] && skip_rounds@[k].1@[a] - gc_round
                        <= u32::MAX,
                forall|k: int|
                    0 <= k < i ==> (#[trigger] encoded@[k]).0 == skip_rounds@[k].0
                        && encoded@[k].1@ == bitmap_serialized(
                        delta_set(skip_rounds@[k].1@, gc_round),
                    ),
            decreases n - i,
        {
            let rounds = &skip_rounds[i].1;
            let m = rounds.len();
            let mut deltas: Vec<u32> = Vec::new();
            let mut t: usize = 0;
            while t < m
                invariant
                    t <= m,
                    i < n,
                    n == skip_rounds.len(),
                    m == rounds.len(),
                    rounds == &skip_rounds@[i as int].1,
                    forall|a: int, b: int| 0 <= a < b < m ==> rounds@[a] < rounds@[b],
                    forall|a: int|
                        0 <= a < m ==> gc_round <= rounds@[a] && rounds@[a] - gc_round
                            <= u32::MAX,
                    deltas@.len() == t,
                    forall|a: int| 0 <= a < t ==> deltas@[a] == rounds@[a] - gc_round,
                decreases m - t,
            {
                deltas.push((rounds[t] - gc_round) as u32);
                t = t + 1;
            }
            let bm = rb_from_sorted(&deltas);
            proof {
                assert(bitmap_elems(bm) =~= delta_set(skip_rounds@[i as int].1@, gc_round)) by {
                    assert forall|d: u32|
                        bitmap_elems(bm).contains(d) <==> delta_set(
                            skip_rounds@[i as int].1@,
                            gc_round,
                        ).contains(d) by {
                        if deltas@.contains(d) {
                            let a = choose|a: int|
                                0 <= a < deltas@.len() && deltas@[a] == d;
                            assert(rounds@[a] == gc_round + d);
                        }
                        if delta_set(skip_rounds@[i as int].1@, gc_round).contains(d) {
                            let k = choose|k: int|
                                0 <= k < rounds@.len() && rounds@[k] == gc_round + d;
                            assert(deltas@[k] == d);
                            assert(deltas@.contains(d));
                        }
                    }
                }
            }
            let bytes = rb_serialize(&bm);
            encoded.push((skip_rounds[i].0, bytes));
            i = i + 1;
        }
        FetchCertificatesRequest {
            exclusive_lower_bound: gc_round,
            skip_rounds: encoded,
            max_items: self.max_items,
        }
    }

    /// Replace the certificate cap.
    pub fn set_max_items(self, max_items: usize) -> (r: FetchCertificatesRequest)
        ensures
            r.max_items == max_items,
            r.exclusive_lower_bound == self.exclusive_lower_bound,
            r.skip_rounds == self.skip_rounds,
    {
        FetchCertificatesRequest { max_items, ..self }
    }
}

/// The certificates found for a fetch, sorted from lower to higher rounds.
pub struct FetchCertificatesResponse {
    pub certificates: Vec<Certificate>,
}

/// A query for which certificates' batch payloads a peer holds.
pub struct PayloadAvailabilityRequest {
    pub certificate_digests: Vec<CertificateDigest>,
}

/// Per queried digest, whether the peer holds the payload.
pub struct PayloadAvailabilityResponse {
    pub payload_availability: Vec<(CertificateDigest, bool)>,
}

/// The digests marked available in an availability reply, in order.
pub open spec fn spec_available(s: Seq<(CertificateDigest, bool)>) -> Seq<CertificateDigest>
    decreases s.len(),
{
    if s.len() == 0 {
        Seq::empty()
    } else {
        spec_available(s.drop_last()) + if s.last().1 {
            seq![s.last().0]
        } else {
            Seq::empty()
        }
    }
}

impl PayloadAvailabilityResponse {
    /// The digests whose payload the peer reported as available.
    pub fn available_certificates(&self) -> (r: Vec<CertificateDigest>)
        ensures
            r@ == spec_available(self.payload_availability@),
    {
        let n = self.payload_availability.len();
        let mut out: Vec<CertificateDigest> = Vec::new();
        proof {
            assert(self.payload_availability@.take(0) =~= Seq::<
                (CertificateDigest, bool),
            >::empty());
        }
        let mut i: usize = 0;
        while i < n
            invariant
                i <= n,
                n == self.payload_availability.len(),
                out@ == spec_available(self.payload_availability@.take(i as int)),
            decreases n - i,
        {
            proof {
                assert(self.payload_availability@.take(i + 1).drop_last()
                    =~= self.payload_availability@.take(i as int));
                assert(self.payload_availability@.take(i + 1).last()
                    == self.payload_availability@[i as int]);
            }
            if self.payload_availability[i].1 {
                out.push(self.payload_availability[i].0);
                proof {
                    assert(out@ =~= spec_available(
                        self.payload_availability@.take(i + 1),
                    ));
                }
            } else {
                proof {
                    assert(out@ =~= spec_available(
                        self.payload_availability@.take(i + 1),
                    ));
                }
            }
            i = i + 1;
        }
        proof {
            assert(self.payload_availability@.take(n as int) =~= self.payload_availability@);
        }
        out
    }
}

/// Direction to a worker to sync the given batches from the target
/// authority; when `is_certified` the worker may skip full validation and
/// check digests only.
pub struct WorkerSynchronizeMessage {
    pub digests: Vec<BatchDigest>,
    pub target: AuthorityIdentifier,
    pub is_certified: bool,
}

/// Direction to a worker to fetch the given batches from the named workers
/// and reply with their content.
pub struct FetchBatchesRequest {
    pub digests: Vec<BatchDigest>,
    pub known_workers: Vec<NetworkPublicKeyBytes>,
}

/// The batches a worker fetched, by digest.
pub struct FetchBatchesResponse {
    pub batches: Vec<(BatchDigest, Batch)>,
}

/// Direction to a worker to delete the given batches.
pub struct WorkerDeleteBatchesMessage {
    pub digests: Vec<BatchDigest>,
}

/// A batch and its digest, as moved between worker-side stages.
pub struct BatchMessage {
    pub digest: BatchDigest,
    pub batch: Batch,
}

/// Why a block (certificate payload) could not be served.
#[derive(Clone, Copy, Debug, PartialEq, Eq)]
pub enum BlockErrorKind {
    BlockNotFound,
    BatchTimeout,
    BatchError,
}

/// A block failure: the certificate digest and the failure kind.
#[derive(Clone, Copy, Debug, PartialEq, Eq)]
pub struct BlockError {
    pub digest: CertificateDigest,
    pub error: BlockErrorKind,
}

/// Convenience alias for block results.
pub type BlockResult<T> = Result<T, BlockError>;

/// A worker's notice that it sealed a new batch of its own.
pub struct WorkerOurBatchMessage {
    pub digest: BatchDigest,
    pub worker_id: WorkerId,
    pub metadata: Metadata,
}

/// A worker's notice that it sealed a new batch of its own, with versioned
/// metadata.
pub struct WorkerOurBatchMessageV2 {
    pub digest: BatchDigest,
    pub worker_id: WorkerId,
    pub metadata: VersionedMetadata,
}

/// A worker's notice that it received a batch from another authority.
pub struct WorkerOthersBatchMessage {
    pub digest: BatchDigest,
    pub worker_id: WorkerId,
}

/// The workers of an authority and their network information.
pub struct WorkerInfoResponse {
    pub workers: Vec<(WorkerId, WorkerInfo)>,
}


/// A counted list of 32-byte digests: `uleb128` count, then the digests.
pub open spec fn ser_digest_vec(s: Seq<Seq<u8>>) -> Seq<u8> {
    uleb(s.len()) + ser_digest_seq(s)
}

/// The counted digest list at `pos`; counts that cannot fit the buffer are
/// rejected.
pub open spec fn parse_digest_vec(b: Seq<u8>, pos: int) -> Option<(Seq<Seq<u8>>, int)> {
    match parse_uleb(b, pos) {
        Some((n, p)) => if n > b.len() {
            None
        } else {
            parse_digest_seq(b, p, n)
        },
        None => None,
    }
}

/// Parsing a counted digest list recovers it.
pub proof fn lemma_digest_vec_roundtrip(b: Seq<u8>, pos: int, s: Seq<Seq<u8>>)
    requires
        forall|i: int| 0 <= i < s.len() ==> (#[trigger] s[i]).len() == 32,
        0 <= pos,
        pos + ser_digest_vec(s).len() <= b.len(),
        b.subrange(pos, pos + ser_digest_vec(s).len()) == ser_digest_vec(s),
    ensures
        parse_digest_vec(b, pos) == Some((s, pos + ser_digest_vec(s).len())),
{
    crate::header::lemma_ser_digest_seq_len(s);
    lemma_concat_split(b, pos, uleb(s.len()), ser_digest_seq(s));
    lemma_uleb_roundtrip(b, pos, s.len());
    crate::header::lemma_digest_seq_roundtrip(b, pos + uleb(s.len()).len(), s);
}

/// Append a counted list of certificate digests.
pub fn encode_cert_digest_vec(out: &mut Vec<u8>, items: &Vec<CertificateDigest>)
    ensures
        final(out)@ == old(out)@ + ser_digest_vec(
            items@.map_values(|d: CertificateDigest| d@),
        ),
{
    let ghost s = items@.map_values(|d: CertificateDigest| d@);
    encode_uleb(out, items.len() as u64);
    let ghost head = out@;
    proof {
        assert(s.skip(0) =~= s);
        assert(out@.skip(head.len() as int) =~= Seq::<u8>::empty());
        assert(ser_digest_seq(s) =~= out@.skip(head.len() as int) + ser_digest_seq(s.skip(0)));
    }
    let mut i: usize = 0;
    while i < items.len()
        invariant
            i <= items.len(),
            s == items@.map_values(|d: CertificateDigest| d@),
            ser_digest_seq(s) =~= out@.skip(head.len() as int) + ser_digest_seq(
                s.skip(i as int),
            ),
            out@.subrange(0, head.len() as int) =~= head,
            out@.len() >= head.len(),
        decreases items.len() - i,
    {
        proof {
            assert(s.skip(i as int)[0] == s[i as int]);
            assert(s.skip(i as int).subrange(1, s.skip(i as int).len() as int) =~= s.skip(i + 1));
        }
        append_digest(out, &items[i].0);
        i = i + 1;
        proof {
            assert(ser_digest_seq(s) =~= out@.skip(head.len() as int) + ser_digest_seq(
                s.skip(i as int),
            ));
            assert(out@.subrange(0, head.len() as int) =~= head);
        }
    }
    proof {
        assert(s.skip(s.len() as int) =~= Seq::<Seq<u8>>::empty());
        assert(out@ =~= head + ser_digest_seq(s));
    }
}

/// Read `n` certificate digests at `pos`.
fn decode_cert_digest_seq(buf: &Vec<u8>, pos: usize, n: u64) -> (r: Option<
    (Vec<CertificateDigest>, usize),
>)
    ensures
        r is Some <==> parse_digest_seq(buf@, pos as int, n as nat) is Some,
        r is Some ==> {
            let (s, end) = parse_digest_seq(buf@, pos as int, n as nat).unwrap();
            &&& r.unwrap().0@.map_values(|d: CertificateDigest| d@) == s
            &&& r.unwrap().1 == end
        },
    decreases n,
{
    if n == 0 {
        let v: Vec<CertificateDigest> = Vec::new();
        proof {
            assert(v@.map_values(|d: CertificateDigest| d@) =~= Seq::<Seq<u8>>::empty());
        }
        return Some((v, pos));
    }
    if pos > buf.len() || 32 > buf.len() - pos {
        return None;
    }
    let d = crate::crypto::take_array::<32>(buf, pos);
    match decode_cert_digest_seq(buf, pos + 32, n - 1) {
        Some((mut rest, end)) => {
            rest.insert(0, CertificateDigest::new(d));
            proof {
                let (s, _e) = parse_digest_seq(buf@, pos as int, n as nat).unwrap();
                assert(rest@.map_values(|d2: CertificateDigest| d2@) =~= s);
            }
            Some((rest, end))
        },
        None => None,
    }
}

/// Read a counted list of certificate digests at `pos`.
pub fn decode_cert_digest_vec(buf: &Vec<u8>, pos: usize) -> (r: Option<
    (Vec<CertificateDigest>, usize),
>)
    ensures
        r is Some <==> parse_digest_vec(buf@, pos as int) is Some,
        r is Some ==> {
            let (s, end) = parse_digest_vec(buf@, pos as int).unwrap();
            &&& r.unwrap().0@.map_values(|d: CertificateDigest| d@) == s
            &&& r.unwrap().1 == end
        },
{
    let blen = buf.len();
    let cnt = match decode_uleb(buf, pos) {
        None => {
            proof {
                assert(buf@.len() == blen);
            }
            return None;
        },
        Some(t) => t,
    };
    let (n, p) = cnt;
    if n > blen as u64 {
        return None;
    }
    decode_cert_digest_seq(buf, p, n)
}

/// Append a counted list of batch digests.
pub fn encode_batch_digest_vec(out: &mut Vec<u8>, items: &Vec<BatchDigest>)
    ensures
        final(out)@ == old(out)@ + ser_digest_vec(items@.map_values(|d: BatchDigest| d@)),
{
    let ghost s = items@.map_values(|d: BatchDigest| d@);
    encode_uleb(out, items.len() as u64);
    let ghost head = out@;
    proof {
        assert(s.skip(0) =~= s);
        assert(out@.skip(head.len() as int) =~= Seq::<u8>::empty());
        assert(ser_digest_seq(s) =~= out@.skip(head.len() as int) + ser_digest_seq(s.skip(0)));
    }
    let mut i: usize = 0;
    while i < items.len()
        invariant
            i <= items.len(),
            s == items@.map_values(|d: BatchDigest| d@),
            ser_digest_seq(s) =~= out@.skip(head.len() as int) + ser_digest_seq(
                s.skip(i as int),
            ),
            out@.subrange(0, head.len() as int) =~= head,
            out@.len() >= head.len(),
        decreases items.len() - i,
    {
        proof {
            assert(s.skip(i as int)[0] == s[i as int]);
            assert(s.skip(i as int).subrange(1, s.skip(i as int).len() as int) =~= s.skip(i + 1));
        }
        append_digest(out, &items[i].0);
        i = i + 1;
        proof {
            assert(ser_digest_seq(s) =~= out@.skip(head.len() as int) + ser_digest_seq(
                s.skip(i as int),
            ));
            assert(out@.subrange(0, head.len() as int) =~= head);
        }
    }
    proof {
        assert(s.skip(s.len() as int) =~= Seq::<Seq<u8>>::empty());
        assert(out@ =~= head + ser_digest_seq(s));
    }
}

/// Read `n` batch digests at `pos`.
fn decode_batch_digest_seq(buf: &Vec<u8>, pos: usize, n: u64) -> (r: Option<
    (Vec<BatchDigest>, usize),
>)
    ensures
        r is Some <==> parse_digest_seq(buf@, pos as int, n as nat) is Some,
        r is Some ==> {
            let (s, end) = parse_digest_seq(buf@, pos as int, n as nat).unwrap();
            &&& r.unwrap().0@.map_values(|d: BatchDigest| d@) == s
            &&& r.unwrap().1 == end
        },
    decreases n,
{
    if n == 0 {
        let v: Vec<BatchDigest> = Vec::new();
        proof {
            assert(v@.map_values(|d: BatchDigest| d@) =~= Seq::<Seq<u8>>::empty());
        }
        return Some((v, pos));
    }
    if pos > buf.len() || 32 > buf.len() - pos {
        return None;
    }
    let d = crate::crypto::take_array::<32>(buf, pos);
    match decode_batch_digest_seq(buf, pos + 32, n - 1) {
        Some((mut rest, end)) => {
            rest.insert(0, BatchDigest::new(d));
            proof {
                let (s, _e) = parse_digest_seq(buf@, pos as int, n as nat).unwrap();
                assert(rest@.map_values(|d2: BatchDigest| d2@) =~= s);
            }
            Some((rest, end))
        },
        None => None,
    }
}

/// Read a counted list of batch digests at `pos`.
pub fn decode_batch_digest_vec(buf: &Vec<u8>, pos: usize) -> (r: Option<
    (Vec<BatchDigest>, usize),
>)
    ensures
        r is Some <==> parse_digest_vec(buf@, pos as int) is Some,
        r is Some ==> {
            let (s, end) = parse_digest_vec(buf@, pos as int).unwrap();
            &&& r.unwrap().0@.map_values(|d: BatchDigest| d@) == s
            &&& r.unwrap().1 == end
        },
{
    let blen = buf.len();
    let cnt = match decode_uleb(buf, pos) {
        None => {
            proof {
                assert(buf@.len() == blen);
            }
            return None;
        },
        Some(t) => t,
    };
    let (n, p) = cnt;
    if n > blen as u64 {
        return None;
    }
    decode_batch_digest_seq(buf, p, n)
}

/// Every certificate takes at least one byte on the wire.
pub proof fn lemma_ser_cert_seq_min(s: Seq<Certificate>)
    ensures
        ser_cert_seq(s).len() >= s.len(),
    decreases s.len(),
{
    if s.len() > 0 {
        lemma_ser_cert_seq_min(s.subrange(1, s.len() as int));
    }
}

/// A counted list of certificates: `uleb128` count, then the certificates.
pub open spec fn ser_cert_vec(s: Seq<Certificate>) -> Seq<u8> {
    uleb(s.len()) + ser_cert_seq(s)
}

/// The counted certificate list at `pos`; counts that cannot fit the
/// buffer are rejected.
pub open spec fn parse_cert_vec(b: Seq<u8>, pos: int) -> Option<(Seq<CertificateFields>, int)> {
    match parse_uleb(b, pos) {
        Some((n, p)) => if n > b.len() {
            None
        } else {
            parse_cert_seq(b, p, n)
        },
        None => None,
    }
}

/// Parsing a counted certificate list recovers the fields of each.
pub proof fn lemma_cert_vec_roundtrip(b: Seq<u8>, pos: int, s: Seq<Certificate>)
    requires
        forall|i: int| 0 <= i < s.len() ==> (#[trigger] s[i]).v1().header.v1().wf(),
        0 <= pos,
        pos + ser_cert_vec(s).len() <= b.len(),
        b.subrange(pos, pos + ser_cert_vec(s).len()) == ser_cert_vec(s),
    ensures
        parse_cert_vec(b, pos) matches Some(r) && r.1 == pos + ser_cert_vec(s).len()
            && r.0.len() == s.len() && (forall|i: int|
            0 <= i < s.len() ==> (#[trigger] r.0[i]) == (
                crate::header::header_fields(s[i].v1().header.v1()),
                s[i].v1().aggregated_signature@,
                crate::bitmap::bitmap_serialized(s[i].v1().spec_signed()),
                s[i].v1().metadata.created_at,
            )),
{
    lemma_ser_cert_seq_min(s);
    lemma_concat_split(b, pos, uleb(s.len()), ser_cert_seq(s));
    lemma_uleb_roundtrip(b, pos, s.len());
    crate::certificate::lemma_cert_seq_roundtrip(b, pos + uleb(s.len()).len(), s);
}

/// Append a counted list of certificates.
pub fn encode_cert_vec_counted(out: &mut Vec<u8>, items: &Vec<Certificate>)
    ensures
        final(out)@ == old(out)@ + ser_cert_vec(items@),
{
    encode_uleb(out, items.len() as u64);
    encode_cert_vec(out, items);
    proof {
        assert(out@ =~= old(out)@ + ser_cert_vec(items@));
    }
}

/// Read a counted list of certificates at `pos`.
pub fn decode_cert_vec_counted(buf: &Vec<u8>, pos: usize) -> (r: Option<
    (Vec<Certificate>, usize),
>)
    ensures
        parse_cert_vec(buf@, pos as int) is None ==> r is None,
        r is Some ==> {
            let (s, end) = parse_cert_vec(buf@, pos as int).unwrap();
            &&& parse_cert_vec(buf@, pos as int) is Some
            &&& r.unwrap().0@.len() == s.len()
            &&& forall|i: int|
                0 <= i < s.len() ==> cert_matches_fields((#[trigger] r.unwrap().0@[i]).v1(), s[i])
            &&& r.unwrap().1 == end
        },
{
    let blen = buf.len();
    let cnt = match decode_uleb(buf, pos) {
        None => {
            proof {
                assert(buf@.len() == blen);
            }
            return None;
        },
        Some(t) => t,
    };
    let (n, p) = cnt;
    if n > blen as u64 {
        return None;
    }
    decode_cert_vec(buf, p, n)
}


/// A certificate push on the wire: the certificate alone.
pub open spec fn ser_send_certificate_request(x: &SendCertificateRequest) -> Seq<u8> {
    ser_certificate(&x.certificate)
}

pub open spec fn parse_send_certificate_request(b: Seq<u8>, pos: int) -> Option<
    (CertificateFields, int),
> {
    parse_certificate(b, pos)
}

pub fn encode_send_certificate_request(out: &mut Vec<u8>, x: &SendCertificateRequest)
    ensures
        final(out)@ == old(out)@ + ser_send_certificate_request(x),
{
    crate::certificate::encode_certificate(out, &x.certificate)
}

pub fn decode_send_certificate_request(buf: &Vec<u8>, pos: usize) -> (r: Option<
    (SendCertificateRequest, usize),
>)
    ensures
        parse_send_certificate_request(buf@, pos as int) is None ==> r is None,
        r is Some ==> {
            let (f, end) = parse_send_certificate_request(buf@, pos as int).unwrap();
            &&& parse_send_certificate_request(buf@, pos as int) is Some
            &&& cert_matches_fields(r.unwrap().0.certificate.v1(), f)
            &&& r.unwrap().1 == end
        },
{
    match crate::certificate::decode_certificate(buf, pos) {
        Some((certificate, end)) => Some((SendCertificateRequest { certificate }, end)),
        None => None,
    }
}

/// Parsing a serialized certificate push recovers the certificate fields.
pub proof fn lemma_send_certificate_request_roundtrip(x: &SendCertificateRequest)
    requires
        x.certificate.v1().header.v1().wf(),
    ensures
        parse_send_certificate_request(ser_send_certificate_request(x), 0) matches Some(r)
            && r.0.0 == crate::header::header_fields(x.certificate.v1().header.v1()) && r.0.1
            == x.certificate.v1().aggregated_signature@ && r.0.2
            == crate::bitmap::bitmap_serialized(x.certificate.v1().spec_signed()),
{
    let b = ser_send_certificate_request(x);
    assert(b.subrange(0, b.len() as int) =~= b);
    crate::certificate::lemma_certificate_roundtrip(b, 0, &x.certificate);
}

/// A push acknowledgement on the wire: one boolean.
pub open spec fn ser_send_certificate_response(x: &SendCertificateResponse) -> Seq<u8> {
    ser_bool(x.accepted)
}

pub open spec fn parse_send_certificate_response(b: Seq<u8>, pos: int) -> Option<(bool, int)> {
    parse_bool(b, pos)
}

pub fn encode_send_certificate_response(out: &mut Vec<u8>, x: &SendCertificateResponse)
    ensures
        final(out)@ == old(out)@ + ser_send_certificate_response(x),
{
    encode_bool(out, x.accepted)
}

pub fn decode_send_certificate_response(buf: &Vec<u8>, pos: usize) -> (r: Option<
    (SendCertificateResponse, usize),
>)
    ensures
        r is Some <==> parse_send_certificate_response(buf@, pos as int) is Some,
        r is Some ==> {
            let (v, end) = parse_send_certificate_response(buf@, pos as int).unwrap();
            &&& r.unwrap().0.accepted == v
            &&& r.unwrap().1 == end
        },
{
    match decode_bool(buf, pos) {
        Some((accepted, end)) => Some((SendCertificateResponse { accepted }, end)),
        None => None,
    }
}

/// Parsing a serialized acknowledgement recovers it.
pub proof fn lemma_send_certificate_response_roundtrip(x: &SendCertificateResponse)
    ensures
        parse_send_certificate_response(ser_send_certificate_response(x), 0) == Some(
            (x.accepted, ser_send_certificate_response(x).len() as int),
        ),
{
}

/// A bulk certificate query on the wire: the counted digests.
pub open spec fn ser_get_certificates_request(x: &GetCertificatesRequest) -> Seq<u8> {
    ser_digest_vec(x.digests@.map_values(|d: CertificateDigest| d@))
}

pub open spec fn parse_get_certificates_request(b: Seq<u8>, pos: int) -> Option<
    (Seq<Seq<u8>>, int),
> {
    parse_digest_vec(b, pos)
}

pub fn encode_get_certificates_request(out: &mut Vec<u8>, x: &GetCertificatesRequest)
    ensures
        final(out)@ == old(out)@ + ser_get_certificates_request(x),
{
    encode_cert_digest_vec(out, &x.digests)
}

pub fn decode_get_certificates_request(buf: &Vec<u8>, pos: usize) -> (r: Option<
    (GetCertificatesRequest, usize),
>)
    ensures
        r is Some <==> parse_get_certificates_request(buf@, pos as int) is Some,
        r is Some ==> {
            let (s, end) = parse_get_certificates_request(buf@, pos as int).unwrap();
            &&& r.unwrap().0.digests@.map_values(|d: CertificateDigest| d@) == s
            &&& r.unwrap().1 == end
        },
{
    match decode_cert_digest_vec(buf, pos) {
        Some((digests, end)) => Some((GetCertificatesRequest { digests }, end)),
        None => None,
    }
}

/// Parsing a serialized bulk query recovers the digests.
pub proof fn lemma_get_certificates_request_roundtrip(x: &GetCertificatesRequest)
    ensures
        parse_get_certificates_request(ser_get_certificates_request(x), 0) == Some(
            (
                x.digests@.map_values(|d: CertificateDigest| d@),
                ser_get_certificates_request(x).len() as int,
            ),
        ),
{
    let s = x.digests@.map_values(|d: CertificateDigest| d@);
    let b = ser_get_certificates_request(x);
    assert(b.subrange(0, b.len() as int) =~= b);
    assert(forall|i: int| 0 <= i < s.len() ==> (#[trigger] s[i]).len() == 32) by {
        assert forall|i: int| 0 <= i < s.len() implies (#[trigger] s[i]).len() == 32 by {
            assert(s[i] == x.digests@[i]@);
        }
    }
    lemma_digest_vec_roundtrip(b, 0, s);
}

/// A bulk certificate reply on the wire: the counted certificates.
pub open spec fn ser_get_certificates_response(x: &GetCertificatesResponse) -> Seq<u8> {
    ser_cert_vec(x.certificates@)
}

pub open spec fn parse_get_certificates_response(b: Seq<u8>, pos: int) -> Option<
    (Seq<CertificateFields>, int),
> {
    parse_cert_vec(b, pos)
}

pub fn encode_get_certificates_response(out: &mut Vec<u8>, x: &GetCertificatesResponse)
    ensures
        final(out)@ == old(out)@ + ser_get_certificates_response(x),
{
    encode_cert_vec_counted(out, &x.certificates)
}

pub fn decode_get_certificates_response(buf: &Vec<u8>, pos: usize) -> (r: Option<
    (GetCertificatesResponse, usize),
>)
    ensures
        parse_get_certificates_response(buf@, pos as int) is None ==> r is None,
        r is Some ==> {
            let (s, end) = parse_get_certificates_response(buf@, pos as int).unwrap();
            &&& parse_get_certificates_response(buf@, pos as int) is Some
            &&& r.unwrap().0.certificates@.len() == s.len()
            &&& forall|i: int|
                0 <= i < s.len() ==> cert_matches_fields(
                    (#[trigger] r.unwrap().0.certificates@[i]).v1(),
                    s[i],
                )
            &&& r.unwrap().1 == end
        },
{
    match decode_cert_vec_counted(buf, pos) {
        Some((certificates, end)) => Some((GetCertificatesResponse { certificates }, end)),
        None => None,
    }
}

/// Parsing a serialized bulk reply recovers the certificates' fields.
pub proof fn lemma_get_certificates_response_roundtrip(x: &GetCertificatesResponse)
    requires
        forall|i: int|
            0 <= i < x.certificates@.len() ==> (#[trigger] x.certificates@[i]).v1().header.v1().wf(),
    ensures
        parse_get_certificates_response(ser_get_certificates_response(x), 0) matches Some(r)
            && r.0.len() == x.certificates@.len() && (forall|i: int|
            0 <= i < x.certificates@.len() ==> (#[trigger] r.0[i]).0
                == crate::header::header_fields(x.certificates@[i].v1().header.v1())),
{
    let b = ser_get_certificates_response(x);
    assert(b.subrange(0, b.len() as int) =~= b);
    lemma_cert_vec_roundtrip(b, 0, x.certificates@);
}

/// One per-authority skip entry on the wire: the authority, then its
/// serialized bitmap with a length prefix.
pub open spec fn ser_skip_entry(e: (AuthorityIdentifier, Seq<u8>)) -> Seq<u8> {
    le_bytes(e.0.0 as nat, 2) + ser_bytes(e.1)
}

/// Consecutive skip entries, without the count prefix.
pub open spec fn ser_skip_seq(s: Seq<(AuthorityIdentifier, Seq<u8>)>) -> Seq<u8>
    decreases s.len(),
{
    if s.len() == 0 {
        Seq::empty()
    } else {
        ser_skip_entry(s[0]) + ser_skip_seq(s.subrange(1, s.len() as int))
    }
}

/// `n` consecutive skip entries starting at `pos`.
pub open spec fn parse_skip_seq(b: Seq<u8>, pos: int, n: nat) -> Option<
    (Seq<(AuthorityIdentifier, Seq<u8>)>, int),
>
    decreases n,
{
    if n == 0 {
        Some((Seq::empty(), pos))
    } else if pos < 0 || pos + 2 > b.len() {
        None
    } else {
        let id = AuthorityIdentifier(parse_le_val(b, pos, 2) as u16);
        match parse_bytes(b, pos + 2) {
            Some((bytes, p)) => match parse_skip_seq(b, p, (n - 1) as nat) {
                Some((rest, end)) => Some((seq![(id, bytes)] + rest, end)),
                None => None,
            },
            None => None,
        }
    }
}

pub proof fn lemma_ser_skip_seq_min(s: Seq<(AuthorityIdentifier, Seq<u8>)>)
    ensures
        ser_skip_seq(s).len() >= s.len(),
    decreases s.len(),
{
    if s.len() > 0 {
        lemma_ser_skip_seq_min(s.subrange(1, s.len() as int));
        lemma_le_bytes_len(s[0].0.0 as nat, 2);
    }
}

/// Parsing serialized skip entries recovers them.
pub proof fn lemma_skip_seq_roundtrip(b: Seq<u8>, pos: int, s: Seq<(AuthorityIdentifier, Seq<u8>)>)
    requires
        0 <= pos,
        pos + ser_skip_seq(s).len() <= b.len(),
        b.subrange(pos, pos + ser_skip_seq(s).len()) == ser_skip_seq(s),
    ensures
        parse_skip_seq(b, pos, s.len()) == Some((s, pos + ser_skip_seq(s).len())),
    decreases s.len(),
{
    if s.len() > 0 {
        let rest = s.subrange(1, s.len() as int);
        let f1 = le_bytes(s[0].0.0 as nat, 2);
        let f2 = ser_bytes(s[0].1);
        lemma_le_bytes_len(s[0].0.0 as nat, 2);
        assert(ser_skip_seq(s) =~= ser_skip_entry(s[0]) + ser_skip_seq(rest));
        lemma_concat_split(b, pos, ser_skip_entry(s[0]), ser_skip_seq(rest));
        assert(ser_skip_entry(s[0]) =~= f1 + f2);
        lemma_concat_split(b, pos, f1, f2);
        lemma_pow256_8();
        assert(pow256(2) == 0x1_0000);
        lemma_le_roundtrip(b, pos, s[0].0.0 as nat, 2);
        crate::codec::lemma_bytes_roundtrip(b, pos + 2, s[0].1);
        lemma_skip_seq_roundtrip(b, pos + ser_skip_entry(s[0]).len(), rest);
        assert(parse_skip_seq(b, pos, s.len()).unwrap().0 =~= s);
    }
}

/// A fetch request on the wire: the lower bound, the counted skip entries,
/// the item cap.
pub open spec fn ser_fetch_certificates_request(x: &FetchCertificatesRequest) -> Seq<u8> {
    le_bytes(x.exclusive_lower_bound as nat, 8) + uleb(x.skip_rounds@.len()) + ser_skip_seq(
        x.skip_rounds@.map_values(|e: (AuthorityIdentifier, Vec<u8>)| (e.0, e.1@)),
    ) + le_bytes(x.max_items as nat, 8)
}

pub open spec fn parse_fetch_certificates_request(b: Seq<u8>, pos: int) -> Option<
    ((u64, Seq<(AuthorityIdentifier, Seq<u8>)>, u64), int),
> {
    if pos < 0 || pos + 8 > b.len() {
        None
    } else {
        let lower = parse_le_val(b, pos, 8) as u64;
        match parse_uleb(b, pos + 8) {
            Some((n, p)) => if n > b.len() {
                None
            } else {
                match parse_skip_seq(b, p, n) {
                    Some((entries, p2)) => if p2 + 8 > b.len() || parse_le_val(b, p2, 8)
                        > usize::MAX {
                        None
                    } else {
                        Some(((lower, entries, parse_le_val(b, p2, 8) as u64), p2 + 8))
                    },
                    None => None,
                }
            },
            None => None,
        }
    }
}

pub fn encode_fetch_certificates_request(out: &mut Vec<u8>, x: &FetchCertificatesRequest)
    ensures
        final(out)@ == old(out)@ + ser_fetch_certificates_request(x),
{
    proof {
        lemma_pow256_8();
    }
    encode_uint_le(out, x.exclusive_lower_bound, 8);
    encode_uleb(out, x.skip_rounds.len() as u64);
    let ghost s = x.skip_rounds@.map_values(|e: (AuthorityIdentifier, Vec<u8>)| (e.0, e.1@));
    let ghost head = out@;
    proof {
        assert(s.skip(0) =~= s);
        assert(out@.skip(head.len() as int) =~= Seq::<u8>::empty());
        assert(ser_skip_seq(s) =~= out@.skip(head.len() as int) + ser_skip_seq(s.skip(0)));
    }
    let mut i: usize = 0;
    while i < x.skip_rounds.len()
        invariant
            i <= x.skip_rounds.len(),
            s == x.skip_rounds@.map_values(|e: (AuthorityIdentifier, Vec<u8>)| (e.0, e.1@)),
            ser_skip_seq(s) =~= out@.skip(head.len() as int) + ser_skip_seq(s.skip(i as int)),
            out@.subrange(0, head.len() as int) =~= head,
            out@.len() >= head.len(),
        decreases x.skip_rounds.len() - i,
    {
        proof {
            assert(s.skip(i as int)[0] == s[i as int]);
            assert(s.skip(i as int).subrange(1, s.skip(i as int).len() as int) =~= s.skip(i + 1));
            lemma_pow256_8();
            assert(pow256(2) == 0x1_0000);
        }
        encode_uint_le(out, x.skip_rounds[i].0.0 as u64, 2);
        encode_bytes(out, &x.skip_rounds[i].1);
        i = i + 1;
        proof {
            assert(ser_skip_seq(s) =~= out@.skip(head.len() as int) + ser_skip_seq(
                s.skip(i as int),
            ));
            assert(out@.subrange(0, head.len() as int) =~= head);
        }
    }
    proof {
        assert(s.skip(s.len() as int) =~= Seq::<(AuthorityIdentifier, Seq<u8>)>::empty());
        assert(out@ =~= head + ser_skip_seq(s));
        lemma_pow256_8();
    }
    encode_uint_le(out, x.max_items as u64, 8);
    proof {
        assert(out@ =~= old(out)@ + ser_fetch_certificates_request(x));
    }
}

/// Read `n` skip entries at `pos`.
fn decode_skip_seq(buf: &Vec<u8>, pos: usize, n: u64) -> (r: Option<
    (Vec<(AuthorityIdentifier, Vec<u8>)>, usize),
>)
    ensures
        r is Some <==> parse_skip_seq(buf@, pos as int, n as nat) is Some,
        r is Some ==> {
            let (s, end) = parse_skip_seq(buf@, pos as int, n as nat).unwrap();
            &&& r.unwrap().0@.map_values(|e: (AuthorityIdentifier, Vec<u8>)| (e.0, e.1@)) == s
            &&& r.unwrap().1 == end
        },
    decreases n,
{
    if n == 0 {
        let v: Vec<(AuthorityIdentifier, Vec<u8>)> = Vec::new();
        proof {
            assert(v@.map_values(|e: (AuthorityIdentifier, Vec<u8>)| (e.0, e.1@)) =~= Seq::<
                (AuthorityIdentifier, Seq<u8>),
            >::empty());
        }
        return Some((v, pos));
    }
    let blen = buf.len();
    if pos > blen || 2 > blen - pos {
        return None;
    }
    proof {
        lemma_pow256_8();
        assert(pow256(2) == 0x1_0000);
        crate::vote::lemma_parse_le_fits(buf@, pos as int, 2);
    }
    let id = decode_uint_le(buf, pos, 2).unwrap().0 as u16;
    let bytes = match decode_bytes(buf, pos + 2) {
        None => {
            proof {
                assert(buf@.len() == blen);
                if parse_uleb(buf@, pos + 2) matches Some(q) && q.0 > u64::MAX {
                    crate::codec::lemma_parse_uleb_bounds(buf@, pos + 2);
                    assert(parse_bytes(buf@, pos + 2) is None);
                }
            }
            return None;
        },
        Some(t) => t,
    };
    let (v0, p) = bytes;
    match decode_skip_seq(buf, p, n - 1) {
        Some((mut rest, end)) => {
            rest.insert(0, (AuthorityIdentifier(id), v0));
            proof {
                let (s, _e) = parse_skip_seq(buf@, pos as int, n as nat).unwrap();
                assert(rest@.map_values(|e: (AuthorityIdentifier, Vec<u8>)| (e.0, e.1@)) =~= s);
            }
            Some((rest, end))
        },
        None => None,
    }
}

pub fn decode_fetch_certificates_request(buf: &Vec<u8>, pos: usize) -> (r: Option<
    (FetchCertificatesRequest, usize),
>)
    ensures
        r is Some <==> parse_fetch_certificates_request(buf@, pos as int) is Some,
        r is Some ==> {
            let (f, end) = parse_fetch_certificates_request(buf@, pos as int).unwrap();
            &&& r.unwrap().0.exclusive_lower_bound == f.0
            &&& r.unwrap().0.skip_rounds@.map_values(
                |e: (AuthorityIdentifier, Vec<u8>)| (e.0, e.1@),
            ) == f.1
            &&& r.unwrap().0.max_items == f.2
            &&& r.unwrap().1 == end
        },
{
    let blen = buf.len();
    if pos > blen || 8 > blen - pos {
        return None;
    }
    proof {
        lemma_pow256_8();
        crate::vote::lemma_parse_le_fits(buf@, pos as int, 8);
    }
    let lower = decode_uint_le(buf, pos, 8).unwrap().0;
    let cnt = match decode_uleb(buf, pos + 8) {
        None => {
            proof {
                assert(buf@.len() == blen);
            }
            return None;
        },
        Some(t) => t,
    };
    let (n, p) = cnt;
    if n > blen as u64 {
        return None;
    }
    let entries = match decode_skip_seq(buf, p, n) {
        None => {
            return None;
        },
        Some(t) => t,
    };
    let (skip_rounds, p2) = entries;
    if p2 > blen || 8 > blen - p2 {
        return None;
    }
    proof {
        crate::vote::lemma_parse_le_fits(buf@, p2 as int, 8);
    }
    let max_items_raw = decode_uint_le(buf, p2, 8).unwrap().0;
    if max_items_raw > usize::MAX as u64 {
        return None;
    }
    let max_items = max_items_raw as usize;
    Some(
        (
            FetchCertificatesRequest { exclusive_lower_bound: lower, skip_rounds, max_items },
            p2 + 8,
        ),
    )
}

/// Parsing a serialized fetch request recovers it exactly.
pub proof fn lemma_fetch_certificates_request_roundtrip(x: &FetchCertificatesRequest)
    ensures
        parse_fetch_certificates_request(ser_fetch_certificates_request(x), 0) == Some(
            (
                (
                    x.exclusive_lower_bound,
                    x.skip_rounds@.map_values(
                        |e: (AuthorityIdentifier, Vec<u8>)| (e.0, e.1@),
                    ),
                    x.max_items as u64,
                ),
                ser_fetch_certificates_request(x).len() as int,
            ),
        ),
{
    let b = ser_fetch_certificates_request(x);
    let s = x.skip_rounds@.map_values(|e: (AuthorityIdentifier, Vec<u8>)| (e.0, e.1@));
    let f1 = le_bytes(x.exclusive_lower_bound as nat, 8);
    let f2 = uleb(s.len());
    let f3 = ser_skip_seq(s);
    let f4 = le_bytes(x.max_items as nat, 8);
    lemma_pow256_8();
    lemma_le_bytes_len(x.exclusive_lower_bound as nat, 8);
    lemma_le_bytes_len(x.max_items as nat, 8);
    lemma_ser_skip_seq_min(s);
    assert(b.subrange(0, b.len() as int) =~= b);
    assert(b =~= f1 + (f2 + f3 + f4));
    lemma_concat_split(b, 0, f1, f2 + f3 + f4);
    lemma_le_roundtrip(b, 0, x.exclusive_lower_bound as nat, 8);
    assert(f2 + f3 + f4 =~= f2 + (f3 + f4));
    lemma_concat_split(b, 8, f2, f3 + f4);
    lemma_uleb_roundtrip(b, 8, s.len());
    let p: int = 8 + f2.len() as int;
    lemma_concat_split(b, p, f3, f4);
    lemma_skip_seq_roundtrip(b, p, s);
    lemma_le_roundtrip(b, p + f3.len(), x.max_items as nat, 8);
}

/// A fetch reply on the wire: the counted certificates, sorted from lower
/// to higher rounds.
pub open spec fn ser_fetch_certificates_response(x: &FetchCertificatesResponse) -> Seq<u8> {
    ser_cert_vec(x.certificates@)
}

pub open spec fn parse_fetch_certificates_response(b: Seq<u8>, pos: int) -> Option<
    (Seq<CertificateFields>, int),
> {
    parse_cert_vec(b, pos)
}

pub fn encode_fetch_certificates_response(out: &mut Vec<u8>, x: &FetchCertificatesResponse)
    ensures
        final(out)@ == old(out)@ + ser_fetch_certificates_response(x),
{
    encode_cert_vec_counted(out, &x.certificates)
}

pub fn decode_fetch_certificates_response(buf: &Vec<u8>, pos: usize) -> (r: Option<
    (FetchCertificatesResponse, usize),
>)
    ensures
        parse_fetch_certificates_response(buf@, pos as int) is None ==> r is None,
        r is Some ==> {
            let (s, end) = parse_fetch_certificates_response(buf@, pos as int).unwrap();
            &&& parse_fetch_certificates_response(buf@, pos as int) is Some
            &&& r.unwrap().0.certificates@.len() == s.len()
            &&& forall|i: int|
                0 <= i < s.len() ==> cert_matches_fields(
                    (#[trigger] r.unwrap().0.certificates@[i]).v1(),
                    s[i],
                )
            &&& r.unwrap().1 == end
        },
{
    match decode_cert_vec_counted(buf, pos) {
        Some((certificates, end)) => Some((FetchCertificatesResponse { certificates }, end)),
        None => None,
    }
}


/// An optional vote on the wire: a presence byte, then the vote.
pub open spec fn ser_opt_vote(v: Option<Vote>) -> Seq<u8> {
    match v {
        None => seq![0u8],
        Some(vote) => seq![1u8] + crate::vote::ser_vote(vote),
    }
}

pub open spec fn parse_opt_vote(b: Seq<u8>, pos: int) -> Option<
    (Option<crate::vote::VoteFields>, int),
> {
    if pos < 0 || pos >= b.len() {
        None
    } else if b[pos] == 0 {
        Some((None, pos + 1))
    } else if b[pos] == 1 {
        match crate::vote::parse_vote(b, pos + 1) {
            Some((f, end)) => Some((Some(f), end)),
            None => None,
        }
    } else {
        None
    }
}

pub fn encode_opt_vote(out: &mut Vec<u8>, v: &Option<Vote>)
    ensures
        final(out)@ == old(out)@ + ser_opt_vote(*v),
{
    match v {
        None => {
            out.push(0u8);
        },
        Some(vote) => {
            out.push(1u8);
            crate::vote::encode_vote(out, vote);
        },
    }
    proof {
        assert(out@ =~= old(out)@ + ser_opt_vote(*v));
    }
}

pub fn decode_opt_vote(buf: &Vec<u8>, pos: usize) -> (r: Option<(Option<Vote>, usize)>)
    ensures
        r is Some <==> parse_opt_vote(buf@, pos as int) is Some,
        r is Some ==> {
            let (f, end) = parse_opt_vote(buf@, pos as int).unwrap();
            &&& (r.unwrap().0 is Some <==> f is Some)
            &&& (r.unwrap().0 matches Some(v) ==> crate::vote::vote_fields(v.v1())
                == f.unwrap())
            &&& r.unwrap().1 == end
        },
{
    if pos >= buf.len() {
        return None;
    }
    let tag = buf[pos];
    if tag == 0 {
        return Some((None, pos + 1));
    }
    if tag != 1 {
        return None;
    }
    match crate::vote::decode_vote(buf, pos + 1) {
        Some((v, end)) => Some((Some(v), end)),
        None => None,
    }
}

/// A vote request on the wire: the header, then the counted parent
/// certificates.
pub open spec fn ser_request_vote_request(x: &RequestVoteRequest) -> Seq<u8> {
    crate::header::ser_header(&x.header) + ser_cert_vec(x.parents@)
}

pub open spec fn parse_request_vote_request(b: Seq<u8>, pos: int) -> Option<
    ((crate::header::HeaderFields, Seq<CertificateFields>), int),
> {
    match crate::header::parse_header(b, pos) {
        Some((hf, p)) => match parse_cert_vec(b, p) {
            Some((certs, end)) => Some(((hf, certs), end)),
            None => None,
        },
        None => None,
    }
}

pub fn encode_request_vote_request(out: &mut Vec<u8>, x: &RequestVoteRequest)
    ensures
        final(out)@ == old(out)@ + ser_request_vote_request(x),
{
    crate::header::encode_header(out, &x.header);
    encode_cert_vec_counted(out, &x.parents);
    proof {
        assert(out@ =~= old(out)@ + ser_request_vote_request(x));
    }
}

pub fn decode_request_vote_request(buf: &Vec<u8>, pos: usize) -> (r: Option<
    (RequestVoteRequest, usize),
>)
    ensures
        parse_request_vote_request(buf@, pos as int) is None ==> r is None,
        r is Some ==> {
            let (f, end) = parse_request_vote_request(buf@, pos as int).unwrap();
            &&& parse_request_vote_request(buf@, pos as int) is Some
            &&& crate::header::header_fields(r.unwrap().0.header.v1()) == f.0
            &&& r.unwrap().0.parents@.len() == f.1.len()
            &&& forall|i: int|
                0 <= i < f.1.len() ==> cert_matches_fields(
                    (#[trigger] r.unwrap().0.parents@[i]).v1(),
                    f.1[i],
                )
            &&& r.unwrap().1 == end
        },
{
    let hr = crate::header::decode_header(buf, pos);
    let (header, p) = match hr {
        None => {
            return None;
        },
        Some(t) => t,
    };
    match decode_cert_vec_counted(buf, p) {
        Some((parents, end)) => Some((RequestVoteRequest { header, parents }, end)),
        None => None,
    }
}

/// Parsing a serialized vote request recovers the header fields and the
/// parents' fields.
pub proof fn lemma_request_vote_request_roundtrip(x: &RequestVoteRequest)
    requires
        x.header.v1().wf(),
        forall|i: int| 0 <= i < x.parents@.len() ==> (#[trigger] x.parents@[i]).v1().header.v1().wf(),
    ensures
        parse_request_vote_request(ser_request_vote_request(x), 0) matches Some(r) && r.0.0
            == crate::header::header_fields(x.header.v1()) && r.0.1.len() == x.parents@.len(),
{
    let b = ser_request_vote_request(x);
    let f1 = crate::header::ser_header(&x.header);
    let f2 = ser_cert_vec(x.parents@);
    assert(b.subrange(0, b.len() as int) =~= b);
    lemma_concat_split(b, 0, f1, f2);
    crate::header::lemma_header_roundtrip(b, 0, &x.header);
    lemma_cert_vec_roundtrip(b, f1.len() as int, x.parents@);
}

/// A vote reply on the wire: the optional vote, then the counted missing
/// digests.
pub open spec fn ser_request_vote_response(x: &RequestVoteResponse) -> Seq<u8> {
    ser_opt_vote(x.vote) + ser_digest_vec(x.missing@.map_values(|d: CertificateDigest| d@))
}

pub open spec fn parse_request_vote_response(b: Seq<u8>, pos: int) -> Option<
    ((Option<crate::vote::VoteFields>, Seq<Seq<u8>>), int),
> {
    match parse_opt_vote(b, pos) {
        Some((v, p)) => match parse_digest_vec(b, p) {
            Some((missing, end)) => Some(((v, missing), end)),
            None => None,
        },
        None => None,
    }
}

pub fn encode_request_vote_response(out: &mut Vec<u8>, x: &RequestVoteResponse)
    ensures
        final(out)@ == old(out)@ + ser_request_vote_response(x),
{
    encode_opt_vote(out, &x.vote);
    encode_cert_digest_vec(out, &x.missing);
    proof {
        assert(out@ =~= old(out)@ + ser_request_vote_response(x));
    }
}

pub fn decode_request_vote_response(buf: &Vec<u8>, pos: usize) -> (r: Option<
    (RequestVoteResponse, usize),
>)
    ensures
        r is Some <==> parse_request_vote_response(buf@, pos as int) is Some,
        r is Some ==> {
            let (f, end) = parse_request_vote_response(buf@, pos as int).unwrap();
            &&& (r.unwrap().0.vote is Some <==> f.0 is Some)
            &&& (r.unwrap().0.vote matches Some(v) ==> crate::vote::vote_fields(v.v1())
                == f.0.unwrap())
            &&& r.unwrap().0.missing@.map_values(|d: CertificateDigest| d@) == f.1
            &&& r.unwrap().1 == end
        },
{
    let vr = decode_opt_vote(buf, pos);
    let (vote, p) = match vr {
        None => {
            return None;
        },
        Some(t) => t,
    };
    match decode_cert_digest_vec(buf, p) {
        Some((missing, end)) => Some((RequestVoteResponse { vote, missing }, end)),
        None => None,
    }
}

/// Parsing a serialized vote reply recovers the vote fields and the
/// missing digests.
pub proof fn lemma_request_vote_response_roundtrip(x: &RequestVoteResponse)
    ensures
        parse_request_vote_response(ser_request_vote_response(x), 0) matches Some(r)
            && (r.0.0 is Some <==> x.vote is Some) && (x.vote matches Some(v) ==> r.0.0
            == Some(crate::vote::vote_fields(v.v1()))) && r.0.1 == x.missing@.map_values(
            |d: CertificateDigest| d@,
        ),
{
    let b = ser_request_vote_response(x);
    let f1 = ser_opt_vote(x.vote);
    let f2 = ser_digest_vec(x.missing@.map_values(|d: CertificateDigest| d@));
    assert(b.subrange(0, b.len() as int) =~= b);
    lemma_concat_split(b, 0, f1, f2);
    match x.vote {
        None => {},
        Some(v) => {
            assert(f1 =~= seq![1u8] + crate::vote::ser_vote(v));
            lemma_concat_split(b, 0, seq![1u8], crate::vote::ser_vote(v));
            crate::vote::lemma_vote_roundtrip(b, 1, v);
        },
    }
    let s = x.missing@.map_values(|d: CertificateDigest| d@);
    assert(forall|i: int| 0 <= i < s.len() ==> (#[trigger] s[i]).len() == 32) by {
        assert forall|i: int| 0 <= i < s.len() implies (#[trigger] s[i]).len() == 32 by {
            assert(s[i] == x.missing@[i]@);
        }
    }
    lemma_digest_vec_roundtrip(b, f1.len() as int, s);
}

/// An availability query on the wire: the counted digests.
pub open spec fn ser_payload_availability_request(x: &PayloadAvailabilityRequest) -> Seq<u8> {
    ser_digest_vec(x.certificate_digests@.map_values(|d: CertificateDigest| d@))
}

pub open spec fn parse_payload_availability_request(b: Seq<u8>, pos: int) -> Option<
    (Seq<Seq<u8>>, int),
> {
    parse_digest_vec(b, pos)
}

pub fn encode_payload_availability_request(out: &mut Vec<u8>, x: &PayloadAvailabilityRequest)
    ensures
        final(out)@ == old(out)@ + ser_payload_availability_request(x),
{
    encode_cert_digest_vec(out, &x.certificate_digests)
}

pub fn decode_payload_availability_request(buf: &Vec<u8>, pos: usize) -> (r: Option<
    (PayloadAvailabilityRequest, usize),
>)
    ensures
        r is Some <==> parse_payload_availability_request(buf@, pos as int) is Some,
        r is Some ==> {
            let (s, end) = parse_payload_availability_request(buf@, pos as int).unwrap();
            &&& r.unwrap().0.certificate_digests@.map_values(|d: CertificateDigest| d@) == s
            &&& r.unwrap().1 == end
        },
{
    match decode_cert_digest_vec(buf, pos) {
        Some((certificate_digests, end)) => Some(
            (PayloadAvailabilityRequest { certificate_digests }, end),
        ),
        None => None,
    }
}

/// One availability entry on the wire: the digest, then the flag.
pub open spec fn ser_avail_entry(e: (Seq<u8>, bool)) -> Seq<u8> {
    e.0 + ser_bool(e.1)
}

/// Consecutive availability entries, without the count prefix.
pub open spec fn ser_avail_seq(s: Seq<(Seq<u8>, bool)>) -> Seq<u8>
    decreases s.len(),
{
    if s.len() == 0 {
        Seq::empty()
    } else {
        ser_avail_entry(s[0]) + ser_avail_seq(s.subrange(1, s.len() as int))
    }
}

/// `n` consecutive availability entries starting at `pos`.
pub open spec fn parse_avail_seq(b: Seq<u8>, pos: int, n: nat) -> Option<
    (Seq<(Seq<u8>, bool)>, int),
>
    decreases n,
{
    if n == 0 {
        Some((Seq::empty(), pos))
    } else if pos < 0 || pos + 33 > b.len() {
        None
    } else {
        match parse_bool(b, pos + 32) {
            Some((flag, _p)) => match parse_avail_seq(b, pos + 33, (n - 1) as nat) {
                Some((rest, end)) => Some(
                    (seq![(b.subrange(pos, pos + 32), flag)] + rest, end),
                ),
                None => None,
            },
            None => None,
        }
    }
}

pub proof fn lemma_avail_seq_roundtrip(b: Seq<u8>, pos: int, s: Seq<(Seq<u8>, bool)>)
    requires
        forall|i: int| 0 <= i < s.len() ==> (#[trigger] s[i]).0.len() == 32,
        0 <= pos,
        pos + ser_avail_seq(s).len() <= b.len(),
        b.subrange(pos, pos + ser_avail_seq(s).len()) == ser_avail_seq(s),
    ensures
        parse_avail_seq(b, pos, s.len()) == Some((s, pos + ser_avail_seq(s).len())),
    decreases s.len(),
{
    if s.len() > 0 {
        let rest = s.subrange(1, s.len() as int);
        assert(forall|i: int| 0 <= i < rest.len() ==> (#[trigger] rest[i]).0.len() == 32) by {
            assert forall|i: int|
                0 <= i < rest.len() implies (#[trigger] rest[i]).0.len() == 32 by {
                assert(rest[i] == s[i + 1]);
            }
        }
        lemma_ser_avail_seq_len(s);
        lemma_ser_avail_seq_len(rest);
        assert(ser_avail_seq(s) =~= ser_avail_entry(s[0]) + ser_avail_seq(rest));
        lemma_concat_split(b, pos, ser_avail_entry(s[0]), ser_avail_seq(rest));
        assert(ser_avail_entry(s[0]) =~= s[0].0 + ser_bool(s[0].1));
        lemma_concat_split(b, pos, s[0].0, ser_bool(s[0].1));
        assert(b.subrange(pos, pos + 32) == s[0].0);
        assert(b[pos + 32] == ser_bool(s[0].1)[0]);
        lemma_avail_seq_roundtrip(b, pos + 33, rest);
        assert(parse_avail_seq(b, pos, s.len()).unwrap().0 =~= s);
    }
}

pub proof fn lemma_ser_avail_seq_len(s: Seq<(Seq<u8>, bool)>)
    requires
        forall|i: int| 0 <= i < s.len() ==> (#[trigger] s[i]).0.len() == 32,
    ensures
        ser_avail_seq(s).len() == 33 * s.len(),
    decreases s.len(),
{
    if s.len() > 0 {
        let rest = s.subrange(1, s.len() as int);
        assert(forall|i: int| 0 <= i < rest.len() ==> (#[trigger] rest[i]).0.len() == 32) by {
            assert forall|i: int|
                0 <= i < rest.len() implies (#[trigger] rest[i]).0.len() == 32 by {
                assert(rest[i] == s[i + 1]);
            }
        }
        lemma_ser_avail_seq_len(rest);
    }
}

/// An availability reply on the wire: the counted (digest, flag) pairs.
pub open spec fn ser_payload_availability_response(x: &PayloadAvailabilityResponse) -> Seq<u8> {
    uleb(x.payload_availability@.len()) + ser_avail_seq(
        x.payload_availability@.map_values(|e: (CertificateDigest, bool)| (e.0@, e.1)),
    )
}

pub open spec fn parse_payload_availability_response(b: Seq<u8>, pos: int) -> Option<
    (Seq<(Seq<u8>, bool)>, int),
> {
    match parse_uleb(b, pos) {
        Some((n, p)) => if n > b.len() {
            None
        } else {
            parse_avail_seq(b, p, n)
        },
        None => None,
    }
}

pub fn encode_payload_availability_response(out: &mut Vec<u8>, x: &PayloadAvailabilityResponse)
    ensures
        final(out)@ == old(out)@ + ser_payload_availability_response(x),
{
    encode_uleb(out, x.payload_availability.len() as u64);
    let ghost s = x.payload_availability@.map_values(
        |e: (CertificateDigest, bool)| (e.0@, e.1),
    );
    let ghost head = out@;
    proof {
        assert(s.skip(0) =~= s);
        assert(out@.skip(head.len() as int) =~= Seq::<u8>::empty());
        assert(ser_avail_seq(s) =~= out@.skip(head.len() as int) + ser_avail_seq(s.skip(0)));
    }
    let mut i: usize = 0;
    while i < x.payload_availability.len()
        invariant
            i <= x.payload_availability.len(),
            s == x.payload_availability@.map_values(
                |e: (CertificateDigest, bool)| (e.0@, e.1),
            ),
            ser_avail_seq(s) =~= out@.skip(head.len() as int) + ser_avail_seq(s.skip(i as int)),
            out@.subrange(0, head.len() as int) =~= head,
            out@.len() >= head.len(),
        decreases x.payload_availability.len() - i,
    {
        proof {
            assert(s.skip(i as int)[0] == s[i as int]);
            assert(s.skip(i as int).subrange(1, s.skip(i as int).len() as int) =~= s.skip(i + 1));
        }
        append_digest(out, &x.payload_availability[i].0.0);
        encode_bool(out, x.payload_availability[i].1);
        i = i + 1;
        proof {
            assert(ser_avail_seq(s) =~= out@.skip(head.len() as int) + ser_avail_seq(
                s.skip(i as int),
            ));
            assert(out@.subrange(0, head.len() as int) =~= head);
        }
    }
    proof {
        assert(s.skip(s.len() as int) =~= Seq::<(Seq<u8>, bool)>::empty());
        assert(out@ =~= head + ser_avail_seq(s));
        assert(out@ =~= old(out)@ + ser_payload_availability_response(x));
    }
}

/// Read `n` availability entries at `pos`.
fn decode_avail_seq(buf: &Vec<u8>, pos: usize, n: u64) -> (r: Option<
    (Vec<(CertificateDigest, bool)>, usize),
>)
    ensures
        r is Some <==> parse_avail_seq(buf@, pos as int, n as nat) is Some,
        r is Some ==> {
            let (s, end) = parse_avail_seq(buf@, pos as int, n as nat).unwrap();
            &&& r.unwrap().0@.map_values(|e: (CertificateDigest, bool)| (e.0@, e.1)) == s
            &&& r.unwrap().1 == end
        },
    decreases n,
{
    if n == 0 {
        let v: Vec<(CertificateDigest, bool)> = Vec::new();
        proof {
            assert(v@.map_values(|e: (CertificateDigest, bool)| (e.0@, e.1)) =~= Seq::<
                (Seq<u8>, bool),
            >::empty());
        }
        return Some((v, pos));
    }
    if pos > buf.len() || 33 > buf.len() - pos {
        return None;
    }
    let d = crate::crypto::take_array::<32>(buf, pos);
    let flag = match decode_bool(buf, pos + 32) {
        None => {
            return None;
        },
        Some(t) => t.0,
    };
    match decode_avail_seq(buf, pos + 33, n - 1) {
        Some((mut rest, end)) => {
            rest.insert(0, (CertificateDigest::new(d), flag));
            proof {
                let (s, _e) = parse_avail_seq(buf@, pos as int, n as nat).unwrap();
                assert(rest@.map_values(|e: (CertificateDigest, bool)| (e.0@, e.1)) =~= s);
            }
            Some((rest, end))
        },
        None => None,
    }
}

pub fn decode_payload_availability_response(buf: &Vec<u8>, pos: usize) -> (r: Option<
    (PayloadAvailabilityResponse, usize),
>)
    ensures
        r is Some <==> parse_payload_availability_response(buf@, pos as int) is Some,
        r is Some ==> {
            let (s, end) = parse_payload_availability_response(buf@, pos as int).unwrap();
            &&& r.unwrap().0.payload_availability@.map_values(
                |e: (CertificateDigest, bool)| (e.0@, e.1),
            ) == s
            &&& r.unwrap().1 == end
        },
{
    let blen = buf.len();
    let cnt = match decode_uleb(buf, pos) {
        None => {
            proof {
                assert(buf@.len() == blen);
            }
            return None;
        },
        Some(t) => t,
    };
    let (n, p) = cnt;
    if n > blen as u64 {
        return None;
    }
    match decode_avail_seq(buf, p, n) {
        Some((payload_availability, end)) => Some(
            (PayloadAvailabilityResponse { payload_availability }, end),
        ),
        None => None,
    }
}

/// Parsing a serialized availability reply recovers it.
pub proof fn lemma_payload_availability_response_roundtrip(x: &PayloadAvailabilityResponse)
    ensures
        parse_payload_availability_response(ser_payload_availability_response(x), 0) == Some(
            (
                x.payload_availability@.map_values(
                    |e: (CertificateDigest, bool)| (e.0@, e.1),
                ),
                ser_payload_availability_response(x).len() as int,
            ),
        ),
{
    let s = x.payload_availability@.map_values(|e: (CertificateDigest, bool)| (e.0@, e.1));
    let b = ser_payload_availability_response(x);
    assert(forall|i: int| 0 <= i < s.len() ==> (#[trigger] s[i]).0.len() == 32) by {
        assert forall|i: int| 0 <= i < s.len() implies (#[trigger] s[i]).0.len() == 32 by {
            assert(s[i].0 == x.payload_availability@[i].0@);
        }
    }
    lemma_ser_avail_seq_len(s);
    assert(b.subrange(0, b.len() as int) =~= b);
    lemma_concat_split(b, 0, uleb(s.len()), ser_avail_seq(s));
    lemma_uleb_roundtrip(b, 0, s.len());
    lemma_avail_seq_roundtrip(b, uleb(s.len()).len() as int, s);
}

/// A worker synchronize direction on the wire: the counted batch digests,
/// the target authority, the certification flag.
pub open spec fn ser_worker_synchronize_message(x: &WorkerSynchronizeMessage) -> Seq<u8> {
    ser_digest_vec(x.digests@.map_values(|d: BatchDigest| d@)) + le_bytes(x.target.0 as nat, 2)
        + ser_bool(x.is_certified)
}

pub open spec fn parse_worker_synchronize_message(b: Seq<u8>, pos: int) -> Option<
    ((Seq<Seq<u8>>, u16, bool), int),
> {
    match parse_digest_vec(b, pos) {
        Some((digests, p)) => {
            if p + 2 > b.len() {
                None
            } else {
                match parse_bool(b, p + 2) {
                    Some((flag, end)) => Some(
                        ((digests, parse_le_val(b, p, 2) as u16, flag), end),
                    ),
                    None => None,
                }
            }
        },
        None => None,
    }
}

pub fn encode_worker_synchronize_message(out: &mut Vec<u8>, x: &WorkerSynchronizeMessage)
    ensures
        final(out)@ == old(out)@ + ser_worker_synchronize_message(x),
{
    encode_batch_digest_vec(out, &x.digests);
    proof {
        lemma_pow256_8();
        assert(pow256(2) == 0x1_0000);
    }
    encode_uint_le(out, x.target.0 as u64, 2);
    encode_bool(out, x.is_certified);
    proof {
        assert(out@ =~= old(out)@ + ser_worker_synchronize_message(x));
    }
}

pub fn decode_worker_synchronize_message(buf: &Vec<u8>, pos: usize) -> (r: Option<
    (WorkerSynchronizeMessage, usize),
>)
    ensures
        r is Some <==> parse_worker_synchronize_message(buf@, pos as int) is Some,
        r is Some ==> {
            let (f, end) = parse_worker_synchronize_message(buf@, pos as int).unwrap();
            &&& r.unwrap().0.digests@.map_values(|d: BatchDigest| d@) == f.0
            &&& r.unwrap().0.target.0 == f.1
            &&& r.unwrap().0.is_certified == f.2
            &&& r.unwrap().1 == end
        },
{
    let dr = decode_batch_digest_vec(buf, pos);
    let (digests, p) = match dr {
        None => {
            return None;
        },
        Some(t) => t,
    };
    if p > buf.len() || 2 > buf.len() - p {
        return None;
    }
    proof {
        lemma_pow256_8();
        assert(pow256(2) == 0x1_0000);
        crate::vote::lemma_parse_le_fits(buf@, p as int, 2);
    }
    let target = decode_uint_le(buf, p, 2).unwrap().0 as u16;
    match decode_bool(buf, p + 2) {
        Some((is_certified, end)) => Some(
            (
                WorkerSynchronizeMessage {
                    digests,
                    target: AuthorityIdentifier(target),
                    is_certified,
                },
                end,
            ),
        ),
        None => None,
    }
}

/// A worker delete direction on the wire: the counted batch digests.
pub open spec fn ser_worker_delete_batches_message(x: &WorkerDeleteBatchesMessage) -> Seq<u8> {
    ser_digest_vec(x.digests@.map_values(|d: BatchDigest| d@))
}

pub open spec fn parse_worker_delete_batches_message(b: Seq<u8>, pos: int) -> Option<
    (Seq<Seq<u8>>, int),
> {
    parse_digest_vec(b, pos)
}

pub fn encode_worker_delete_batches_message(out: &mut Vec<u8>, x: &WorkerDeleteBatchesMessage)
    ensures
        final(out)@ == old(out)@ + ser_worker_delete_batches_message(x),
{
    encode_batch_digest_vec(out, &x.digests)
}

pub fn decode_worker_delete_batches_message(buf: &Vec<u8>, pos: usize) -> (r: Option<
    (WorkerDeleteBatchesMessage, usize),
>)
    ensures
        r is Some <==> parse_worker_delete_batches_message(buf@, pos as int) is Some,
        r is Some ==> {
            let (s, end) = parse_worker_delete_batches_message(buf@, pos as int).unwrap();
            &&& r.unwrap().0.digests@.map_values(|d: BatchDigest| d@) == s
            &&& r.unwrap().1 == end
        },
{
    match decode_batch_digest_vec(buf, pos) {
        Some((digests, end)) => Some((WorkerDeleteBatchesMessage { digests }, end)),
        None => None,
    }
}

/// A received-batch notice on the wire: the digest, then the worker.
pub open spec fn ser_worker_others_batch_message(x: &WorkerOthersBatchMessage) -> Seq<u8> {
    x.digest@ + le_bytes(x.worker_id as nat, 4)
}

pub open spec fn parse_worker_others_batch_message(b: Seq<u8>, pos: int) -> Option<
    ((Seq<u8>, u32), int),
> {
    if pos < 0 || pos + 36 > b.len() {
        None
    } else {
        Some(((b.subrange(pos, pos + 32), parse_le_val(b, pos + 32, 4) as u32), pos + 36))
    }
}

pub fn encode_worker_others_batch_message(out: &mut Vec<u8>, x: &WorkerOthersBatchMessage)
    ensures
        final(out)@ == old(out)@ + ser_worker_others_batch_message(x),
{
    append_digest(out, &x.digest.0);
    proof {
        lemma_pow256_8();
        assert(pow256(4) == 0x1_0000_0000);
    }
    encode_uint_le(out, x.worker_id as u64, 4);
    proof {
        assert(out@ =~= old(out)@ + ser_worker_others_batch_message(x));
    }
}

pub fn decode_worker_others_batch_message(buf: &Vec<u8>, pos: usize) -> (r: Option<
    (WorkerOthersBatchMessage, usize),
>)
    ensures
        r is Some <==> parse_worker_others_batch_message(buf@, pos as int) is Some,
        r is Some ==> {
            let (f, end) = parse_worker_others_batch_message(buf@, pos as int).unwrap();
            &&& r.unwrap().0.digest@ == f.0
            &&& r.unwrap().0.worker_id == f.1
            &&& r.unwrap().1 == end
        },
{
    if pos > buf.len() || 36 > buf.len() - pos {
        return None;
    }
    let d = crate::crypto::take_array::<32>(buf, pos);
    proof {
        lemma_pow256_8();
        crate::vote::lemma_parse_le_fits(buf@, pos + 32, 4);
    }
    let worker_id = decode_uint_le(buf, pos + 32, 4).unwrap().0 as u32;
    Some((WorkerOthersBatchMessage { digest: BatchDigest::new(d), worker_id }, pos + 36))
}

/// Parsing a serialized received-batch notice recovers it.
pub proof fn lemma_worker_others_batch_message_roundtrip(x: &WorkerOthersBatchMessage)
    ensures
        parse_worker_others_batch_message(ser_worker_others_batch_message(x), 0) == Some(
            ((x.digest@, x.worker_id), ser_worker_others_batch_message(x).len() as int),
        ),
{
    let b = ser_worker_others_batch_message(x);
    let f2 = le_bytes(x.worker_id as nat, 4);
    lemma_pow256_8();
    assert(pow256(4) == 0x1_0000_0000);
    lemma_le_bytes_len(x.worker_id as nat, 4);
    assert(b.subrange(0, b.len() as int) =~= b);
    lemma_concat_split(b, 0, x.digest@, f2);
    lemma_le_roundtrip(b, 32, x.worker_id as nat, 4);
}

/// A batch fetch direction on the wire: the counted digests, then the
/// counted known-worker keys.
pub open spec fn ser_fetch_batches_request(x: &FetchBatchesRequest) -> Seq<u8> {
    ser_digest_vec(x.digests@.map_values(|d: BatchDigest| d@)) + uleb(x.known_workers@.len())
        + crate::codec::ser_bytes_seq(
        x.known_workers@.map_values(|k: NetworkPublicKeyBytes| k@),
    )
}

pub open spec fn parse_fetch_batches_request(b: Seq<u8>, pos: int) -> Option<
    ((Seq<Seq<u8>>, Seq<Seq<u8>>), int),
> {
    match parse_digest_vec(b, pos) {
        Some((digests, p)) => match parse_uleb(b, p) {
            Some((n, p1)) => if n > b.len() {
                None
            } else {
                match crate::codec::parse_bytes_seq(b, p1, n) {
                    Some((workers, end)) => Some(((digests, workers), end)),
                    None => None,
                }
            },
            None => None,
        },
        None => None,
    }
}

pub fn encode_fetch_batches_request(out: &mut Vec<u8>, x: &FetchBatchesRequest)
    ensures
        final(out)@ == old(out)@ + ser_fetch_batches_request(x),
{
    encode_batch_digest_vec(out, &x.digests);
    encode_uleb(out, x.known_workers.len() as u64);
    let ghost s = x.known_workers@.map_values(|k: NetworkPublicKeyBytes| k@);
    let ghost head = out@;
    proof {
        assert(s.skip(0) =~= s);
        assert(out@.skip(head.len() as int) =~= Seq::<u8>::empty());
        assert(crate::codec::ser_bytes_seq(s) =~= out@.skip(head.len() as int)
            + crate::codec::ser_bytes_seq(s.skip(0)));
    }
    let mut i: usize = 0;
    while i < x.known_workers.len()
        invariant
            i <= x.known_workers.len(),
            s == x.known_workers@.map_values(|k: NetworkPublicKeyBytes| k@),
            crate::codec::ser_bytes_seq(s) =~= out@.skip(head.len() as int)
                + crate::codec::ser_bytes_seq(s.skip(i as int)),
            out@.subrange(0, head.len() as int) =~= head,
            out@.len() >= head.len(),
        decreases x.known_workers.len() - i,
    {
        proof {
            assert(s.skip(i as int)[0] == s[i as int]);
            assert(s.skip(i as int).subrange(1, s.skip(i as int).len() as int) =~= s.skip(i + 1));
        }
        encode_bytes(out, &x.known_workers[i].0);
        i = i + 1;
        proof {
            assert(crate::codec::ser_bytes_seq(s) =~= out@.skip(head.len() as int)
                + crate::codec::ser_bytes_seq(s.skip(i as int)));
            assert(out@.subrange(0, head.len() as int) =~= head);
        }
    }
    proof {
        assert(s.skip(s.len() as int) =~= Seq::<Seq<u8>>::empty());
        assert(out@ =~= head + crate::codec::ser_bytes_seq(s));
        assert(out@ =~= old(out)@ + ser_fetch_batches_request(x));
    }
}

pub fn decode_fetch_batches_request(buf: &Vec<u8>, pos: usize) -> (r: Option<
    (FetchBatchesRequest, usize),
>)
    ensures
        r is Some <==> parse_fetch_batches_request(buf@, pos as int) is Some,
        r is Some ==> {
            let (f, end) = parse_fetch_batches_request(buf@, pos as int).unwrap();
            &&& r.unwrap().0.digests@.map_values(|d: BatchDigest| d@) == f.0
            &&& r.unwrap().0.known_workers@.map_values(|k: NetworkPublicKeyBytes| k@) == f.1
            &&& r.unwrap().1 == end
        },
{
    let blen = buf.len();
    let dr = decode_batch_digest_vec(buf, pos);
    let (digests, p) = match dr {
        None => {
            return None;
        },
        Some(t) => t,
    };
    let cnt = match decode_uleb(buf, p) {
        None => {
            proof {
                assert(buf@.len() == blen);
            }
            return None;
        },
        Some(t) => t,
    };
    let (n, p1) = cnt;
    if n > blen as u64 {
        return None;
    }
    match crate::codec::decode_bytes_vec(buf, p1, n) {
        Some((workers_raw, end)) => {
            let m = workers_raw.len();
            let mut known_workers: Vec<NetworkPublicKeyBytes> = Vec::new();
            let mut workers_iter = workers_raw;
            let ghost raw = workers_iter@;
            let mut t: usize = 0;
            proof {
                assert(known_workers@.map_values(|k: NetworkPublicKeyBytes| k@)
                    =~= raw.map_values(|v: Vec<u8>| v@).take(0));
            }
            while t < m
                invariant
                    t <= m,
                    m == workers_iter.len(),
                    raw == workers_iter@,
                    known_workers@.len() == t,
                    known_workers@.map_values(|k: NetworkPublicKeyBytes| k@) == raw.map_values(
                        |v: Vec<u8>| v@,
                    ).take(t as int),
                decreases m - t,
            {
                let ghost pre = known_workers@;
                let nk = NetworkPublicKeyBytes(crate::crypto::copy_bytes(&workers_iter[t]));
                proof {
                    assert(nk@ == raw[t as int]@);
                }
                known_workers.push(nk);
                t = t + 1;
                proof {
                    assert(known_workers@ == pre.push(nk));
                    assert(pre.len() == t - 1);
                    let mapped = known_workers@.map_values(|k: NetworkPublicKeyBytes| k@);
                    let target = raw.map_values(|v: Vec<u8>| v@).take(t as int);
                    assert forall|j: int| 0 <= j < t implies #[trigger] mapped[j]
                        == target[j] by {
                        if j < t - 1 {
                            assert(known_workers@[j] == pre[j]);
                            assert(pre.map_values(|k: NetworkPublicKeyBytes| k@)[j]
                                == raw.map_values(|v: Vec<u8>| v@).take(t - 1)[j]);
                        } else {
                            assert(known_workers@[j] == nk);
                        }
                    }
                    assert(mapped =~= target);
                }
            }
            proof {
                assert(raw.map_values(|v: Vec<u8>| v@).take(m as int) =~= raw.map_values(
                    |v: Vec<u8>| v@,
                ));
            }
            Some((FetchBatchesRequest { digests, known_workers }, end))
        },
        None => None,
    }
}


/// A sealed-batch notice on the wire: digest, worker, plain metadata.
pub open spec fn ser_worker_our_batch_message(x: &WorkerOurBatchMessage) -> Seq<u8> {
    x.digest@ + le_bytes(x.worker_id as nat, 4) + ser_metadata(x.metadata)
}

pub open spec fn parse_worker_our_batch_message(b: Seq<u8>, pos: int) -> Option<
    ((Seq<u8>, u32, u64), int),
> {
    if pos < 0 || pos + 44 > b.len() {
        None
    } else {
        Some(
            (
                (
                    b.subrange(pos, pos + 32),
                    parse_le_val(b, pos + 32, 4) as u32,
                    parse_le_val(b, pos + 36, 8) as u64,
                ),
                pos + 44,
            ),
        )
    }
}

pub fn encode_worker_our_batch_message(out: &mut Vec<u8>, x: &WorkerOurBatchMessage)
    ensures
        final(out)@ == old(out)@ + ser_worker_our_batch_message(x),
{
    append_digest(out, &x.digest.0);
    proof {
        lemma_pow256_8();
    }
    encode_uint_le(out, x.worker_id as u64, 4);
    encode_uint_le(out, x.metadata.created_at, 8);
    proof {
        assert(out@ =~= old(out)@ + ser_worker_our_batch_message(x));
    }
}

pub fn decode_worker_our_batch_message(buf: &Vec<u8>, pos: usize) -> (r: Option<
    (WorkerOurBatchMessage, usize),
>)
    ensures
        r is Some <==> parse_worker_our_batch_message(buf@, pos as int) is Some,
        r is Some ==> {
            let (f, end) = parse_worker_our_batch_message(buf@, pos as int).unwrap();
            &&& r.unwrap().0.digest@ == f.0
            &&& r.unwrap().0.worker_id == f.1
            &&& r.unwrap().0.metadata.created_at == f.2
            &&& r.unwrap().1 == end
        },
{
    if pos > buf.len() || 44 > buf.len() - pos {
        return None;
    }
    let d = crate::crypto::take_array::<32>(buf, pos);
    proof {
        lemma_pow256_8();
        crate::vote::lemma_parse_le_fits(buf@, pos + 32, 4);
        crate::vote::lemma_parse_le_fits(buf@, pos + 36, 8);
    }
    let worker_id = decode_uint_le(buf, pos + 32, 4).unwrap().0 as u32;
    let created_at = decode_uint_le(buf, pos + 36, 8).unwrap().0;
    Some(
        (
            WorkerOurBatchMessage {
                digest: BatchDigest::new(d),
                worker_id,
                metadata: Metadata { created_at },
            },
            pos + 44,
        ),
    )
}

/// Parsing a serialized sealed-batch notice recovers it.
pub proof fn lemma_worker_our_batch_message_roundtrip(x: &WorkerOurBatchMessage)
    ensures
        parse_worker_our_batch_message(ser_worker_our_batch_message(x), 0) == Some(
            (
                (x.digest@, x.worker_id, x.metadata.created_at),
                ser_worker_our_batch_message(x).len() as int,
            ),
        ),
{
    let b = ser_worker_our_batch_message(x);
    let f2 = le_bytes(x.worker_id as nat, 4);
    let f3 = le_bytes(x.metadata.created_at as nat, 8);
    lemma_pow256_8();
    lemma_le_bytes_len(x.worker_id as nat, 4);
    lemma_le_bytes_len(x.metadata.created_at as nat, 8);
    assert(b.subrange(0, b.len() as int) =~= b);
    assert(b =~= x.digest@ + (f2 + f3));
    lemma_concat_split(b, 0, x.digest@, f2 + f3);
    lemma_concat_split(b, 32, f2, f3);
    lemma_le_roundtrip(b, 32, x.worker_id as nat, 4);
    lemma_le_roundtrip(b, 36, x.metadata.created_at as nat, 8);
}

/// A sealed-batch notice with versioned metadata on the wire.
pub open spec fn ser_worker_our_batch_message_v2(x: &WorkerOurBatchMessageV2) -> Seq<u8> {
    x.digest@ + le_bytes(x.worker_id as nat, 4) + ser_versioned_metadata(x.metadata)
}

pub open spec fn parse_worker_our_batch_message_v2(b: Seq<u8>, pos: int) -> Option<
    ((Seq<u8>, u32, u64, Option<u64>), int),
> {
    if pos < 0 || pos + 45 > b.len() || b[pos + 36] != 0 {
        None
    } else {
        match crate::batch::parse_opt_ts(b, pos + 45) {
            Some((received, end)) => Some(
                (
                    (
                        b.subrange(pos, pos + 32),
                        parse_le_val(b, pos + 32, 4) as u32,
                        parse_le_val(b, pos + 37, 8) as u64,
                        received,
                    ),
                    end,
                ),
            ),
            None => None,
        }
    }
}

pub fn encode_worker_our_batch_message_v2(out: &mut Vec<u8>, x: &WorkerOurBatchMessageV2)
    ensures
        final(out)@ == old(out)@ + ser_worker_our_batch_message_v2(x),
{
    append_digest(out, &x.digest.0);
    proof {
        lemma_pow256_8();
    }
    encode_uint_le(out, x.worker_id as u64, 4);
    encode_uleb(out, 0);
    match &x.metadata {
        VersionedMetadata::V1(m) => {
            encode_uint_le(out, m.created_at, 8);
            match m.received_at {
                None => {
                    out.push(0u8);
                },
                Some(t) => {
                    out.push(1u8);
                    encode_uint_le(out, t, 8);
                },
            }
        },
    }
    proof {
        assert(out@ =~= old(out)@ + ser_worker_our_batch_message_v2(x));
    }
}

pub fn decode_worker_our_batch_message_v2(buf: &Vec<u8>, pos: usize) -> (r: Option<
    (WorkerOurBatchMessageV2, usize),
>)
    ensures
        r is Some <==> parse_worker_our_batch_message_v2(buf@, pos as int) is Some,
        r is Some ==> {
            let (f, end) = parse_worker_our_batch_message_v2(buf@, pos as int).unwrap();
            &&& r.unwrap().0.digest@ == f.0
            &&& r.unwrap().0.worker_id == f.1
            &&& r.unwrap().0.metadata.spec_created_at() == f.2
            &&& r.unwrap().0.metadata.spec_received_at() == f.3
            &&& r.unwrap().1 == end
        },
{
    if pos > buf.len() || 45 > buf.len() - pos {
        return None;
    }
    if buf[pos + 36] != 0 {
        return None;
    }
    let d = crate::crypto::take_array::<32>(buf, pos);
    proof {
        lemma_pow256_8();
        crate::vote::lemma_parse_le_fits(buf@, pos + 32, 4);
        crate::vote::lemma_parse_le_fits(buf@, pos + 37, 8);
    }
    let worker_id = decode_uint_le(buf, pos + 32, 4).unwrap().0 as u32;
    let created_at = decode_uint_le(buf, pos + 37, 8).unwrap().0;
    let q = pos + 45;
    if q >= buf.len() {
        return None;
    }
    let marker = buf[q];
    if marker == 0 {
        Some(
            (
                WorkerOurBatchMessageV2 {
                    digest: BatchDigest::new(d),
                    worker_id,
                    metadata: VersionedMetadata::V1(
                        crate::batch::MetadataV1 { created_at, received_at: None },
                    ),
                },
                q + 1,
            ),
        )
    } else if marker == 1 {
        if q + 1 > buf.len() || 8 > buf.len() - (q + 1) {
            return None;
        }
        proof {
            crate::vote::lemma_parse_le_fits(buf@, q + 1, 8);
        }
        let received = decode_uint_le(buf, q + 1, 8).unwrap().0;
        Some(
            (
                WorkerOurBatchMessageV2 {
                    digest: BatchDigest::new(d),
                    worker_id,
                    metadata: VersionedMetadata::V1(
                        crate::batch::MetadataV1 { created_at, received_at: Some(received) },
                    ),
                },
                q + 9,
            ),
        )
    } else {
        None
    }
}

/// Parsing a serialized sealed-batch notice with versioned metadata
/// recovers it.
pub proof fn lemma_worker_our_batch_message_v2_roundtrip(x: &WorkerOurBatchMessageV2)
    ensures
        parse_worker_our_batch_message_v2(ser_worker_our_batch_message_v2(x), 0) == Some(
            (
                (
                    x.digest@,
                    x.worker_id,
                    x.metadata.spec_created_at(),
                    x.metadata.spec_received_at(),
                ),
                ser_worker_our_batch_message_v2(x).len() as int,
            ),
        ),
{
    let b = ser_worker_our_batch_message_v2(x);
    let f2 = le_bytes(x.worker_id as nat, 4);
    let f3 = ser_versioned_metadata(x.metadata);
    let g1 = uleb(0);
    let g2 = le_bytes(x.metadata.spec_created_at() as nat, 8);
    let g3 = crate::batch::ser_opt_ts(x.metadata.spec_received_at());
    lemma_pow256_8();
    lemma_le_bytes_len(x.worker_id as nat, 4);
    lemma_le_bytes_len(x.metadata.spec_created_at() as nat, 8);
    assert(b.subrange(0, b.len() as int) =~= b);
    assert(b =~= x.digest@ + (f2 + f3));
    lemma_concat_split(b, 0, x.digest@, f2 + f3);
    lemma_concat_split(b, 32, f2, f3);
    lemma_le_roundtrip(b, 32, x.worker_id as nat, 4);
    assert(f3 =~= g1 + (g2 + g3));
    lemma_concat_split(b, 36, g1, g2 + g3);
    assert(b.subrange(36, 37)[0] == b[36]);
    assert(b[36] == 0);
    lemma_concat_split(b, 37, g2, g3);
    lemma_le_roundtrip(b, 37, x.metadata.spec_created_at() as nat, 8);
    match x.metadata.spec_received_at() {
        None => {
            assert(b.subrange(45, 45 + g3.len() as int)[0] == b[45]);
            assert(b[45] == 0);
        },
        Some(t) => {
            assert(g3 =~= seq![1u8] + le_bytes(t as nat, 8));
            lemma_concat_split(b, 45, seq![1u8], le_bytes(t as nat, 8));
            assert(b.subrange(45, 46)[0] == b[45]);
            assert(b[45] == 1);
            lemma_le_bytes_len(t as nat, 8);
            lemma_le_roundtrip(b, 46, t as nat, 8);
        },
    }
}

/// One fetched batch on the wire: the digest, then the batch.
pub open spec fn ser_batch_entry(e: &(BatchDigest, Batch)) -> Seq<u8> {
    e.0@ + ser_batch(&e.1)
}

/// Consecutive fetched batches, without the count prefix.
pub open spec fn ser_batch_seq(s: Seq<(BatchDigest, Batch)>) -> Seq<u8>
    decreases s.len(),
{
    if s.len() == 0 {
        Seq::empty()
    } else {
        ser_batch_entry(&s[0]) + ser_batch_seq(s.subrange(1, s.len() as int))
    }
}

/// `n` consecutive fetched batches starting at `pos`.
pub open spec fn parse_batch_seq(b: Seq<u8>, pos: int, n: nat) -> Option<
    (Seq<(Seq<u8>, BatchFields)>, int),
>
    decreases n,
{
    if n == 0 {
        Some((Seq::empty(), pos))
    } else if pos < 0 || pos + 32 > b.len() {
        None
    } else {
        match parse_batch(b, pos + 32) {
            Some((f, p)) => match parse_batch_seq(b, p, (n - 1) as nat) {
                Some((rest, end)) => Some(
                    (seq![(b.subrange(pos, pos + 32), f)] + rest, end),
                ),
                None => None,
            },
            None => None,
        }
    }
}

pub proof fn lemma_ser_batch_seq_min(s: Seq<(BatchDigest, Batch)>)
    ensures
        ser_batch_seq(s).len() >= s.len(),
    decreases s.len(),
{
    if s.len() > 0 {
        lemma_ser_batch_seq_min(s.subrange(1, s.len() as int));
    }
}

/// Parsing serialized fetched batches recovers them.
pub proof fn lemma_batch_seq_roundtrip(b: Seq<u8>, pos: int, s: Seq<(BatchDigest, Batch)>)
    requires
        0 <= pos,
        pos + ser_batch_seq(s).len() <= b.len(),
        b.subrange(pos, pos + ser_batch_seq(s).len()) == ser_batch_seq(s),
    ensures
        parse_batch_seq(b, pos, s.len()) matches Some(r) && r.1 == pos + ser_batch_seq(s).len()
            && r.0.len() == s.len() && (forall|i: int|
            0 <= i < s.len() ==> (#[trigger] r.0[i]) == (s[i].0@, batch_fields(&s[i].1))),
    decreases s.len(),
{
    if s.len() > 0 {
        let rest = s.subrange(1, s.len() as int);
        assert(ser_batch_seq(s) =~= ser_batch_entry(&s[0]) + ser_batch_seq(rest));
        lemma_concat_split(b, pos, ser_batch_entry(&s[0]), ser_batch_seq(rest));
        assert(ser_batch_entry(&s[0]) =~= s[0].0@ + ser_batch(&s[0].1));
        lemma_concat_split(b, pos, s[0].0@, ser_batch(&s[0].1));
        crate::batch::lemma_batch_roundtrip(b, pos + 32, &s[0].1);
        lemma_batch_seq_roundtrip(b, pos + ser_batch_entry(&s[0]).len(), rest);
        let r = parse_batch_seq(b, pos, s.len()).unwrap();
        let r1 = parse_batch_seq(
            b,
            pos + ser_batch_entry(&s[0]).len(),
            rest.len(),
        ).unwrap();
        assert forall|i: int|
            0 <= i < s.len() implies (#[trigger] r.0[i]) == (s[i].0@, batch_fields(&s[i].1)) by {
            if i > 0 {
                assert(r.0[i] == r1.0[i - 1]);
                assert(rest[i - 1] == s[i]);
            }
        }
    }
}

/// A batch-fetch reply on the wire: the counted (digest, batch) pairs.
pub open spec fn ser_fetch_batches_response(x: &FetchBatchesResponse) -> Seq<u8> {
    uleb(x.batches@.len()) + ser_batch_seq(x.batches@)
}

pub open spec fn parse_fetch_batches_response(b: Seq<u8>, pos: int) -> Option<
    (Seq<(Seq<u8>, BatchFields)>, int),
> {
    match parse_uleb(b, pos) {
        Some((n, p)) => if n > b.len() {
            None
        } else {
            parse_batch_seq(b, p, n)
        },
        None => None,
    }
}

pub fn encode_fetch_batches_response(out: &mut Vec<u8>, x: &FetchBatchesResponse)
    ensures
        final(out)@ == old(out)@ + ser_fetch_batches_response(x),
{
    encode_uleb(out, x.batches.len() as u64);
    let ghost s = x.batches@;
    let ghost head = out@;
    proof {
        assert(s.skip(0) =~= s);
        assert(out@.skip(head.len() as int) =~= Seq::<u8>::empty());
        assert(ser_batch_seq(s) =~= out@.skip(head.len() as int) + ser_batch_seq(s.skip(0)));
    }
    let mut i: usize = 0;
    while i < x.batches.len()
        invariant
            i <= x.batches.len(),
            s == x.batches@,
            ser_batch_seq(s) =~= out@.skip(head.len() as int) + ser_batch_seq(s.skip(i as int)),
            out@.subrange(0, head.len() as int) =~= head,
            out@.len() >= head.len(),
        decreases x.batches.len() - i,
    {
        proof {
            assert(s.skip(i as int)[0] == s[i as int]);
            assert(s.skip(i as int).subrange(1, s.skip(i as int).len() as int) =~= s.skip(i + 1));
        }
        append_digest(out, &x.batches[i].0.0);
        encode_batch(out, &x.batches[i].1);
        i = i + 1;
        proof {
            assert(ser_batch_seq(s) =~= out@.skip(head.len() as int) + ser_batch_seq(
                s.skip(i as int),
            ));
            assert(out@.subrange(0, head.len() as int) =~= head);
        }
    }
    proof {
        assert(s.skip(s.len() as int) =~= Seq::<(BatchDigest, Batch)>::empty());
        assert(out@ =~= head + ser_batch_seq(s));
        assert(out@ =~= old(out)@ + ser_fetch_batches_response(x));
    }
}

/// Read `n` fetched batches at `pos`.
fn decode_batch_seq(buf: &Vec<u8>, pos: usize, n: u64) -> (r: Option<
    (Vec<(BatchDigest, Batch)>, usize),
>)
    ensures
        r is Some <==> parse_batch_seq(buf@, pos as int, n as nat) is Some,
        r is Some ==> {
            let (s, end) = parse_batch_seq(buf@, pos as int, n as nat).unwrap();
            &&& r.unwrap().0@.len() == s.len()
            &&& forall|i: int|
                0 <= i < s.len() ==> ((#[trigger] r.unwrap().0@[i]).0@, batch_fields(
                    &r.unwrap().0@[i].1,
                )) == s[i]
            &&& r.unwrap().1 == end
        },
    decreases n,
{
    if n == 0 {
        let v: Vec<(BatchDigest, Batch)> = Vec::new();
        return Some((v, pos));
    }
    if pos > buf.len() || 32 > buf.len() - pos {
        return None;
    }
    let d = crate::crypto::take_array::<32>(buf, pos);
    let first = match decode_batch(buf, pos + 32) {
        None => {
            return None;
        },
        Some(t) => t,
    };
    let (batch, p) = first;
    match decode_batch_seq(buf, p, n - 1) {
        Some((mut rest, end)) => {
            rest.insert(0, (BatchDigest::new(d), batch));
            proof {
                let (s, _e) = parse_batch_seq(buf@, pos as int, n as nat).unwrap();
                assert forall|i: int|
                    0 <= i < s.len() implies ((#[trigger] rest@[i]).0@, batch_fields(
                    &rest@[i].1,
                )) == s[i] by {
                    if i > 0 {
                        let (s1, _e1) = parse_batch_seq(buf@, p as int, (n - 1) as nat).unwrap();
                        assert(rest@[i] == rest@.subrange(1, rest@.len() as int)[i - 1]);
                        assert(s[i] == s1[i - 1]);
                    }
                }
            }
            Some((rest, end))
        },
        None => None,
    }
}

pub fn decode_fetch_batches_response(buf: &Vec<u8>, pos: usize) -> (r: Option<
    (FetchBatchesResponse, usize),
>)
    ensures
        r is Some <==> parse_fetch_batches_response(buf@, pos as int) is Some,
        r is Some ==> {
            let (s, end) = parse_fetch_batches_response(buf@, pos as int).unwrap();
            &&& r.unwrap().0.batches@.len() == s.len()
            &&& forall|i: int|
                0 <= i < s.len() ==> ((#[trigger] r.unwrap().0.batches@[i]).0@, batch_fields(
                    &r.unwrap().0.batches@[i].1,
                )) == s[i]
            &&& r.unwrap().1 == end
        },
{
    let blen = buf.len();
    let cnt = match decode_uleb(buf, pos) {
        None => {
            proof {
                assert(buf@.len() == blen);
            }
            return None;
        },
        Some(t) => t,
    };
    let (n, p) = cnt;
    if n > blen as u64 {
        return None;
    }
    match decode_batch_seq(buf, p, n) {
        Some((batches, end)) => Some((FetchBatchesResponse { batches }, end)),
        None => None,
    }
}

/// Parsing a serialized batch-fetch reply recovers it.
pub proof fn lemma_fetch_batches_response_roundtrip(x: &FetchBatchesResponse)
    ensures
        parse_fetch_batches_response(ser_fetch_batches_response(x), 0) matches Some(r) && r.1
            == ser_fetch_batches_response(x).len() && r.0.len() == x.batches@.len() && (forall|
            i: int,
        |
            0 <= i < x.batches@.len() ==> (#[trigger] r.0[i]) == (
                x.batches@[i].0@,
                batch_fields(&x.batches@[i].1),
            )),
{
    let b = ser_fetch_batches_response(x);
    let s = x.batches@;
    lemma_ser_batch_seq_min(s);
    assert(b.subrange(0, b.len() as int) =~= b);
    lemma_concat_split(b, 0, uleb(s.len()), ser_batch_seq(s));
    lemma_uleb_roundtrip(b, 0, s.len());
    lemma_batch_seq_roundtrip(b, uleb(s.len()).len() as int, s);
}

} // verus!
