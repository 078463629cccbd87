//! The crate-level laws: invariants and idempotence properties that relate
//! several operations, stated over the same spec functions the operations'
//! own contracts use.

use vstd::prelude::*;

use crate::certificate::{
    set_weight, spec_built, spec_genesis_match, Certificate, CertificateV1, VoteList,
};
use crate::committee::{Committee, WorkerCache};
use crate::crypto::blake2b_of;
use crate::error::DagResult;
use crate::header::{header_fields, Header, HeaderV1};
use crate::vote::{parse_vote, ser_vote, vote_fields, Vote};

verus! {

/// A header's digest is the hash of the canonical serialization of the
/// header without its digest cache — for every header whose cache is sound,
/// which every construction path of this crate guarantees.
pub proof fn lemma_header_digest_canonical(h: &HeaderV1)
    requires
        h.digest_wf(),
    ensures
        h.spec_digest() == blake2b_of(h.spec_serialized()),
{
}

/// Every bit set in the signer bitmap of a built certificate names an
/// authority of the committee, in enumeration order, and that authority
/// holds non-zero stake.
pub proof fn lemma_signed_bit_has_stake(
    c: Certificate,
    header: Header,
    committee: &Committee,
    votes: VoteList,
    agg: Seq<u8>,
    v: u32,
)
    requires
        committee.wf(),
        spec_built(c, header, committee, votes, agg),
        c.v1().spec_signed().contains(v),
    ensures
        v < committee.authorities.len(),
        committee.authorities@[v as int].stake >= 1,
{
}

/// Every verified non-genesis certificate carries signers whose combined
/// stake reaches the quorum threshold.
pub proof fn lemma_verified_has_quorum(
    c: &CertificateV1,
    committee: &Committee,
    worker_cache: &WorkerCache,
)
    requires
        committee.wf(),
        c.spec_verify_ok(committee, worker_cache),
        !spec_genesis_match(c, committee),
    ensures
        set_weight(committee.authorities@, c.spec_signed())
            >= committee.spec_quorum_threshold(),
{
}

/// Serialization round trip for a vote: parsing a serialized vote yields
/// the vote's fields back, its digest included.
pub proof fn lemma_vote_serialization_roundtrip(v: &Vote)
    ensures
        parse_vote(ser_vote(*v), 0) == Some((vote_fields(v.v1()), ser_vote(*v).len() as int)),
{
    let b = ser_vote(*v);
    assert(b.subrange(0, b.len() as int) =~= b);
    crate::vote::lemma_vote_roundtrip(b, 0, *v);
}

/// Serialization round trip for a header: parsing a serialized well-formed
/// header yields its fields back.
pub proof fn lemma_header_serialization_roundtrip(h: &Header)
    requires
        h.v1().wf(),
    ensures
        crate::header::parse_header(crate::header::ser_header(h), 0) == Some(
            (header_fields(h.v1()), crate::header::ser_header(h).len() as int),
        ),
{
    let b = crate::header::ser_header(h);
    assert(b.subrange(0, b.len() as int) =~= b);
    crate::header::lemma_header_roundtrip(b, 0, h);
}

/// Serialization round trip for a certificate: parsing a serialized
/// certificate (with a well-formed header) yields its fields back.
pub proof fn lemma_certificate_serialization_roundtrip(c: &Certificate)
    requires
        c.v1().header.v1().wf(),
    ensures
        crate::certificate::parse_certificate(crate::certificate::ser_certificate(c), 0) == Some(
            (
                (
                    header_fields(c.v1().header.v1()),
                    c.v1().aggregated_signature@,
                    crate::bitmap::bitmap_serialized(c.v1().spec_signed()),
                    c.v1().metadata.created_at,
                ),
                crate::certificate::ser_certificate(c).len() as int,
            ),
        ),
{
    let b = crate::certificate::ser_certificate(c);
    assert(b.subrange(0, b.len() as int) =~= b);
    crate::certificate::lemma_certificate_roundtrip(b, 0, c);
}

/// Two headers with equal fields serialize alike and therefore hash alike:
/// digests survive a serialization round trip.
pub proof fn lemma_fields_determine_digest(a: &HeaderV1, b: &HeaderV1)
    requires
        header_fields(*a) == header_fields(*b),
    ensures
        a.spec_computed_digest() == b.spec_computed_digest(),
{
    assert(a.author.0 == b.author.0);
    assert(a.spec_serialized() == b.spec_serialized());
}

/// Certificate construction is deterministic up to advisory metadata: two
/// certificates built from the same committee, header and votes agree on
/// the header, the aggregate signature bytes, and the signer bitmap.
pub proof fn lemma_build_deterministic(
    c1: Certificate,
    c2: Certificate,
    header: Header,
    committee: &Committee,
    votes: VoteList,
    agg: Seq<u8>,
)
    requires
        spec_built(c1, header, committee, votes, agg),
        spec_built(c2, header, committee, votes, agg),
    ensures
        c1.v1().header == c2.v1().header,
        c1.v1().aggregated_signature@ == c2.v1().aggregated_signature@,
        c1.v1().spec_signed() == c2.v1().spec_signed(),
{
    assert(c1.v1().spec_signed() =~= c2.v1().spec_signed());
}

/// Verification is a pure function of the certificate, the committee and
/// the worker cache: re-verifying an already verified certificate against
/// the same committee succeeds.
pub proof fn lemma_reverify_succeeds(
    first: DagResult<()>,
    second: DagResult<()>,
    c: &CertificateV1,
    committee: &Committee,
    worker_cache: &WorkerCache,
)
    requires
        first is Ok <==> c.spec_verify_ok(committee, worker_cache),
        second is Ok <==> c.spec_verify_ok(committee, worker_cache),
        first is Ok,
    ensures
        second is Ok,
{
}

/// Digest memoization: the first and every subsequent `digest()` call on
/// one header return equal values.
pub proof fn lemma_digest_memoization(first: Seq<u8>, second: Seq<u8>, h: &HeaderV1)
    requires
        first == h.spec_digest(),
        second == h.spec_digest(),
    ensures
        first == second,
{
}

} // verus!
