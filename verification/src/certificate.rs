//! Certificates: a header plus an aggregated quorum of votes, with a bitmap
//! of the signers.
//!
//! Construction sorts the votes into committee order, drops duplicated
//! identical votes, rejects votes from authorities the committee does not
//! know (or vote groups with conflicting signatures), enforces the quorum
//! when asked to, and aggregates the remaining signatures. Verification
//! applies, in order: epoch equality, the genesis short-circuit, header
//! validation, the signer walk with its range check, the quorum rule, and
//! the aggregate signature check.

use vstd::prelude::*;

use roaring::RoaringBitmap;

use crate::bitmap::{
    bitmap_elems, bitmap_serialized, rb_contains, rb_deserialize, rb_from_sorted, rb_max, rb_new,
    rb_serialize,
};
use crate::codec::{
    decode_uint_le, decode_uleb, encode_bytes, encode_uint_le, encode_uleb, le_bytes,
    lemma_concat_split, lemma_le_roundtrip, lemma_pow256_8, lemma_uleb_roundtrip, parse_bytes,
    parse_le_val, parse_uleb, ser_bytes, uleb,
};
use crate::batch::Metadata;
use crate::committee::{stake_sum, Authority, AuthorityIdentifier, Committee, WorkerCache};
use crate::crypto::{
    bls_aggregate, bls_aggregate_of, bls_aggregate_verify, bls_verifies, identity_aggregate_bytes,
    intent_message_bytes, intent_message_of, zero_aggregate_bytes, AggregateSignatureBytes,
    CertificateDigest, HeaderDigest, PublicKeyBytes, SignatureBytes,
};
use crate::error::{DagError, DagResult};
use crate::header::{ser_header_body, Header, HeaderAPI, HeaderV1};
use crate::payload::PayloadMap;
use crate::{Epoch, Round, Stake};

verus! {

/// A list of votes as handed to certificate construction: the voting
/// authority and its signature.
pub type VoteList = Seq<(AuthorityIdentifier, SignatureBytes)>;

/// Whether some vote names this authority.
pub open spec fn vote_has_id(votes: VoteList, id: AuthorityIdentifier) -> bool {
    exists|k: int| 0 <= k < votes.len() && votes[k].0 == id
}

/// Whether two votes for this authority carry different signatures.
pub open spec fn id_inconsistent(votes: VoteList, id: AuthorityIdentifier) -> bool {
    exists|i: int, j: int|
        0 <= i < votes.len() && 0 <= j < votes.len() && votes[i].0 == id && votes[j].0 == id
            && votes[i].1@ != votes[j].1@
}

/// Whether this authority's votes make construction fail: it appears among
/// the votes, and is either unknown to the committee or signed two
/// different things.
pub open spec fn id_problematic(votes: VoteList, c: &Committee, id: AuthorityIdentifier) -> bool {
    vote_has_id(votes, id) && (!c.spec_has_authority(id) || id_inconsistent(votes, id))
}

/// The vote list is acceptable: every voter is known and no voter signed
/// two different things.
pub open spec fn votes_ok(votes: VoteList, c: &Committee) -> bool {
    forall|k: int| 0 <= k < votes.len() ==> !id_problematic(votes, c, #[trigger] votes[k].0)
}

/// Index of the first vote by this authority, or -1.
pub open spec fn vote_index_of(votes: VoteList, id: AuthorityIdentifier) -> int
    decreases votes.len(),
{
    if votes.len() == 0 {
        -1
    } else if votes[0].0 == id {
        0
    } else {
        let r = vote_index_of(votes.subrange(1, votes.len() as int), id);
        if r < 0 {
            -1
        } else {
            r + 1
        }
    }
}

/// The signature recorded for this authority: that of its first vote.
pub open spec fn vote_sig_for(votes: VoteList, id: AuthorityIdentifier) -> SignatureBytes {
    votes[vote_index_of(votes, id)].1
}

pub proof fn lemma_vote_index_of(votes: VoteList, id: AuthorityIdentifier)
    ensures
        vote_index_of(votes, id) >= 0 ==> {
            &&& vote_index_of(votes, id) < votes.len()
            &&& votes[vote_index_of(votes, id)].0 == id
            &&& forall|j: int| 0 <= j < vote_index_of(votes, id) ==> votes[j].0 != id
        },
        vote_index_of(votes, id) < 0 ==> forall|j: int| 0 <= j < votes.len() ==> votes[j].0 != id,
        (vote_index_of(votes, id) >= 0) == vote_has_id(votes, id),
    decreases votes.len(),
{
    if votes.len() > 0 && votes[0].0 != id {
        lemma_vote_index_of(votes.subrange(1, votes.len() as int), id);
        assert forall|j: int| 1 <= j < votes.len() implies votes[j] == votes.subrange(
            1,
            votes.len() as int,
        )[j - 1] by {}
    }
    if vote_index_of(votes, id) >= 0 {
        assert(votes[vote_index_of(votes, id)].0 == id);
    }
}

/// Stake collected over a committee prefix: the stake of every authority
/// for which a vote exists.
pub open spec fn signer_weight(auths: Seq<Authority>, votes: VoteList) -> int
    decreases auths.len(),
{
    if auths.len() == 0 {
        0
    } else {
        signer_weight(auths.drop_last(), votes) + if vote_has_id(votes, auths.last().id) {
            auths.last().stake as int
        } else {
            0
        }
    }
}

/// The recorded signatures, in committee order.
pub open spec fn signer_sigs(auths: Seq<Authority>, votes: VoteList) -> Seq<SignatureBytes>
    decreases auths.len(),
{
    if auths.len() == 0 {
        Seq::empty()
    } else {
        signer_sigs(auths.drop_last(), votes) + if vote_has_id(votes, auths.last().id) {
            seq![vote_sig_for(votes, auths.last().id)]
        } else {
            Seq::empty()
        }
    }
}

/// The positions of the signing authorities in the committee enumeration,
/// ascending.
pub open spec fn signer_indices(auths: Seq<Authority>, votes: VoteList) -> Seq<u32>
    decreases auths.len(),
{
    if auths.len() == 0 {
        Seq::empty()
    } else {
        signer_indices(auths.drop_last(), votes) + if vote_has_id(votes, auths.last().id) {
            seq![(auths.len() - 1) as u32]
        } else {
            Seq::empty()
        }
    }
}

pub proof fn lemma_signer_weight_le_total(auths: Seq<Authority>, votes: VoteList)
    ensures
        0 <= signer_weight(auths, votes) <= stake_sum(auths),
    decreases auths.len(),
{
    if auths.len() > 0 {
        lemma_signer_weight_le_total(auths.drop_last(), votes)
    }
}

pub proof fn lemma_signer_indices(auths: Seq<Authority>, votes: VoteList)
    requires
        auths.len() <= u32::MAX,
    ensures
        forall|i: int, j: int|
            0 <= i < j < signer_indices(auths, votes).len() ==> signer_indices(auths, votes)[i]
                < signer_indices(auths, votes)[j],
        forall|i: int|
            0 <= i < signer_indices(auths, votes).len() ==> signer_indices(auths, votes)[i]
                < auths.len(),
        forall|v: u32|
            signer_indices(auths, votes).contains(v) <==> (v < auths.len() && vote_has_id(
                votes,
                auths[v as int].id,
            )),
    decreases auths.len(),
{
    if auths.len() > 0 {
        lemma_signer_indices(auths.drop_last(), votes);
        let s = signer_indices(auths, votes);
        let s0 = signer_indices(auths.drop_last(), votes);
        let lastidx = (auths.len() - 1) as u32;
        let has_last = vote_has_id(votes, auths.last().id);
        if has_last {
            assert(s =~= s0.push(lastidx));
        } else {
            assert(s =~= s0);
        }
        assert forall|i: int| 0 <= i < s.len() implies s[i] < auths.len() by {
            if i < s0.len() {
                assert(s0[i] < auths.drop_last().len());
            }
        }
        assert forall|i: int, j: int| 0 <= i < j < s.len() implies s[i] < s[j] by {
            if j < s0.len() {
            } else {
                assert(s[i] == s0[i]);
                assert(s0[i] < auths.drop_last().len());
            }
        }
        assert forall|v: u32|
            s.contains(v) <==> (v < auths.len() && vote_has_id(
                votes,
                auths[v as int].id,
            )) by {
            if s.contains(v) {
                let k = choose|k: int| 0 <= k < s.len() && s[k] == v;
                if k < s0.len() {
                    assert(s0.contains(v));
                    assert(auths.drop_last()[v as int] == auths[v as int]);
                } else {
                    assert(v == lastidx);
                }
            }
            if v < auths.len() && vote_has_id(votes, auths[v as int].id) {
                if v < auths.len() - 1 {
                    assert(auths.drop_last()[v as int] == auths[v as int]);
                    assert(s0.contains(v));
                    let k = choose|k: int| 0 <= k < s0.len() && s0[k] == v;
                    assert(s[k] == v);
                    assert(s.contains(v));
                } else {
                    assert(v == lastidx);
                    assert(has_last);
                    assert(s[s.len() - 1] == v);
                    assert(s.contains(v));
                }
            }
        }
    }
}

/// Stake collected over a committee prefix from a set of signer indices;
/// out-of-range indices contribute nothing.
pub open spec fn set_weight(auths: Seq<Authority>, s: Set<u32>) -> int
    decreases auths.len(),
{
    if auths.len() == 0 {
        0
    } else {
        set_weight(auths.drop_last(), s) + if s.contains((auths.len() - 1) as u32) {
            auths.last().stake as int
        } else {
            0
        }
    }
}

/// The protocol keys selected by a set of signer indices, in committee
/// order.
pub open spec fn set_pks(auths: Seq<Authority>, s: Set<u32>) -> Seq<Seq<u8>>
    decreases auths.len(),
{
    if auths.len() == 0 {
        Seq::empty()
    } else {
        set_pks(auths.drop_last(), s) + if s.contains((auths.len() - 1) as u32) {
            seq![auths.last().protocol_key@]
        } else {
            Seq::empty()
        }
    }
}

pub proof fn lemma_set_weight_le_total(auths: Seq<Authority>, s: Set<u32>)
    ensures
        0 <= set_weight(auths, s) <= stake_sum(auths),
    decreases auths.len(),
{
    if auths.len() > 0 {
        lemma_set_weight_le_total(auths.drop_last(), s)
    }
}

/// A certificate in its first shape.
pub struct CertificateV1 {
    pub header: Header,
    pub aggregated_signature: AggregateSignatureBytes,
    pub signed_authorities: RoaringBitmap,
    pub metadata: Metadata,
}

/// A versioned certificate.
pub enum Certificate {
    V1(CertificateV1),
}

/// The digest a genesis header of this authority and epoch hashes to.
pub open spec fn genesis_digest(author: u16, epoch: u64) -> Seq<u8> {
    crate::crypto::blake2b_of(
        ser_header_body(author, 0, epoch, 0, Seq::empty(), Seq::empty()),
    )
}

/// Whether this certificate equals one of the committee's canonical genesis
/// certificates: round 0, the committee's epoch, an origin the committee
/// knows, and the digest of that origin's genesis header.
pub open spec fn spec_genesis_match(c: &CertificateV1, committee: &Committee) -> bool {
    &&& c.header.spec_round() == 0
    &&& c.header.spec_epoch() == committee.epoch
    &&& committee.spec_has_authority(c.header.spec_author())
    &&& c.header.spec_digest() == genesis_digest(c.header.spec_author().0, committee.epoch)
}

impl CertificateV1 {
    /// The signer indices recorded in the bitmap.
    pub open spec fn spec_signed(&self) -> Set<u32> {
        bitmap_elems(self.signed_authorities)
    }

    /// Every recorded signer index is a position in this committee.
    pub open spec fn spec_bits_in_range(&self, committee: &Committee) -> bool {
        forall|v: u32|
            #[trigger] self.spec_signed().contains(v) ==> v < committee.authorities.len()
    }

    /// Everything `verify` checks, in one predicate.
    pub open spec fn spec_verify_ok(&self, committee: &Committee, wc: &WorkerCache) -> bool {
        &&& self.header.spec_epoch() == committee.epoch
        &&& (spec_genesis_match(self, committee) || {
            &&& self.header.v1().spec_valid(committee, wc)
            &&& self.spec_bits_in_range(committee)
            &&& set_weight(committee.authorities@, self.spec_signed())
                >= committee.spec_quorum_threshold()
            &&& bls_verifies(
                self.aggregated_signature@,
                set_pks(committee.authorities@, self.spec_signed()),
                intent_message_of(self.header.spec_digest()),
            )
        })
    }
}

impl Certificate {
    /// The inner shape.
    pub open spec fn v1(&self) -> CertificateV1 {
        match self {
            Certificate::V1(c) => *c,
        }
    }

    /// The canonical genesis certificates of a committee: one per
    /// authority, with an empty payload, no parents, no signers and a
    /// placeholder aggregate signature.
    pub fn genesis(committee: &Committee) -> (r: Vec<Certificate>)
        ensures
            r@.len() == committee.authorities.len(),
            forall|i: int|
                0 <= i < r@.len() ==> {
                    &&& (#[trigger] r@[i]).v1().header.spec_author()
                        == committee.authorities@[i].id
                    &&& r@[i].v1().header.spec_round() == 0
                    &&& r@[i].v1().header.spec_epoch() == committee.epoch
                    &&& r@[i].v1().header.spec_payload().len() == 0
                    &&& r@[i].v1().header.spec_parents().len() == 0
                    &&& r@[i].v1().header.spec_digest() == genesis_digest(
                        committee.authorities@[i].id.0,
                        committee.epoch,
                    )
                    &&& r@[i].v1().aggregated_signature@ == zero_aggregate_bytes()
                    &&& r@[i].v1().spec_signed() == Set::<u32>::empty()
                },
    {
        let n = committee.size();
        let mut out: Vec<Certificate> = Vec::new();
        let mut i: usize = 0;
        while i < n
            invariant
                i <= n,
                n == committee.authorities.len(),
                out@.len() == i,
                forall|j: int|
                    0 <= j < i ==> {
                        &&& (#[trigger] out@[j]).v1().header.spec_author()
                            == committee.authorities@[j].id
                        &&& out@[j].v1().header.spec_round() == 0
                        &&& out@[j].v1().header.spec_epoch() == committee.epoch
                        &&& out@[j].v1().header.spec_payload().len() == 0
                        &&& out@[j].v1().header.spec_parents().len() == 0
                        &&& out@[j].v1().header.spec_digest() == genesis_digest(
                            committee.authorities@[j].id.0,
                            committee.epoch,
                        )
                        &&& out@[j].v1().aggregated_signature@ == zero_aggregate_bytes()
                        &&& out@[j].v1().spec_signed() == Set::<u32>::empty()
                    },
            decreases n - i,
        {
            let header = HeaderV1 {
                author: committee.authorities[i].id,
                round: 0,
                epoch: committee.epoch(),
                created_at: 0,
                payload: PayloadMap::new(),
                parents: Vec::new(),
                digest: None,
            };
            proof {
                assert(header.spec_serialized() =~= ser_header_body(
                    committee.authorities@[i as int].id.0,
                    0,
                    committee.epoch,
                    0,
                    Seq::empty(),
                    Seq::empty(),
                )) by {
                    assert(crate::payload::payload_entries(header.payload) =~= Seq::<
                        (Seq<u8>, (u32, u64)),
                    >::empty());
                    assert(header.parents@.map_values(|d: CertificateDigest| d@) =~= Seq::<
                        Seq<u8>,
                    >::empty());
                }
            }
            let cert = CertificateV1 {
                header: Header::V1(header),
                aggregated_signature: AggregateSignatureBytes::zero(),
                signed_authorities: rb_new(),
                metadata: Metadata::created_now(),
            };
            out.push(Certificate::V1(cert));
            i = i + 1;
        }
        out
    }
}


/// Find the first vote by this authority.
fn find_vote(
    votes: &Vec<(AuthorityIdentifier, SignatureBytes)>,
    id: AuthorityIdentifier,
) -> (r: Option<SignatureBytes>)
    ensures
        r is Some <==> vote_has_id(votes@, id),
        r is Some ==> r.unwrap() == vote_sig_for(votes@, id),
{
    let n = votes.len();
    let mut i: usize = 0;
    while i < n
        invariant
            i <= n,
            n == votes.len(),
            forall|j: int| 0 <= j < i ==> votes@[j].0 != id,
        decreases n - i,
    {
        if votes[i].0 == id {
            proof {
                lemma_vote_index_of(votes@, id);
                assert(votes@[i as int].0 == id);
                assert(vote_index_of(votes@, id) == i);
            }
            return Some(votes[i].1);
        }
        i = i + 1;
    }
    proof {
        lemma_vote_index_of(votes@, id);
    }
    None
}

/// The shape of a certificate built from `header` and `votes`: the header
/// itself, the given aggregate bytes, and a bitmap holding exactly the
/// committee positions of the voters.
pub open spec fn spec_built(
    c: Certificate,
    header: Header,
    committee: &Committee,
    votes: VoteList,
    agg: Seq<u8>,
) -> bool {
    &&& c.v1().header == header
    &&& c.v1().aggregated_signature@ == agg
    &&& c.v1().spec_signed().finite()
    &&& forall|v: u32|
        #[trigger] c.v1().spec_signed().contains(v) <==> (v < committee.authorities.len()
            && vote_has_id(votes, committee.authorities@[v as int].id))
}

impl CertificateV1 {
    /// The shared construction routine: walk the committee in canonical
    /// order against the votes, record each voter's stake, signature and
    /// position, drop duplicated identical votes, fail on an unknown voter
    /// or a voter with conflicting signatures, optionally enforce the
    /// quorum, and aggregate the recorded signatures (the identity encoding
    /// when there are none).
    fn new_unsafe(
        committee: &Committee,
        header: Header,
        votes: Vec<(AuthorityIdentifier, SignatureBytes)>,
        check_stake: bool,
    ) -> (r: DagResult<Certificate>)
        requires
            committee.wf(),
        ensures
            !votes_ok(votes@, committee) ==> (r matches Err(e) && e matches
                DagError::UnknownAuthority(m) && id_problematic(votes@, committee, m) && forall|
                id2: AuthorityIdentifier,
            |
                id2.0 < m.0 ==> !id_problematic(votes@, committee, id2)),
            votes_ok(votes@, committee) && check_stake && signer_weight(
                committee.authorities@,
                votes@,
            ) < committee.spec_quorum_threshold() ==> r == Err::<Certificate, DagError>(
                DagError::CertificateRequiresQuorum,
            ),
            votes_ok(votes@, committee) && (!check_stake || signer_weight(
                committee.authorities@,
                votes@,
            ) >= committee.spec_quorum_threshold()) ==> {
                let sigs = signer_sigs(committee.authorities@, votes@);
                if sigs.len() == 0 {
                    r matches Ok(c) && spec_built(
                        c,
                        header,
                        committee,
                        votes@,
                        identity_aggregate_bytes(),
                    )
                } else {
                    match bls_aggregate_of(sigs.map_values(|s: SignatureBytes| s@)) {
                        Some(a) => r matches Ok(c) && spec_built(c, header, committee, votes@, a),
                        None => r == Err::<Certificate, DagError>(DagError::InvalidSignature),
                    }
                }
            },
            r is Ok ==> votes_ok(votes@, committee) && (check_stake ==> signer_weight(
                committee.authorities@,
                votes@,
            ) >= committee.spec_quorum_threshold()),
    {
        let n_votes = votes.len();
        let mut bad: Option<AuthorityIdentifier> = None;
        let mut k: usize = 0;
        while k < n_votes
            invariant
                k <= n_votes,
                n_votes == votes.len(),
                bad is None ==> forall|j: int|
                    0 <= j < k ==> !id_problematic(votes@, committee, #[trigger] votes@[j].0),
                bad matches Some(m) ==> id_problematic(votes@, committee, m) && forall|j: int|
                    0 <= j < k ==> (id_problematic(votes@, committee, #[trigger] votes@[j].0)
                        ==> m.0 <= votes@[j].0.0),
            decreases n_votes - k,
        {
            let id = votes[k].0;
            let known = committee.authority_index(id).is_some();
            let mut consistent = true;
            let mut j: usize = 0;
            while j < n_votes
                invariant
                    j <= n_votes,
                    k < n_votes,
                    n_votes == votes.len(),
                    id == votes@[k as int].0,
                    consistent <==> forall|j2: int|
                        0 <= j2 < j ==> ((#[trigger] votes@[j2].0) == id ==> votes@[j2].1@
                            == votes@[k as int].1@),
                decreases n_votes - j,
            {
                if votes[j].0 == id && !votes[j].1.equals(&votes[k].1) {
                    consistent = false;
                }
                j = j + 1;
            }
            proof {
                assert(vote_has_id(votes@, id)) by {
                    assert(votes@[k as int].0 == id);
                }
                if consistent {
                    if id_inconsistent(votes@, id) {
                        let (i2, j2): (int, int) = choose|i2: int, j2: int|
                            0 <= i2 < votes@.len() && 0 <= j2 < votes@.len() && votes@[i2].0 == id
                                && votes@[j2].0 == id && votes@[i2].1@ != votes@[j2].1@;
                        assert(votes@[i2].1@ == votes@[k as int].1@);
                        assert(votes@[j2].1@ == votes@[k as int].1@);
                        assert(false);
                    }
                } else {
                    let ki = k as int;
                    let j2 = choose|j2: int|
                        0 <= j2 < votes@.len() && votes@[j2].0 == id && votes@[j2].1@
                            != votes@[ki].1@;
                    assert(id_inconsistent(votes@, id));
                }
            }
            if !known || !consistent {
                proof {
                    assert(id_problematic(votes@, committee, id));
                }
                match bad {
                    None => { bad = Some(id) },
                    Some(m) => {
                        if id.0 < m.0 {
                            bad = Some(id);
                        }
                    },
                }
            } else {
                proof {
                    assert(!id_problematic(votes@, committee, id));
                }
            }
            k = k + 1;
        }
        if let Some(m) = bad {
            proof {
                assert forall|id2: AuthorityIdentifier| id2.0 < m.0 implies !id_problematic(
                    votes@,
                    committee,
                    id2,
                ) by {
                    if id_problematic(votes@, committee, id2) {
                        let k2 = choose|k2: int|
                            0 <= k2 < votes@.len() && votes@[k2].0 == id2;
                        assert(m.0 <= votes@[k2].0.0);
                    }
                }
                assert(!votes_ok(votes@, committee)) by {
                    let k2 = choose|k2: int| 0 <= k2 < votes@.len() && votes@[k2].0 == m;
                }
            }
            return Err(DagError::UnknownAuthority(m));
        }
        proof {
            assert(votes_ok(votes@, committee));
        }
        let ghost auths = committee.authorities@;
        let n = committee.size();
        let mut weight: u64 = 0;
        let mut sigs: Vec<SignatureBytes> = Vec::new();
        let mut indices: Vec<u32> = Vec::new();
        proof {
            assert(auths.take(0) =~= Seq::<Authority>::empty());
        }
        let mut i: usize = 0;
        while i < n
            invariant
                i <= n,
                committee.wf(),
                auths == committee.authorities@,
                n == committee.authorities.len(),
                weight == signer_weight(auths.take(i as int), votes@),
                sigs@ == signer_sigs(auths.take(i as int), votes@),
                indices@ == signer_indices(auths.take(i as int), votes@),
            decreases n - i,
        {
            proof {
                assert(auths.take(i + 1).drop_last() =~= auths.take(i as int));
                assert(auths.take(i + 1).last() == auths[i as int]);
                lemma_signer_weight_le_total(auths.take(i + 1), votes@);
                crate::committee::lemma_stake_sum_prefix(auths, i + 1);
                crate::committee::lemma_stake_sum_nonneg(auths.skip(i + 1));
            }
            let id = committee.authorities[i].id;
            match find_vote(&votes, id) {
                Some(sig) => {
                    weight = weight + committee.authorities[i].stake;
                    sigs.push(sig);
                    indices.push(i as u32);
                    proof {
                        assert(sigs@ =~= signer_sigs(auths.take(i + 1), votes@));
                        assert(indices@ =~= signer_indices(auths.take(i + 1), votes@));
                    }
                },
                None => {
                    proof {
                        assert(sigs@ =~= signer_sigs(auths.take(i + 1), votes@));
                        assert(indices@ =~= signer_indices(auths.take(i + 1), votes@));
                    }
                },
            }
            i = i + 1;
        }
        proof {
            assert(auths.take(n as int) =~= auths);
            lemma_signer_indices(auths, votes@);
        }
        let signed_authorities = rb_from_sorted(&indices);
        if check_stake {
            let quorum = committee.quorum_threshold();
            if weight < quorum {
                return Err(DagError::CertificateRequiresQuorum);
            }
        }
        let aggregated_signature: AggregateSignatureBytes = if sigs.len() == 0 {
            AggregateSignatureBytes::identity()
        } else {
            match crate::crypto::bls_aggregate(&sigs) {
                Some(a) => a,
                None => {
                    return Err(DagError::InvalidSignature);
                },
            }
        };
        let cert = CertificateV1 {
            header,
            aggregated_signature,
            signed_authorities,
            metadata: Metadata::created_now(),
        };
        proof {
            assert forall|v: u32|
                #[trigger] bitmap_elems(cert.signed_authorities).contains(v) <==> (v
                    < committee.authorities.len() && vote_has_id(
                    votes@,
                    committee.authorities@[v as int].id,
                )) by {
                assert(bitmap_elems(cert.signed_authorities).contains(v) <==> indices@.contains(
                    v,
                ));
            }
        }
        Ok(Certificate::V1(cert))
    }

    /// Build a certificate and enforce the quorum rule.
    pub fn new_unverified(
        committee: &Committee,
        header: Header,
        votes: Vec<(AuthorityIdentifier, SignatureBytes)>,
    ) -> (r: DagResult<Certificate>)
        requires
            committee.wf(),
        ensures
            !votes_ok(votes@, committee) ==> (r matches Err(e) && e matches
                DagError::UnknownAuthority(m) && id_problematic(votes@, committee, m)),
            votes_ok(votes@, committee) && signer_weight(committee.authorities@, votes@)
                < committee.spec_quorum_threshold() ==> r == Err::<Certificate, DagError>(
                DagError::CertificateRequiresQuorum,
            ),
            votes_ok(votes@, committee) && signer_weight(committee.authorities@, votes@)
                >= committee.spec_quorum_threshold() ==> {
                let sigs = signer_sigs(committee.authorities@, votes@);
                if sigs.len() == 0 {
                    r matches Ok(c) && spec_built(
                        c,
                        header,
                        committee,
                        votes@,
                        identity_aggregate_bytes(),
                    )
                } else {
                    match bls_aggregate_of(sigs.map_values(|s: SignatureBytes| s@)) {
                        Some(a) => r matches Ok(c) && spec_built(c, header, committee, votes@, a),
                        None => r == Err::<Certificate, DagError>(DagError::InvalidSignature),
                    }
                }
            },
            r is Ok ==> votes_ok(votes@, committee) && signer_weight(
                committee.authorities@,
                votes@,
            ) >= committee.spec_quorum_threshold(),
    {
        Self::new_unsafe(committee, header, votes, true)
    }

    /// Build a certificate without the quorum check (test fixtures and
    /// genesis-adjacent tooling).
    pub fn new_unsigned(
        committee: &Committee,
        header: Header,
        votes: Vec<(AuthorityIdentifier, SignatureBytes)>,
    ) -> (r: DagResult<Certificate>)
        requires
            committee.wf(),
        ensures
            !votes_ok(votes@, committee) ==> (r matches Err(e) && e matches
                DagError::UnknownAuthority(m) && id_problematic(votes@, committee, m)),
            votes_ok(votes@, committee) ==> {
                let sigs = signer_sigs(committee.authorities@, votes@);
                if sigs.len() == 0 {
                    r matches Ok(c) && spec_built(
                        c,
                        header,
                        committee,
                        votes@,
                        identity_aggregate_bytes(),
                    )
                } else {
                    match bls_aggregate_of(sigs.map_values(|s: SignatureBytes| s@)) {
                        Some(a) => r matches Ok(c) && spec_built(c, header, committee, votes@, a),
                        None => r == Err::<Certificate, DagError>(DagError::InvalidSignature),
                    }
                }
            },
            r is Ok ==> votes_ok(votes@, committee),
    {
        Self::new_unsafe(committee, header, votes, false)
    }

    /// An empty certificate naming only its author; a test fixture.
    pub fn new_test_empty(author: AuthorityIdentifier) -> (r: Certificate)
        ensures
            r.v1().header.spec_author() == author,
            r.v1().header.spec_round() == 0,
            r.v1().header.spec_epoch() == 0,
            r.v1().spec_signed() == Set::<u32>::empty(),
    {
        let header = HeaderV1 {
            author,
            round: 0,
            epoch: 0,
            created_at: 0,
            payload: PayloadMap::new(),
            parents: Vec::new(),
            digest: None,
        };
        Certificate::V1(
            CertificateV1 {
                header: Header::V1(header),
                aggregated_signature: AggregateSignatureBytes::zero(),
                signed_authorities: rb_new(),
                metadata: Metadata::created_now(),
            },
        )
    }

    /// The stake and the protocol keys selected by the signer bitmap, in
    /// committee order; out-of-range bits select nothing.
    pub fn signed_by(&self, committee: &Committee) -> (r: (Stake, Vec<PublicKeyBytes>))
        requires
            committee.wf(),
        ensures
            r.0 == set_weight(committee.authorities@, self.spec_signed()),
            r.1@.map_values(|k: PublicKeyBytes| k@) == set_pks(
                committee.authorities@,
                self.spec_signed(),
            ),
    {
        let ghost auths = committee.authorities@;
        let n = committee.size();
        let mut weight: u64 = 0;
        let mut pks: Vec<PublicKeyBytes> = Vec::new();
        proof {
            assert(auths.take(0) =~= Seq::<Authority>::empty());
            assert(pks@.map_values(|k: PublicKeyBytes| k@) =~= set_pks(
                auths.take(0),
                self.spec_signed(),
            ));
        }
        let mut i: usize = 0;
        while i < n
            invariant
                i <= n,
                committee.wf(),
                auths == committee.authorities@,
                n == committee.authorities.len(),
                weight == set_weight(auths.take(i as int), self.spec_signed()),
                pks@.map_values(|k: PublicKeyBytes| k@) == set_pks(
                    auths.take(i as int),
                    self.spec_signed(),
                ),
            decreases n - i,
        {
            proof {
                assert(auths.take(i + 1).drop_last() =~= auths.take(i as int));
                assert(auths.take(i + 1).last() == auths[i as int]);
                lemma_set_weight_le_total(auths.take(i + 1), self.spec_signed());
                crate::committee::lemma_stake_sum_prefix(auths, i + 1);
                crate::committee::lemma_stake_sum_nonneg(auths.skip(i + 1));
            }
            if rb_contains(&self.signed_authorities, i as u32) {
                weight = weight + committee.authorities[i].stake;
                pks.push(PublicKeyBytes(crate::crypto::copy_bytes(&committee.authorities[i].protocol_key.0)));
                proof {
                    assert(pks@.map_values(|k: PublicKeyBytes| k@) =~= set_pks(
                        auths.take(i + 1),
                        self.spec_signed(),
                    ));
                }
            } else {
                proof {
                    assert(pks@.map_values(|k: PublicKeyBytes| k@) =~= set_pks(
                        auths.take(i + 1),
                        self.spec_signed(),
                    ));
                }
            }
            i = i + 1;
        }
        proof {
            assert(auths.take(n as int) =~= auths);
        }
        (weight, pks)
    }

    /// The protocol keys of the recorded signers. The certificate must
    /// belong to this committee's epoch.
    pub fn signed_authorities_keys(&self, committee: &Committee) -> (r: Vec<PublicKeyBytes>)
        requires
            committee.wf(),
            self.header.spec_epoch() == committee.epoch,
        ensures
            r@.map_values(|k: PublicKeyBytes| k@) == set_pks(
                committee.authorities@,
                self.spec_signed(),
            ),
    {
        let (_stake, pks) = self.signed_by(committee);
        pks
    }

    /// Verify the certificate: epoch, genesis short-circuit, header
    /// validation, signer range, quorum, aggregate signature — in that
    /// order, each failure with its own error.
    pub fn verify(&self, committee: &Committee, worker_cache: &WorkerCache) -> (r: DagResult<()>)
        requires
            committee.wf(),
        ensures
            r is Ok <==> self.spec_verify_ok(committee, worker_cache),
            self.header.spec_epoch() != committee.epoch ==> r == Err::<(), DagError>(
                DagError::InvalidEpoch {
                    expected: committee.epoch,
                    received: self.header.spec_epoch(),
                },
            ),
            self.header.spec_epoch() == committee.epoch && !spec_genesis_match(self, committee)
                && !self.header.v1().spec_digest_ok() ==> r == Err::<(), DagError>(
                DagError::InvalidHeaderDigest,
            ),
            self.header.spec_epoch() == committee.epoch && !spec_genesis_match(self, committee)
                && self.header.v1().spec_digest_ok() && committee.spec_stake_of(
                self.header.spec_author(),
            ) == 0 ==> r == Err::<(), DagError>(
                DagError::UnknownAuthority(self.header.spec_author()),
            ),
            self.header.spec_epoch() == committee.epoch && !spec_genesis_match(self, committee)
                && self.header.v1().spec_digest_ok() && committee.spec_stake_of(
                self.header.spec_author(),
            ) > 0 && !self.header.v1().spec_workers_ok(worker_cache) ==> (r matches Err(e) && e
                matches DagError::HeaderHasBadWorkerIds(d) && d@ == self.header.spec_digest()),
            self.header.spec_epoch() == committee.epoch && !spec_genesis_match(self, committee)
                && self.header.v1().spec_valid(committee, worker_cache)
                && !self.spec_bits_in_range(committee) ==> r == Err::<(), DagError>(
                DagError::InvalidBitmap,
            ),
            self.header.spec_epoch() == committee.epoch && !spec_genesis_match(self, committee)
                && self.header.v1().spec_valid(committee, worker_cache)
                && self.spec_bits_in_range(committee) && set_weight(
                committee.authorities@,
                self.spec_signed(),
            ) < committee.spec_quorum_threshold() ==> r == Err::<(), DagError>(
                DagError::CertificateRequiresQuorum,
            ),
            self.header.spec_epoch() == committee.epoch && !spec_genesis_match(self, committee)
                && self.header.v1().spec_valid(committee, worker_cache)
                && self.spec_bits_in_range(committee) && set_weight(
                committee.authorities@,
                self.spec_signed(),
            ) >= committee.spec_quorum_threshold() && !bls_verifies(
                self.aggregated_signature@,
                set_pks(committee.authorities@, self.spec_signed()),
                intent_message_of(self.header.spec_digest()),
            ) ==> r == Err::<(), DagError>(DagError::InvalidSignature),
    {
        if self.header.epoch() != committee.epoch() {
            return Err(
                DagError::InvalidEpoch {
                    expected: committee.epoch(),
                    received: self.header.epoch(),
                },
            );
        }
        if self.header.round() == 0 {
            let origin = self.header.author();
            match committee.authority_index(origin) {
                Some(_idx) => {
                    let gh = HeaderV1 {
                        author: origin,
                        round: 0,
                        epoch: committee.epoch(),
                        created_at: 0,
                        payload: PayloadMap::new(),
                        parents: Vec::new(),
                        digest: None,
                    };
                    proof {
                        assert(gh.spec_serialized() =~= ser_header_body(
                            origin.0,
                            0,
                            committee.epoch,
                            0,
                            Seq::empty(),
                            Seq::empty(),
                        )) by {
                            assert(crate::payload::payload_entries(gh.payload) =~= Seq::<
                                (Seq<u8>, (u32, u64)),
                            >::empty());
                            assert(gh.parents@.map_values(|d: CertificateDigest| d@) =~= Seq::<
                                Seq<u8>,
                            >::empty());
                        }
                    }
                    let gd = gh.compute_digest();
                    let cd = self.header.digest();
                    if gd.equals(&cd) {
                        proof {
                            assert(spec_genesis_match(self, committee));
                        }
                        return Ok(());
                    }
                },
                None => {},
            }
        }
        proof {
            assert(!spec_genesis_match(self, committee));
        }
        match self.header.validate(committee, worker_cache) {
            Err(e) => {
                return Err(e);
            },
            Ok(()) => {},
        }
        match rb_max(&self.signed_authorities) {
            Some(m) => {
                if m as usize >= committee.size() {
                    proof {
                        assert(self.spec_signed().contains(m));
                        assert(!self.spec_bits_in_range(committee));
                    }
                    return Err(DagError::InvalidBitmap);
                }
            },
            None => {},
        }
        proof {
            assert(self.spec_bits_in_range(committee));
        }
        let (weight, pks) = self.signed_by(committee);
        if weight < committee.quorum_threshold() {
            return Err(DagError::CertificateRequiresQuorum);
        }
        let cd = self.header.digest();
        let msg = intent_message_bytes(&cd.0);
        if !bls_aggregate_verify(&self.aggregated_signature, &pks, &msg) {
            return Err(DagError::InvalidSignature);
        }
        Ok(())
    }

    /// The round of the certified header.
    pub fn round(&self) -> (r: Round)
        ensures
            r == self.header.spec_round(),
    {
        self.header.round()
    }

    /// The epoch of the certified header.
    pub fn epoch(&self) -> (r: Epoch)
        ensures
            r == self.header.spec_epoch(),
    {
        self.header.epoch()
    }

    /// The authority that authored the certified header.
    pub fn origin(&self) -> (r: AuthorityIdentifier)
        ensures
            r == self.header.spec_author(),
    {
        self.header.author()
    }

    /// The digest of the certificate: the header digest, verbatim.
    pub fn digest(&self) -> (r: CertificateDigest)
        ensures
            r@ == self.header.spec_digest(),
    {
        let hd = self.header.digest();
        CertificateDigest::new(hd.0)
    }
}


impl Certificate {
    /// Build a certificate and enforce the quorum rule.
    pub fn new_unverified(
        committee: &Committee,
        header: Header,
        votes: Vec<(AuthorityIdentifier, SignatureBytes)>,
    ) -> (r: DagResult<Certificate>)
        requires
            committee.wf(),
        ensures
            !votes_ok(votes@, committee) ==> (r matches Err(e) && e matches
                DagError::UnknownAuthority(m) && id_problematic(votes@, committee, m)),
            votes_ok(votes@, committee) && signer_weight(committee.authorities@, votes@)
                < committee.spec_quorum_threshold() ==> r == Err::<Certificate, DagError>(
                DagError::CertificateRequiresQuorum,
            ),
            votes_ok(votes@, committee) && signer_weight(committee.authorities@, votes@)
                >= committee.spec_quorum_threshold() ==> {
                let sigs = signer_sigs(committee.authorities@, votes@);
                if sigs.len() == 0 {
                    r matches Ok(c) && spec_built(
                        c,
                        header,
                        committee,
                        votes@,
                        identity_aggregate_bytes(),
                    )
                } else {
                    match bls_aggregate_of(sigs.map_values(|s: SignatureBytes| s@)) {
                        Some(a) => r matches Ok(c) && spec_built(c, header, committee, votes@, a),
                        None => r == Err::<Certificate, DagError>(DagError::InvalidSignature),
                    }
                }
            },
            r is Ok ==> votes_ok(votes@, committee) && signer_weight(
                committee.authorities@,
                votes@,
            ) >= committee.spec_quorum_threshold(),
    {
        CertificateV1::new_unverified(committee, header, votes)
    }

    /// Build a certificate without the quorum check.
    pub fn new_unsigned(
        committee: &Committee,
        header: Header,
        votes: Vec<(AuthorityIdentifier, SignatureBytes)>,
    ) -> (r: DagResult<Certificate>)
        requires
            committee.wf(),
        ensures
            !votes_ok(votes@, committee) ==> (r matches Err(e) && e matches
                DagError::UnknownAuthority(m) && id_problematic(votes@, committee, m)),
            votes_ok(votes@, committee) ==> {
                let sigs = signer_sigs(committee.authorities@, votes@);
                if sigs.len() == 0 {
                    r matches Ok(c) && spec_built(
                        c,
                        header,
                        committee,
                        votes@,
                        identity_aggregate_bytes(),
                    )
                } else {
                    match bls_aggregate_of(sigs.map_values(|s: SignatureBytes| s@)) {
                        Some(a) => r matches Ok(c) && spec_built(c, header, committee, votes@, a),
                        None => r == Err::<Certificate, DagError>(DagError::InvalidSignature),
                    }
                }
            },
            r is Ok ==> votes_ok(votes@, committee),
    {
        CertificateV1::new_unsigned(committee, header, votes)
    }

    /// An empty certificate naming only its author; a test fixture.
    pub fn new_test_empty(author: AuthorityIdentifier) -> (r: Certificate)
        ensures
            r.v1().header.spec_author() == author,
            r.v1().header.spec_round() == 0,
            r.v1().header.spec_epoch() == 0,
            r.v1().spec_signed() == Set::<u32>::empty(),
    {
        CertificateV1::new_test_empty(author)
    }

    /// The protocol keys of the recorded signers; the certificate must
    /// belong to this committee's epoch.
    pub fn signed_authorities(&self, committee: &Committee) -> (r: Vec<PublicKeyBytes>)
        requires
            committee.wf(),
            self.v1().header.spec_epoch() == committee.epoch,
        ensures
            r@.map_values(|k: PublicKeyBytes| k@) == set_pks(
                committee.authorities@,
                self.v1().spec_signed(),
            ),
    {
        match self {
            Certificate::V1(c) => c.signed_authorities_keys(committee),
        }
    }

    /// The stake and the protocol keys selected by the signer bitmap.
    pub fn signed_by(&self, committee: &Committee) -> (r: (Stake, Vec<PublicKeyBytes>))
        requires
            committee.wf(),
        ensures
            r.0 == set_weight(committee.authorities@, self.v1().spec_signed()),
            r.1@.map_values(|k: PublicKeyBytes| k@) == set_pks(
                committee.authorities@,
                self.v1().spec_signed(),
            ),
    {
        match self {
            Certificate::V1(c) => c.signed_by(committee),
        }
    }

    /// Verify the certificate (see the shape's own `verify` for the full
    /// step-by-step contract).
    pub fn verify(&self, committee: &Committee, worker_cache: &WorkerCache) -> (r: DagResult<()>)
        requires
            committee.wf(),
        ensures
            r is Ok <==> self.v1().spec_verify_ok(committee, worker_cache),
            self.v1().header.spec_epoch() != committee.epoch ==> r == Err::<(), DagError>(
                DagError::InvalidEpoch {
                    expected: committee.epoch,
                    received: self.v1().header.spec_epoch(),
                },
            ),
            self.v1().header.spec_epoch() == committee.epoch && !spec_genesis_match(
                &self.v1(),
                committee,
            ) && self.v1().header.v1().spec_valid(committee, worker_cache)
                && !self.v1().spec_bits_in_range(committee) ==> r == Err::<(), DagError>(
                DagError::InvalidBitmap,
            ),
            self.v1().header.spec_epoch() == committee.epoch && !spec_genesis_match(
                &self.v1(),
                committee,
            ) && self.v1().header.v1().spec_valid(committee, worker_cache)
                && self.v1().spec_bits_in_range(committee) && set_weight(
                committee.authorities@,
                self.v1().spec_signed(),
            ) < committee.spec_quorum_threshold() ==> r == Err::<(), DagError>(
                DagError::CertificateRequiresQuorum,
            ),
            self.v1().header.spec_epoch() == committee.epoch && !spec_genesis_match(
                &self.v1(),
                committee,
            ) && self.v1().header.v1().spec_valid(committee, worker_cache)
                && self.v1().spec_bits_in_range(committee) && set_weight(
                committee.authorities@,
                self.v1().spec_signed(),
            ) >= committee.spec_quorum_threshold() && !bls_verifies(
                self.v1().aggregated_signature@,
                set_pks(committee.authorities@, self.v1().spec_signed()),
                intent_message_of(self.v1().header.spec_digest()),
            ) ==> r == Err::<(), DagError>(DagError::InvalidSignature),
    {
        match self {
            Certificate::V1(c) => c.verify(committee, worker_cache),
        }
    }

    /// The round of the certified header.
    pub fn round(&self) -> (r: Round)
        ensures
            r == self.v1().header.spec_round(),
    {
        match self {
            Certificate::V1(c) => c.round(),
        }
    }

    /// The epoch of the certified header.
    pub fn epoch(&self) -> (r: Epoch)
        ensures
            r == self.v1().header.spec_epoch(),
    {
        match self {
            Certificate::V1(c) => c.epoch(),
        }
    }

    /// The authority that authored the certified header.
    pub fn origin(&self) -> (r: AuthorityIdentifier)
        ensures
            r == self.v1().header.spec_author(),
    {
        match self {
            Certificate::V1(c) => c.origin(),
        }
    }

    /// The digest of the certificate: the header digest, verbatim.
    pub fn digest(&self) -> (r: CertificateDigest)
        ensures
            r@ == self.v1().header.spec_digest(),
    {
        match self {
            Certificate::V1(c) => c.digest(),
        }
    }

    /// The parent certificate digests referenced by the certified header;
    /// the hooks a DAG walker needs.
    pub fn parents(&self) -> (r: Vec<CertificateDigest>)
        ensures
            r@ == self.v1().header.spec_parents(),
    {
        let parents = match self {
            Certificate::V1(c) => c.header.parents(),
        };
        let n = parents.len();
        let mut out: Vec<CertificateDigest> = Vec::new();
        let mut i: usize = 0;
        while i < n
            invariant
                i <= n,
                n == parents.len(),
                out@ =~= parents@.take(i as int),
            decreases n - i,
        {
            out.push(parents[i]);
            i = i + 1;
            proof {
                assert(parents@.take(i as int) =~= parents@.take(i - 1).push(parents@[i - 1]));
            }
        }
        proof {
            assert(parents@.take(n as int) =~= parents@);
        }
        out
    }

    /// Whether DAG walks may elide this certificate: true exactly when the
    /// certified header carries no payload.
    pub fn compressible(&self) -> (r: bool)
        ensures
            r == (self.v1().header.spec_payload().len() == 0),
    {
        match self {
            Certificate::V1(c) => c.header.payload().is_empty(),
        }
    }
}

/// The common surface of every certificate shape, plus the mutator used by
/// property tests.
pub trait CertificateAPI {
    spec fn spec_header(&self) -> Header;

    spec fn spec_aggregated_signature(&self) -> AggregateSignatureBytes;

    spec fn spec_signed_bits(&self) -> Set<u32>;

    spec fn spec_metadata(&self) -> Metadata;

    fn header(&self) -> (r: &Header)
        ensures
            *r == self.spec_header(),
    ;

    fn aggregated_signature(&self) -> (r: &AggregateSignatureBytes)
        ensures
            *r == self.spec_aggregated_signature(),
    ;

    fn signed_authorities(&self) -> (r: &RoaringBitmap)
        ensures
            bitmap_elems(*r) == self.spec_signed_bits(),
    ;

    fn metadata(&self) -> (r: &Metadata)
        ensures
            *r == self.spec_metadata(),
    ;

    /// Replace the certified header; for tests.
    fn update_header(&mut self, header: Header)
        ensures
            final(self).spec_header() == header,
            final(self).spec_signed_bits() == old(self).spec_signed_bits(),
            final(self).spec_aggregated_signature() == old(self).spec_aggregated_signature(),
    ;
}

impl CertificateAPI for CertificateV1 {
    open spec fn spec_header(&self) -> Header {
        self.header
    }

    open spec fn spec_aggregated_signature(&self) -> AggregateSignatureBytes {
        self.aggregated_signature
    }

    open spec fn spec_signed_bits(&self) -> Set<u32> {
        bitmap_elems(self.signed_authorities)
    }

    open spec fn spec_metadata(&self) -> Metadata {
        self.metadata
    }

    fn header(&self) -> &Header {
        &self.header
    }

    fn aggregated_signature(&self) -> &AggregateSignatureBytes {
        &self.aggregated_signature
    }

    fn signed_authorities(&self) -> &RoaringBitmap {
        &self.signed_authorities
    }

    fn metadata(&self) -> &Metadata {
        &self.metadata
    }

    fn update_header(&mut self, header: Header) {
        self.header = header;
    }
}

impl CertificateAPI for Certificate {
    open spec fn spec_header(&self) -> Header {
        self.v1().header
    }

    open spec fn spec_aggregated_signature(&self) -> AggregateSignatureBytes {
        self.v1().aggregated_signature
    }

    open spec fn spec_signed_bits(&self) -> Set<u32> {
        bitmap_elems(self.v1().signed_authorities)
    }

    open spec fn spec_metadata(&self) -> Metadata {
        self.v1().metadata
    }

    fn header(&self) -> &Header {
        match self {
            Certificate::V1(c) => &c.header,
        }
    }

    fn aggregated_signature(&self) -> &AggregateSignatureBytes {
        match self {
            Certificate::V1(c) => &c.aggregated_signature,
        }
    }

    fn signed_authorities(&self) -> &RoaringBitmap {
        match self {
            Certificate::V1(c) => &c.signed_authorities,
        }
    }

    fn metadata(&self) -> &Metadata {
        match self {
            Certificate::V1(c) => &c.metadata,
        }
    }

    fn update_header(&mut self, header: Header) {
        match self {
            Certificate::V1(c) => c.header = header,
        }
    }
}


/// The plain fields of a parsed certificate: the header fields, the
/// aggregate signature bytes, the serialized signer bitmap, and the
/// advisory creation time.
pub type CertificateFields = (crate::header::HeaderFields, Seq<u8>, Seq<u8>, u64);

/// The serialization of a versioned certificate: variant tag, header,
/// aggregate signature, length-prefixed signer bitmap, metadata.
pub open spec fn ser_certificate(c: &Certificate) -> Seq<u8> {
    uleb(0) + crate::header::ser_header(&c.v1().header) + c.v1().aggregated_signature@
        + ser_bytes(bitmap_serialized(c.v1().spec_signed())) + le_bytes(
        c.v1().metadata.created_at as nat,
        8,
    )
}

/// Append the serialization of a certificate.
pub fn encode_certificate(out: &mut Vec<u8>, c: &Certificate)
    ensures
        final(out)@ == old(out)@ + ser_certificate(c),
{
    encode_uleb(out, 0);
    match c {
        Certificate::V1(data) => {
            crate::header::encode_header(out, &data.header);
            crate::codec::append_fixed::<48>(out, &data.aggregated_signature.0);
            let bm = rb_serialize(&data.signed_authorities);
            encode_bytes(out, &bm);
            proof {
                lemma_pow256_8();
            }
            encode_uint_le(out, data.metadata.created_at, 8);
        },
    }
    proof {
        assert(out@ =~= old(out)@ + ser_certificate(c));
    }
}

/// The certificate starting at `pos`, with the position just after it.
pub open spec fn parse_certificate(b: Seq<u8>, pos: int) -> Option<(CertificateFields, int)> {
    match parse_uleb(b, pos) {
        Some((tag, p)) => {
            if tag != 0 {
                None
            } else {
                match crate::header::parse_header(b, p) {
                    Some((hf, p1)) => {
                        if p1 + 48 > b.len() {
                            None
                        } else {
                            let agg = b.subrange(p1, p1 + 48);
                            match parse_bytes(b, p1 + 48) {
                                Some((bm, p2)) => {
                                    if p2 + 8 > b.len() {
                                        None
                                    } else {
                                        Some(
                                            (
                                                (
                                                    hf,
                                                    agg,
                                                    bm,
                                                    parse_le_val(b, p2, 8) as u64,
                                                ),
                                                p2 + 8,
                                            ),
                                        )
                                    }
                                },
                                None => None,
                            }
                        }
                    },
                    None => None,
                }
            }
        },
        None => None,
    }
}

/// Parsing a serialized certificate recovers its fields.
pub proof fn lemma_certificate_roundtrip(b: Seq<u8>, pos: int, c: &Certificate)
    requires
        c.v1().header.v1().wf(),
        0 <= pos,
        pos + ser_certificate(c).len() <= b.len(),
        b.subrange(pos, pos + ser_certificate(c).len()) == ser_certificate(c),
    ensures
        parse_certificate(b, pos) == Some(
            (
                (
                    crate::header::header_fields(c.v1().header.v1()),
                    c.v1().aggregated_signature@,
                    bitmap_serialized(c.v1().spec_signed()),
                    c.v1().metadata.created_at,
                ),
                pos + ser_certificate(c).len(),
            ),
        ),
{
    let d = c.v1();
    let f1 = crate::header::ser_header(&d.header);
    let f2 = d.aggregated_signature@;
    let f3 = ser_bytes(bitmap_serialized(d.spec_signed()));
    let f4 = le_bytes(d.metadata.created_at as nat, 8);
    lemma_pow256_8();
    crate::codec::lemma_le_bytes_len(d.metadata.created_at as nat, 8);
    let body = f1 + f2 + f3 + f4;
    assert(ser_certificate(c) =~= uleb(0) + body);
    lemma_concat_split(b, pos, uleb(0), body);
    lemma_uleb_roundtrip(b, pos, 0);
    let p = pos + 1;
    assert(body =~= f1 + (f2 + f3 + f4));
    lemma_concat_split(b, p, f1, f2 + f3 + f4);
    crate::header::lemma_header_roundtrip(b, p, &d.header);
    let p1 = p + f1.len();
    assert(f2 + f3 + f4 =~= f2 + (f3 + f4));
    lemma_concat_split(b, p1, f2, f3 + f4);
    assert(b.subrange(p1, p1 + 48) == f2);
    let p15 = p1 + 48;
    lemma_concat_split(b, p15, f3, f4);
    crate::codec::lemma_bytes_roundtrip(b, p15, bitmap_serialized(d.spec_signed()));
    let p2 = p15 + f3.len();
    lemma_le_roundtrip(b, p2, d.metadata.created_at as nat, 8);
}

/// Read a certificate at `pos`; `None` when the bytes are not a
/// certificate or the signer bitmap cannot be decoded.
pub fn decode_certificate(buf: &Vec<u8>, pos: usize) -> (r: Option<(Certificate, usize)>)
    ensures
        parse_certificate(buf@, pos as int) is None ==> r is None,
        r is Some ==> {
            let (f, end) = parse_certificate(buf@, pos as int).unwrap();
            &&& parse_certificate(buf@, pos as int) is Some
            &&& crate::header::header_fields(r.unwrap().0.v1().header.v1()) == f.0
            &&& r.unwrap().0.v1().header.v1().spec_cache() is None
            &&& r.unwrap().0.v1().aggregated_signature@ == f.1
            &&& r.unwrap().0.v1().metadata.created_at == f.3
            &&& (forall|s: Set<u32>|
                f.2 == #[trigger] bitmap_serialized(s) ==> r.unwrap().0.v1().spec_signed() == s)
            &&& r.unwrap().1 == end
        },
        forall|s: Set<u32>|
            (parse_certificate(buf@, pos as int) matches Some(f) && f.0.2
                == #[trigger] bitmap_serialized(s)) ==> r is Some,
{
    let tagr = decode_uleb(buf, pos);
    let (tag, p) = match tagr {
        None => {
            return None;
        },
        Some(t) => t,
    };
    if tag != 0 {
        return None;
    }
    let hr = crate::header::decode_header(buf, p);
    let (header, p1) = match hr {
        None => {
            return None;
        },
        Some(t) => t,
    };
    if p1 > buf.len() || 48 > buf.len() - p1 {
        return None;
    }
    let agg = crate::crypto::take_array::<48>(buf, p1);
    let bmr = crate::codec::decode_bytes(buf, p1 + 48);
    let (bm_bytes, p2) = match bmr {
        None => {
            proof {
                if parse_uleb(buf@, p1 + 48) matches Some(q) && q.0 > u64::MAX {
                    assert(parse_bytes(buf@, p1 + 48) is None) by {
                        crate::codec::lemma_parse_uleb_bounds(buf@, p1 + 48);
                    }
                }
            }
            return None;
        },
        Some(t) => t,
    };
    let bitmap = match rb_deserialize(&bm_bytes) {
        None => {
            return None;
        },
        Some(bmv) => bmv,
    };
    if p2 > buf.len() || 8 > buf.len() - p2 {
        return None;
    }
    proof {
        lemma_pow256_8();
        crate::vote::lemma_parse_le_fits(buf@, p2 as int, 8);
    }
    let created_at = decode_uint_le(buf, p2, 8).unwrap().0;
    let cert = CertificateV1 {
        header,
        aggregated_signature: AggregateSignatureBytes(agg),
        signed_authorities: bitmap,
        metadata: Metadata { created_at },
    };
    Some((Certificate::V1(cert), p2 + 8))
}


/// Whether a decoded certificate shape realizes the given parsed fields;
/// the signer bitmap is pinned whenever the parsed bytes are the canonical
/// serialization of some set.
pub open spec fn cert_matches_fields(c: CertificateV1, f: CertificateFields) -> bool {
    &&& crate::header::header_fields(c.header.v1()) == f.0
    &&& c.header.v1().spec_cache() is None
    &&& c.aggregated_signature@ == f.1
    &&& c.metadata.created_at == f.3
    &&& forall|s: Set<u32>|
        f.2 == #[trigger] bitmap_serialized(s) ==> bitmap_elems(c.signed_authorities) == s
}

/// Consecutive certificates, without the count prefix.
pub open spec fn ser_cert_seq(s: Seq<Certificate>) -> Seq<u8>
    decreases s.len(),
{
    if s.len() == 0 {
        Seq::empty()
    } else {
        ser_certificate(&s[0]) + ser_cert_seq(s.subrange(1, s.len() as int))
    }
}

/// `n` consecutive certificates starting at `pos`.
pub open spec fn parse_cert_seq(b: Seq<u8>, pos: int, n: nat) -> Option<
    (Seq<CertificateFields>, int),
>
    decreases n,
{
    if n == 0 {
        Some((Seq::empty(), pos))
    } else {
        match parse_certificate(b, pos) {
            Some((f, p)) => match parse_cert_seq(b, p, (n - 1) as nat) {
                Some((rest, end)) => Some((seq![f] + rest, end)),
                None => None,
            },
            None => None,
        }
    }
}

/// Parsing serialized certificates recovers their fields.
pub proof fn lemma_cert_seq_roundtrip(b: Seq<u8>, pos: int, s: Seq<Certificate>)
    requires
        forall|i: int| 0 <= i < s.len() ==> (#[trigger] s[i]).v1().header.v1().wf(),
        0 <= pos,
        pos + ser_cert_seq(s).len() <= b.len(),
        b.subrange(pos, pos + ser_cert_seq(s).len()) == ser_cert_seq(s),
    ensures
        parse_cert_seq(b, pos, s.len()) matches Some(r) && r.1 == pos + ser_cert_seq(s).len()
            && r.0.len() == s.len() && (forall|i: int|
            0 <= i < s.len() ==> (#[trigger] r.0[i]) == (
                crate::header::header_fields(s[i].v1().header.v1()),
                s[i].v1().aggregated_signature@,
                bitmap_serialized(s[i].v1().spec_signed()),
                s[i].v1().metadata.created_at,
            )),
    decreases s.len(),
{
    if s.len() > 0 {
        let rest = s.subrange(1, s.len() as int);
        assert(forall|i: int| 0 <= i < rest.len() ==> (#[trigger] rest[i]).v1().header.v1().wf())
            by {
            assert forall|i: int|
                0 <= i < rest.len() implies (#[trigger] rest[i]).v1().header.v1().wf() by {
                assert(rest[i] == s[i + 1]);
            }
        }
        assert(ser_cert_seq(s) =~= ser_certificate(&s[0]) + ser_cert_seq(rest));
        crate::codec::lemma_concat_split(b, pos, ser_certificate(&s[0]), ser_cert_seq(rest));
        lemma_certificate_roundtrip(b, pos, &s[0]);
        lemma_cert_seq_roundtrip(b, pos + ser_certificate(&s[0]).len(), rest);
        let r = parse_cert_seq(b, pos, s.len()).unwrap();
        let r1 = parse_cert_seq(b, pos + ser_certificate(&s[0]).len(), rest.len()).unwrap();
        assert forall|i: int|
            0 <= i < s.len() implies (#[trigger] r.0[i]) == (
                crate::header::header_fields(s[i].v1().header.v1()),
                s[i].v1().aggregated_signature@,
                bitmap_serialized(s[i].v1().spec_signed()),
                s[i].v1().metadata.created_at,
            ) by {
            if i > 0 {
                assert(r.0[i] == r1.0[i - 1]);
                assert(rest[i - 1] == s[i]);
            }
        }
    }
}

/// Append certificates, without a count prefix.
pub fn encode_cert_vec(out: &mut Vec<u8>, items: &Vec<Certificate>)
    ensures
        final(out)@ == old(out)@ + ser_cert_seq(items@),
{
    let ghost s = items@;
    let ghost head = out@;
    proof {
        assert(s.skip(0) =~= s);
        assert(out@.skip(head.len() as int) =~= Seq::<u8>::empty());
        assert(ser_cert_seq(s) =~= out@.skip(head.len() as int) + ser_cert_seq(s.skip(0)));
    }
    let mut i: usize = 0;
    while i < items.len()
        invariant
            i <= items.len(),
            s == items@,
            ser_cert_seq(s) =~= out@.skip(head.len() as int) + ser_cert_seq(s.skip(i as int)),
            out@.subrange(0, head.len() as int) =~= head,
            out@.len() >= head.len(),
        decreases items.len() - i,
    {
        proof {
            assert(s.skip(i as int)[0] == s[i as int]);
            assert(s.skip(i as int).subrange(1, s.skip(i as int).len() as int) =~= s.skip(i + 1));
        }
        encode_certificate(out, &items[i]);
        i = i + 1;
        proof {
            assert(ser_cert_seq(s) =~= out@.skip(head.len() as int) + ser_cert_seq(
                s.skip(i as int),
            ));
            assert(out@.subrange(0, head.len() as int) =~= head);
        }
    }
    proof {
        assert(s.skip(s.len() as int) =~= Seq::<Certificate>::empty());
        assert(out@ =~= head + ser_cert_seq(s));
    }
}

/// Read `n` certificates at `pos`.
pub fn decode_cert_vec(buf: &Vec<u8>, pos: usize, n: u64) -> (r: Option<
    (Vec<Certificate>, usize),
>)
    ensures
        parse_cert_seq(buf@, pos as int, n as nat) is None ==> r is None,
        r is Some ==> {
            let (s, end) = parse_cert_seq(buf@, pos as int, n as nat).unwrap();
            &&& parse_cert_seq(buf@, pos as int, n as nat) is Some
            &&& r.unwrap().0@.len() == s.len()
            &&& forall|i: int|
                0 <= i < s.len() ==> cert_matches_fields((#[trigger] r.unwrap().0@[i]).v1(), s[i])
            &&& r.unwrap().1 == end
        },
    decreases n,
{
    if n == 0 {
        let v: Vec<Certificate> = Vec::new();
        return Some((v, pos));
    }
    let first = match decode_certificate(buf, pos) {
        None => {
            return None;
        },
        Some(t) => t,
    };
    let (c0, p) = first;
    match decode_cert_vec(buf, p, n - 1) {
        Some((mut rest, end)) => {
            rest.insert(0, c0);
            proof {
                let (s, _e) = parse_cert_seq(buf@, pos as int, n as nat).unwrap();
                assert forall|i: int|
                    0 <= i < s.len() implies cert_matches_fields(
                    (#[trigger] rest@[i]).v1(),
                    s[i],
                ) by {
                    if i > 0 {
                        let (s1, _e1) = parse_cert_seq(buf@, p as int, (n - 1) as nat).unwrap();
                        assert(rest@[i] == rest@.subrange(1, rest@.len() as int)[i - 1]);
                        assert(s[i] == s1[i - 1]);
                    }
                }
            }
            Some((rest, end))
        },
        None => None,
    }
}

} // verus!
