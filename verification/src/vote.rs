//! Votes: signed attestations over a header digest.
//!
//! A vote copies the header's digest, round, epoch and author (as origin),
//! adds the voter and the voter's signature over the intent-tagged digest.
//! Its own digest is the header digest verbatim, so a voter cannot produce
//! two distinct votes for one header.

use vstd::prelude::*;

use crate::codec::{
    decode_uint_le, decode_uleb, encode_uint_le, encode_uleb, le_bytes, lemma_concat_split,
    lemma_le_roundtrip, lemma_pow256_8, lemma_uleb_roundtrip, parse_le_val, parse_uleb, pow256,
    uleb,
};
use crate::committee::AuthorityIdentifier;
use crate::crypto::{intent_message_bytes, intent_message_of, HeaderDigest, SignatureBytes, VoteDigest};
use crate::header::{Header, HeaderAPI};
use crate::{Epoch, Round};

verus! {

/// A vote in its first shape.
#[derive(Clone, Copy)]
pub struct VoteV1 {
    /// Digest of the header being voted on.
    pub header_digest: HeaderDigest,
    /// Round of that header.
    pub round: Round,
    /// Epoch of that header.
    pub epoch: Epoch,
    /// Author of that header.
    pub origin: AuthorityIdentifier,
    /// Author of this vote.
    pub author: AuthorityIdentifier,
    /// The voter's signature over the intent-tagged header digest.
    pub signature: SignatureBytes,
}

impl VoteV1 {
    /// Assemble a vote on `header` by `author` carrying `signature`. The
    /// signature must have been produced over [`Vote::signing_message`] of
    /// the header; this constructor only records it.
    pub fn new_with_signature(
        header: &Header,
        author: AuthorityIdentifier,
        signature: SignatureBytes,
    ) -> (r: VoteV1)
        ensures
            r.header_digest@ == header.spec_digest(),
            r.round == header.spec_round(),
            r.epoch == header.spec_epoch(),
            r.origin == header.spec_author(),
            r.author == author,
            r.signature == signature,
    {
        VoteV1 {
            header_digest: header.digest(),
            round: header.round(),
            epoch: header.epoch(),
            origin: header.author(),
            author,
            signature,
        }
    }

    /// The digest of this vote: the header digest it endorses, verbatim.
    pub fn digest(&self) -> (r: VoteDigest)
        ensures
            r@ == self.header_digest@,
    {
        VoteDigest::new(self.header_digest.0)
    }
}

/// The common read surface of every vote shape.
pub trait VoteAPI {
    spec fn spec_header_digest(&self) -> HeaderDigest;

    spec fn spec_round(&self) -> Round;

    spec fn spec_epoch(&self) -> Epoch;

    spec fn spec_origin(&self) -> AuthorityIdentifier;

    spec fn spec_author(&self) -> AuthorityIdentifier;

    spec fn spec_signature(&self) -> SignatureBytes;

    fn header_digest(&self) -> (r: HeaderDigest)
        ensures
            r == self.spec_header_digest(),
    ;

    fn round(&self) -> (r: Round)
        ensures
            r == self.spec_round(),
    ;

    fn epoch(&self) -> (r: Epoch)
        ensures
            r == self.spec_epoch(),
    ;

    fn origin(&self) -> (r: AuthorityIdentifier)
        ensures
            r == self.spec_origin(),
    ;

    fn author(&self) -> (r: AuthorityIdentifier)
        ensures
            r == self.spec_author(),
    ;

    fn signature(&self) -> (r: &SignatureBytes)
        ensures
            *r == self.spec_signature(),
    ;
}

impl VoteAPI for VoteV1 {
    open spec fn spec_header_digest(&self) -> HeaderDigest {
        self.header_digest
    }

    open spec fn spec_round(&self) -> Round {
        self.round
    }

    open spec fn spec_epoch(&self) -> Epoch {
        self.epoch
    }

    open spec fn spec_origin(&self) -> AuthorityIdentifier {
        self.origin
    }

    open spec fn spec_author(&self) -> AuthorityIdentifier {
        self.author
    }

    open spec fn spec_signature(&self) -> SignatureBytes {
        self.signature
    }

    fn header_digest(&self) -> HeaderDigest {
        self.header_digest
    }

    fn round(&self) -> Round {
        self.round
    }

    fn epoch(&self) -> Epoch {
        self.epoch
    }

    fn origin(&self) -> AuthorityIdentifier {
        self.origin
    }

    fn author(&self) -> AuthorityIdentifier {
        self.author
    }

    fn signature(&self) -> &SignatureBytes {
        &self.signature
    }
}

/// A versioned vote.
#[derive(Clone, Copy)]
pub enum Vote {
    V1(VoteV1),
}

impl Vote {
    /// The inner shape.
    pub open spec fn v1(&self) -> VoteV1 {
        match self {
            Vote::V1(v) => *v,
        }
    }

    /// Assemble a vote on `header` by `author` carrying `signature`.
    pub fn new_with_signature(
        header: &Header,
        author: AuthorityIdentifier,
        signature: SignatureBytes,
    ) -> (r: Vote)
        ensures
            r.v1().header_digest@ == header.spec_digest(),
            r.v1().round == header.spec_round(),
            r.v1().epoch == header.spec_epoch(),
            r.v1().origin == header.spec_author(),
            r.v1().author == author,
            r.v1().signature == signature,
    {
        Vote::V1(VoteV1::new_with_signature(header, author, signature))
    }

    /// The intent-tagged message a voter signs for `header`: what the
    /// recorded signature must cover.
    pub fn signing_message(header: &Header) -> (r: Vec<u8>)
        ensures
            r@ == intent_message_of(header.spec_digest()),
    {
        let d = header.digest();
        intent_message_bytes(&d.0)
    }

    /// The digest of this vote: the header digest it endorses, verbatim.
    pub fn digest(&self) -> (r: VoteDigest)
        ensures
            r@ == self.v1().header_digest@,
    {
        match self {
            Vote::V1(v) => v.digest(),
        }
    }
}

impl VoteAPI for Vote {
    open spec fn spec_header_digest(&self) -> HeaderDigest {
        self.v1().header_digest
    }

    open spec fn spec_round(&self) -> Round {
        self.v1().round
    }

    open spec fn spec_epoch(&self) -> Epoch {
        self.v1().epoch
    }

    open spec fn spec_origin(&self) -> AuthorityIdentifier {
        self.v1().origin
    }

    open spec fn spec_author(&self) -> AuthorityIdentifier {
        self.v1().author
    }

    open spec fn spec_signature(&self) -> SignatureBytes {
        self.v1().signature
    }

    fn header_digest(&self) -> HeaderDigest {
        match self {
            Vote::V1(v) => v.header_digest,
        }
    }

    fn round(&self) -> Round {
        match self {
            Vote::V1(v) => v.round,
        }
    }

    fn epoch(&self) -> Epoch {
        match self {
            Vote::V1(v) => v.epoch,
        }
    }

    fn origin(&self) -> AuthorityIdentifier {
        match self {
            Vote::V1(v) => v.origin,
        }
    }

    fn author(&self) -> AuthorityIdentifier {
        match self {
            Vote::V1(v) => v.author,
        }
    }

    fn signature(&self) -> &SignatureBytes {
        match self {
            Vote::V1(v) => &v.signature,
        }
    }
}

/// The canonical serialization of a vote body: header digest, round, epoch,
/// origin, author, signature.
pub open spec fn ser_vote_v1(v: VoteV1) -> Seq<u8> {
    v.header_digest@ + le_bytes(v.round as nat, 8) + le_bytes(v.epoch as nat, 8) + le_bytes(
        v.origin.0 as nat,
        2,
    ) + le_bytes(v.author.0 as nat, 2) + v.signature@
}

/// The canonical serialization of a versioned vote: variant tag, then body.
pub open spec fn ser_vote(v: Vote) -> Seq<u8> {
    uleb(0) + ser_vote_v1(v.v1())
}

/// Append the serialization of a vote.
pub fn encode_vote(out: &mut Vec<u8>, v: &Vote)
    ensures
        final(out)@ == old(out)@ + ser_vote(*v),
{
    encode_uleb(out, 0);
    match v {
        Vote::V1(data) => {
            proof {
                lemma_pow256_8();
            }
            crate::codec::append_digest(out, &data.header_digest.0);
            encode_uint_le(out, data.round, 8);
            encode_uint_le(out, data.epoch, 8);
            encode_uint_le(out, data.origin.0 as u64, 2);
            encode_uint_le(out, data.author.0 as u64, 2);
            crate::codec::append_fixed::<48>(out, &data.signature.0);
            proof {
                assert(out@ =~= old(out)@ + ser_vote(*v));
            }
        },
    }
}

/// The fields of a parsed vote: header digest bytes, round, epoch, origin,
/// author, signature bytes.
pub type VoteFields = (Seq<u8>, u64, u64, u16, u16, Seq<u8>);

/// The fields a vote serializes to.
pub open spec fn vote_fields(v: VoteV1) -> VoteFields {
    (v.header_digest@, v.round, v.epoch, v.origin.0, v.author.0, v.signature@)
}

/// The vote starting at `pos`, with the position just after it.
pub open spec fn parse_vote(b: Seq<u8>, pos: int) -> Option<(VoteFields, int)> {
    match parse_uleb(b, pos) {
        Some((tag, p)) => {
            if tag != 0 {
                None
            } else if p + 100 <= b.len() {
                Some(
                    (
                        (
                            b.subrange(p, p + 32),
                            parse_le_val(b, p + 32, 8) as u64,
                            parse_le_val(b, p + 40, 8) as u64,
                            parse_le_val(b, p + 48, 2) as u16,
                            parse_le_val(b, p + 50, 2) as u16,
                            b.subrange(p + 52, p + 100),
                        ),
                        p + 100,
                    ),
                )
            } else {
                None
            }
        },
        None => None,
    }
}

/// Read the vote at `pos`; `None` when the bytes are not a vote.
pub fn decode_vote(buf: &Vec<u8>, pos: usize) -> (r: Option<(Vote, usize)>)
    ensures
        r is Some ==> {
            &&& parse_vote(buf@, pos as int) is Some
            &&& vote_fields(r.unwrap().0.v1()) == parse_vote(buf@, pos as int).unwrap().0
            &&& r.unwrap().1 == parse_vote(buf@, pos as int).unwrap().1
            &&& pos < r.unwrap().1 <= buf.len()
        },
        r is None ==> parse_vote(buf@, pos as int) is None,
{
    let tagr = decode_uleb(buf, pos);
    match tagr {
        None => {
            proof {
                assert(parse_vote(buf@, pos as int) is None);
            }
            None
        },
        Some((tag, p)) => {
            if tag != 0 {
                return None;
            }
            if p > buf.len() || 100 > buf.len() - p {
                return None;
            }
            let hd = crate::crypto::take_array::<32>(buf, p);
            proof {
                lemma_pow256_8();
                lemma_parse_le_fits(buf@, p + 32, 8);
                lemma_parse_le_fits(buf@, p + 40, 8);
                lemma_parse_le_fits(buf@, p + 48, 2);
                lemma_parse_le_fits(buf@, p + 50, 2);
            }
            let round = decode_uint_le(buf, p + 32, 8).unwrap().0;
            let epoch = decode_uint_le(buf, p + 40, 8).unwrap().0;
            let origin = decode_uint_le(buf, p + 48, 2).unwrap().0 as u16;
            let author = decode_uint_le(buf, p + 50, 2).unwrap().0 as u16;
            let sig = crate::crypto::take_array::<48>(buf, p + 52);
            let v = VoteV1 {
                header_digest: HeaderDigest::new(hd),
                round,
                epoch,
                origin: AuthorityIdentifier(origin),
                author: AuthorityIdentifier(author),
                signature: SignatureBytes(sig),
            };
            Some((Vote::V1(v), p + 100))
        },
    }
}

/// Values read through a fixed-width field fit their integer type.
pub proof fn lemma_parse_le_fits(b: Seq<u8>, pos: int, k: nat)
    requires
        0 <= pos,
        pos + k <= b.len(),
        k <= 8,
    ensures
        parse_le_val(b, pos, k) < pow256(k),
        parse_le_val(b, pos, k) <= u64::MAX,
        k == 2 ==> parse_le_val(b, pos, k) <= u16::MAX,
        k == 4 ==> parse_le_val(b, pos, k) <= u32::MAX,
{
    crate::codec::lemma_parse_le_bound(b, pos, k);
    lemma_pow256_8();
    if k == 2 {
        assert(pow256(2) == 0x1_0000);
    }
    if k == 4 {
        assert(pow256(4) == 0x1_0000_0000);
    }
    crate::codec::lemma_pow256_mono(k, 8);
}

/// Parsing a serialized vote recovers the vote's fields.
pub proof fn lemma_vote_roundtrip(b: Seq<u8>, pos: int, v: Vote)
    requires
        0 <= pos,
        pos + ser_vote(v).len() <= b.len(),
        b.subrange(pos, pos + ser_vote(v).len()) == ser_vote(v),
    ensures
        parse_vote(b, pos) == Some((vote_fields(v.v1()), pos + ser_vote(v).len())),
{
    let d = v.v1();
    let tag = uleb(0);
    let body = ser_vote_v1(d);
    lemma_concat_split(b, pos, tag, body);
    lemma_uleb_roundtrip(b, pos, 0);
    let p = pos + 1;
    lemma_pow256_8();
    crate::codec::lemma_le_bytes_len(d.round as nat, 8);
    crate::codec::lemma_le_bytes_len(d.epoch as nat, 8);
    crate::codec::lemma_le_bytes_len(d.origin.0 as nat, 2);
    crate::codec::lemma_le_bytes_len(d.author.0 as nat, 2);
    assert(d.header_digest@.len() == 32);
    assert(d.signature@.len() == 48);
    assert(ser_vote(v).len() == 1 + body.len());
    assert(body.len() == 100);
    let f1 = d.header_digest@;
    let f2 = le_bytes(d.round as nat, 8);
    let f3 = le_bytes(d.epoch as nat, 8);
    let f4 = le_bytes(d.origin.0 as nat, 2);
    let f5 = le_bytes(d.author.0 as nat, 2);
    let f6 = d.signature@;
    assert(body =~= f1 + (f2 + f3 + f4 + f5 + f6));
    lemma_concat_split(b, p, f1, f2 + f3 + f4 + f5 + f6);
    assert(f2 + f3 + f4 + f5 + f6 =~= f2 + (f3 + f4 + f5 + f6));
    lemma_concat_split(b, p + 32, f2, f3 + f4 + f5 + f6);
    assert(f3 + f4 + f5 + f6 =~= f3 + (f4 + f5 + f6));
    lemma_concat_split(b, p + 40, f3, f4 + f5 + f6);
    assert(f4 + f5 + f6 =~= f4 + (f5 + f6));
    lemma_concat_split(b, p + 48, f4, f5 + f6);
    lemma_concat_split(b, p + 50, f5, f6);
    assert(b.subrange(p, p + 32) == f1);
    lemma_le_roundtrip(b, p + 32, d.round as nat, 8);
    lemma_le_roundtrip(b, p + 40, d.epoch as nat, 8);
    assert(pow256(2) == 0x1_0000);
    lemma_le_roundtrip(b, p + 48, d.origin.0 as nat, 2);
    lemma_le_roundtrip(b, p + 50, d.author.0 as nat, 2);
    assert(b.subrange(p + 52, p + 100) == f6);
}


/// The per-peer record of the latest vote sent: enough to enforce at most
/// one vote per round per peer, across restarts.
#[derive(Clone, Copy, Debug, PartialEq, Eq)]
pub struct VoteInfoV1 {
    /// The latest epoch for which a vote was sent to the peer.
    pub epoch: Epoch,
    /// The latest round for which a vote was sent to the peer.
    pub round: Round,
    /// The digest of that vote, to detect equivocation.
    pub vote_digest: VoteDigest,
}

/// A versioned vote record.
#[derive(Clone, Copy, Debug, PartialEq, Eq)]
pub enum VoteInfo {
    V1(VoteInfoV1),
}

/// The common read surface of every vote-record shape.
pub trait VoteInfoAPI {
    spec fn spec_epoch(&self) -> Epoch;

    spec fn spec_round(&self) -> Round;

    spec fn spec_vote_digest(&self) -> VoteDigest;

    fn epoch(&self) -> (r: Epoch)
        ensures
            r == self.spec_epoch(),
    ;

    fn round(&self) -> (r: Round)
        ensures
            r == self.spec_round(),
    ;

    fn vote_digest(&self) -> (r: VoteDigest)
        ensures
            r == self.spec_vote_digest(),
    ;
}

impl VoteInfoAPI for VoteInfoV1 {
    open spec fn spec_epoch(&self) -> Epoch {
        self.epoch
    }

    open spec fn spec_round(&self) -> Round {
        self.round
    }

    open spec fn spec_vote_digest(&self) -> VoteDigest {
        self.vote_digest
    }

    fn epoch(&self) -> Epoch {
        self.epoch
    }

    fn round(&self) -> Round {
        self.round
    }

    fn vote_digest(&self) -> VoteDigest {
        self.vote_digest
    }
}

impl VoteInfoAPI for VoteInfo {
    open spec fn spec_epoch(&self) -> Epoch {
        match self {
            VoteInfo::V1(v) => v.epoch,
        }
    }

    open spec fn spec_round(&self) -> Round {
        match self {
            VoteInfo::V1(v) => v.round,
        }
    }

    open spec fn spec_vote_digest(&self) -> VoteDigest {
        match self {
            VoteInfo::V1(v) => v.vote_digest,
        }
    }

    fn epoch(&self) -> Epoch {
        match self {
            VoteInfo::V1(v) => v.epoch,
        }
    }

    fn round(&self) -> Round {
        match self {
            VoteInfo::V1(v) => v.round,
        }
    }

    fn vote_digest(&self) -> VoteDigest {
        match self {
            VoteInfo::V1(v) => v.vote_digest,
        }
    }
}

impl VoteInfoV1 {
    /// The record of a vote: its epoch, round, and digest.
    pub fn from_vote(vote: &VoteV1) -> (r: VoteInfoV1)
        ensures
            r.epoch == vote.epoch,
            r.round == vote.round,
            r.vote_digest@ == vote.header_digest@,
    {
        VoteInfoV1 { epoch: vote.epoch, round: vote.round, vote_digest: vote.digest() }
    }
}

impl VoteInfo {
    /// The record of a vote: its epoch, round, and digest.
    pub fn from_vote(vote: &Vote) -> (r: VoteInfo)
        ensures
            r.spec_epoch() == vote.v1().epoch,
            r.spec_round() == vote.v1().round,
            r.spec_vote_digest()@ == vote.v1().header_digest@,
    {
        match vote {
            Vote::V1(v) => VoteInfo::V1(VoteInfoV1::from_vote(v)),
        }
    }
}

} // verus!
