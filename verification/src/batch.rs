//! Batches: versioned containers of transactions with advisory metadata.
//!
//! Metadata is never part of a signed image and must not be used for any
//! safety- or liveness-critical decision. The digest of a batch commits only
//! to its transaction payload, so two version shapes with equal transaction
//! lists hash alike, by design.

use vstd::prelude::*;

use crate::committee::ProtocolConfig;
use crate::crypto::{blake2b256, blake2b_of, BatchDigest};
use crate::codec::{
    append_raw, decode_bytes_vec, decode_uint_le, decode_uleb, encode_bytes, encode_uint_le,
    encode_uleb, le_bytes, lemma_bytes_seq_roundtrip, lemma_concat_split, lemma_le_bytes_len,
    lemma_le_roundtrip, lemma_pow256_8, lemma_uleb_roundtrip, parse_bytes_seq, parse_le_val,
    parse_uleb, pow256, ser_bytes_seq, uleb,
};
use crate::time::now;
use crate::{TimestampMs, Transaction};

verus! {

/// Advisory metadata of an entity: the creation time claimed by its author.
/// Not signed, and therefore not trustworthy.
#[derive(Clone, Copy, Debug, PartialEq, Eq, Structural)]
pub struct Metadata {
    pub created_at: TimestampMs,
}

impl Metadata {
    /// Metadata stamped with the current wall clock.
    pub fn created_now() -> Metadata {
        Metadata { created_at: now() }
    }
}

/// Advisory metadata in its versioned shape: the author's creation time and
/// the receiver's arrival time. The latter is set by the receiving node and
/// is never covered by a signature.
#[derive(Clone, Copy, Debug, PartialEq, Eq)]
pub struct MetadataV1 {
    pub created_at: TimestampMs,
    pub received_at: Option<TimestampMs>,
}

/// The common surface of every versioned metadata shape.
pub trait MetadataAPI {
    spec fn spec_created_at(&self) -> TimestampMs;

    spec fn spec_received_at(&self) -> Option<TimestampMs>;

    fn created_at(&self) -> (r: TimestampMs)
        ensures
            r == self.spec_created_at(),
    ;

    fn set_created_at(&mut self, ts: TimestampMs)
        ensures
            final(self).spec_created_at() == ts,
            final(self).spec_received_at() == old(self).spec_received_at(),
    ;

    fn received_at(&self) -> (r: Option<TimestampMs>)
        ensures
            r == self.spec_received_at(),
    ;

    fn set_received_at(&mut self, ts: TimestampMs)
        ensures
            final(self).spec_received_at() == Some(ts),
            final(self).spec_created_at() == old(self).spec_created_at(),
    ;
}

impl MetadataAPI for MetadataV1 {
    open spec fn spec_created_at(&self) -> TimestampMs {
        self.created_at
    }

    open spec fn spec_received_at(&self) -> Option<TimestampMs> {
        self.received_at
    }

    fn created_at(&self) -> TimestampMs {
        self.created_at
    }

    fn set_created_at(&mut self, ts: TimestampMs) {
        self.created_at = ts;
    }

    fn received_at(&self) -> Option<TimestampMs> {
        self.received_at
    }

    fn set_received_at(&mut self, ts: TimestampMs) {
        self.received_at = Some(ts);
    }
}

/// Versioned metadata: an enum of the shapes above.
#[derive(Clone, Copy, Debug, PartialEq, Eq)]
pub enum VersionedMetadata {
    V1(MetadataV1),
}

impl VersionedMetadata {
    /// Fresh metadata stamped with the current wall clock; the arrival time
    /// starts unset.
    pub fn new(_protocol_config: &ProtocolConfig) -> (r: VersionedMetadata)
        ensures
            r.spec_received_at() is None,
    {
        VersionedMetadata::V1(MetadataV1 { created_at: now(), received_at: None })
    }
}

impl MetadataAPI for VersionedMetadata {
    open spec fn spec_created_at(&self) -> TimestampMs {
        match self {
            VersionedMetadata::V1(m) => m.created_at,
        }
    }

    open spec fn spec_received_at(&self) -> Option<TimestampMs> {
        match self {
            VersionedMetadata::V1(m) => m.received_at,
        }
    }

    fn created_at(&self) -> TimestampMs {
        match self {
            VersionedMetadata::V1(m) => m.created_at,
        }
    }

    fn set_created_at(&mut self, ts: TimestampMs) {
        match self {
            VersionedMetadata::V1(m) => m.created_at = ts,
        }
    }

    fn received_at(&self) -> Option<TimestampMs> {
        match self {
            VersionedMetadata::V1(m) => m.received_at,
        }
    }

    fn set_received_at(&mut self, ts: TimestampMs) {
        match self {
            VersionedMetadata::V1(m) => m.received_at = Some(ts),
        }
    }
}

/// Sum of the byte lengths of the transactions.
pub open spec fn size_sum(txs: Seq<Transaction>) -> int
    decreases txs.len(),
{
    if txs.len() == 0 {
        0
    } else {
        size_sum(txs.drop_last()) + txs.last()@.len()
    }
}

/// The concatenation of the transactions in order: the image the batch
/// digest commits to.
pub open spec fn concat_all(txs: Seq<Transaction>) -> Seq<u8>
    decreases txs.len(),
{
    if txs.len() == 0 {
        Seq::empty()
    } else {
        concat_all(txs.drop_last()) + txs.last()@
    }
}

/// The digest of a batch with the given transactions.
pub open spec fn spec_batch_digest(txs: Seq<Transaction>) -> Seq<u8> {
    blake2b_of(concat_all(txs))
}

/// Concatenate all transactions into one buffer.
fn concat_transactions(txs: &Vec<Transaction>) -> (r: Vec<u8>)
    ensures
        r@ == concat_all(txs@),
{
    let mut buf: Vec<u8> = Vec::new();
    let mut i: usize = 0;
    while i < txs.len()
        invariant
            i <= txs.len(),
            buf@ =~= concat_all(txs@.take(i as int)),
        decreases txs.len() - i,
    {
        append_raw(&mut buf, &txs[i]);
        i = i + 1;
        proof {
            assert(txs@.take(i as int).drop_last() =~= txs@.take(i - 1));
            assert(txs@.take(i as int).last() == txs@[i - 1]);
        }
    }
    proof {
        assert(txs@.take(txs@.len() as int) =~= txs@);
    }
    buf
}

/// Sum the byte lengths of the transactions.
fn transactions_size(txs: &Vec<Transaction>) -> (r: usize)
    requires
        size_sum(txs@) <= usize::MAX,
    ensures
        r == size_sum(txs@),
{
    let mut total: usize = 0;
    let mut i: usize = 0;
    while i < txs.len()
        invariant
            i <= txs.len(),
            size_sum(txs@) <= usize::MAX,
            total == size_sum(txs@.take(i as int)),
        decreases txs.len() - i,
    {
        proof {
            assert(txs@.take(i + 1).drop_last() =~= txs@.take(i as int));
            assert(txs@.take(i + 1).last() == txs@[i as int]);
            lemma_size_sum_le(txs@, i + 1);
            lemma_size_sum_nonneg(txs@.take(i + 1));
        }
        total = total + txs[i].len();
        i = i + 1;
    }
    proof {
        assert(txs@.take(txs@.len() as int) =~= txs@);
    }
    total
}

pub proof fn lemma_size_sum_nonneg(txs: Seq<Transaction>)
    ensures
        size_sum(txs) >= 0,
    decreases txs.len(),
{
    if txs.len() > 0 {
        lemma_size_sum_nonneg(txs.drop_last());
    }
}

/// A prefix never outweighs the whole.
pub proof fn lemma_size_sum_le(txs: Seq<Transaction>, k: int)
    requires
        0 <= k <= txs.len(),
    ensures
        size_sum(txs.take(k)) <= size_sum(txs),
    decreases txs.len() - k,
{
    if k == txs.len() {
        assert(txs.take(k) =~= txs);
    } else {
        lemma_size_sum_le(txs, k + 1);
        assert(txs.take(k + 1).drop_last() =~= txs.take(k));
        assert(txs.take(k + 1).last()@.len() >= 0);
    }
}

/// The common surface of every batch version.
pub trait BatchAPI {
    spec fn spec_transactions(&self) -> Seq<Transaction>;

    /// Whether this shape carries the plain metadata field.
    spec fn has_plain_metadata(&self) -> bool;

    /// Whether this shape carries the versioned metadata field.
    spec fn has_versioned_metadata(&self) -> bool;

    spec fn spec_metadata(&self) -> Metadata;

    spec fn spec_versioned_metadata(&self) -> VersionedMetadata;

    fn transactions(&self) -> (r: &Vec<Transaction>)
        ensures
            r@ == self.spec_transactions(),
    ;

    /// Only the plain shape has this field; calling it on another shape is a
    /// programmer error and is ruled out.
    fn metadata(&self) -> (r: &Metadata)
        requires
            self.has_plain_metadata(),
        ensures
            *r == self.spec_metadata(),
    ;

    /// Only the versioned shape has this field; calling it on another shape
    /// is a programmer error and is ruled out.
    fn versioned_metadata(&self) -> (r: &VersionedMetadata)
        requires
            self.has_versioned_metadata(),
        ensures
            *r == self.spec_versioned_metadata(),
    ;
}

/// A batch in its first shape: transactions plus plain metadata.
#[derive(Clone, Debug, PartialEq, Eq)]
pub struct BatchV1 {
    pub transactions: Vec<Transaction>,
    pub metadata: Metadata,
}

impl BatchV1 {
    pub fn new(transactions: Vec<Transaction>) -> (r: BatchV1)
        ensures
            r.transactions@ == transactions@,
    {
        BatchV1 { transactions, metadata: Metadata::created_now() }
    }

    /// Sum of the transaction byte lengths.
    pub fn size(&self) -> (r: usize)
        requires
            size_sum(self.transactions@) <= usize::MAX,
        ensures
            r == size_sum(self.transactions@),
    {
        transactions_size(&self.transactions)
    }

    /// The content digest: a hash of the concatenated transactions.
    pub fn digest(&self) -> (r: BatchDigest)
        ensures
            r@ == spec_batch_digest(self.transactions@),
    {
        let buf = concat_transactions(&self.transactions);
        BatchDigest::new(blake2b256(buf.as_slice()))
    }
}

impl BatchAPI for BatchV1 {
    open spec fn spec_transactions(&self) -> Seq<Transaction> {
        self.transactions@
    }

    open spec fn has_plain_metadata(&self) -> bool {
        true
    }

    open spec fn has_versioned_metadata(&self) -> bool {
        false
    }

    open spec fn spec_metadata(&self) -> Metadata {
        self.metadata
    }

    open spec fn spec_versioned_metadata(&self) -> VersionedMetadata {
        VersionedMetadata::V1(MetadataV1 { created_at: 0, received_at: None })
    }

    fn transactions(&self) -> &Vec<Transaction> {
        &self.transactions
    }

    fn metadata(&self) -> &Metadata {
        &self.metadata
    }

    fn versioned_metadata(&self) -> &VersionedMetadata {
        vstd::pervasive::unreached()
    }
}

/// A batch in its second shape: transactions plus versioned metadata.
#[derive(Clone, Debug, PartialEq, Eq)]
pub struct BatchV2 {
    pub transactions: Vec<Transaction>,
    pub versioned_metadata: VersionedMetadata,
}

impl BatchV2 {
    pub fn new(transactions: Vec<Transaction>, protocol_config: &ProtocolConfig) -> (r: BatchV2)
        ensures
            r.transactions@ == transactions@,
    {
        BatchV2 { transactions, versioned_metadata: VersionedMetadata::new(protocol_config) }
    }

    /// Sum of the transaction byte lengths.
    pub fn size(&self) -> (r: usize)
        requires
            size_sum(self.transactions@) <= usize::MAX,
        ensures
            r == size_sum(self.transactions@),
    {
        transactions_size(&self.transactions)
    }

    /// The content digest: a hash of the concatenated transactions. Equal
    /// transaction lists give the same digest in both shapes.
    pub fn digest(&self) -> (r: BatchDigest)
        ensures
            r@ == spec_batch_digest(self.transactions@),
    {
        let buf = concat_transactions(&self.transactions);
        BatchDigest::new(blake2b256(buf.as_slice()))
    }
}

impl BatchAPI for BatchV2 {
    open spec fn spec_transactions(&self) -> Seq<Transaction> {
        self.transactions@
    }

    open spec fn has_plain_metadata(&self) -> bool {
        false
    }

    open spec fn has_versioned_metadata(&self) -> bool {
        true
    }

    open spec fn spec_metadata(&self) -> Metadata {
        Metadata { created_at: 0 }
    }

    open spec fn spec_versioned_metadata(&self) -> VersionedMetadata {
        self.versioned_metadata
    }

    fn transactions(&self) -> &Vec<Transaction> {
        &self.transactions
    }

    fn metadata(&self) -> &Metadata {
        vstd::pervasive::unreached()
    }

    fn versioned_metadata(&self) -> &VersionedMetadata {
        &self.versioned_metadata
    }
}

/// A versioned batch.
#[derive(Clone, Debug, PartialEq, Eq)]
pub enum Batch {
    V1(BatchV1),
    V2(BatchV2),
}

impl Batch {
    /// Build a batch in the shape selected by the protocol configuration.
    pub fn new(transactions: Vec<Transaction>, protocol_config: &ProtocolConfig) -> (r: Batch)
        ensures
            r.spec_transactions() == transactions@,
            protocol_config.versioned_metadata ==> r is V2,
            !protocol_config.versioned_metadata ==> r is V1,
    {
        if protocol_config.narwhal_versioned_metadata() {
            Batch::V2(BatchV2::new(transactions, protocol_config))
        } else {
            Batch::V1(BatchV1::new(transactions))
        }
    }

    /// Sum of the transaction byte lengths.
    pub fn size(&self) -> (r: usize)
        requires
            size_sum(self.spec_transactions()) <= usize::MAX,
        ensures
            r == size_sum(self.spec_transactions()),
    {
        match self {
            Batch::V1(data) => data.size(),
            Batch::V2(data) => data.size(),
        }
    }

    /// The content digest: a hash of the concatenated transactions,
    /// whatever the shape.
    pub fn digest(&self) -> (r: BatchDigest)
        ensures
            r@ == spec_batch_digest(self.spec_transactions()),
    {
        match self {
            Batch::V1(data) => data.digest(),
            Batch::V2(data) => data.digest(),
        }
    }
}

impl BatchAPI for Batch {
    open spec fn spec_transactions(&self) -> Seq<Transaction> {
        match self {
            Batch::V1(data) => data.transactions@,
            Batch::V2(data) => data.transactions@,
        }
    }

    open spec fn has_plain_metadata(&self) -> bool {
        self is V1
    }

    open spec fn has_versioned_metadata(&self) -> bool {
        self is V2
    }

    open spec fn spec_metadata(&self) -> Metadata {
        match self {
            Batch::V1(data) => data.metadata,
            Batch::V2(_) => Metadata { created_at: 0 },
        }
    }

    open spec fn spec_versioned_metadata(&self) -> VersionedMetadata {
        match self {
            Batch::V1(_) => VersionedMetadata::V1(
                MetadataV1 { created_at: 0, received_at: None },
            ),
            Batch::V2(data) => data.versioned_metadata,
        }
    }

    fn transactions(&self) -> &Vec<Transaction> {
        match self {
            Batch::V1(data) => &data.transactions,
            Batch::V2(data) => &data.transactions,
        }
    }

    fn metadata(&self) -> &Metadata {
        match self {
            Batch::V1(data) => &data.metadata,
            Batch::V2(_) => vstd::pervasive::unreached(),
        }
    }

    fn versioned_metadata(&self) -> &VersionedMetadata {
        match self {
            Batch::V1(_) => vstd::pervasive::unreached(),
            Batch::V2(data) => &data.versioned_metadata,
        }
    }
}


/// Plain metadata on the wire: the creation time.
pub open spec fn ser_metadata(m: Metadata) -> Seq<u8> {
    le_bytes(m.created_at as nat, 8)
}

/// An optional timestamp on the wire: a presence byte, then the value.
pub open spec fn ser_opt_ts(o: Option<TimestampMs>) -> Seq<u8> {
    match o {
        None => seq![0u8],
        Some(t) => seq![1u8] + le_bytes(t as nat, 8),
    }
}

/// Versioned metadata on the wire: variant tag, creation time, optional
/// arrival time.
pub open spec fn ser_versioned_metadata(m: VersionedMetadata) -> Seq<u8> {
    uleb(0) + le_bytes(m.spec_created_at() as nat, 8) + ser_opt_ts(m.spec_received_at())
}

/// The fields of a parsed batch: the version tag, the transactions, the
/// creation time, and (for the versioned shape) the arrival time.
pub type BatchFields = (u64, Seq<Seq<u8>>, u64, Option<u64>);

/// The fields a batch serializes to.
pub open spec fn batch_fields(b: &Batch) -> BatchFields {
    match b {
        Batch::V1(data) => (
            0,
            data.transactions@.map_values(|t: Transaction| t@),
            data.metadata.created_at,
            None,
        ),
        Batch::V2(data) => (
            1,
            data.transactions@.map_values(|t: Transaction| t@),
            data.versioned_metadata.spec_created_at(),
            data.versioned_metadata.spec_received_at(),
        ),
    }
}

/// A versioned batch on the wire: variant tag, counted transactions, then
/// the metadata of the shape.
pub open spec fn ser_batch(b: &Batch) -> Seq<u8> {
    match b {
        Batch::V1(data) => uleb(0) + uleb(data.transactions@.len()) + ser_bytes_seq(
            data.transactions@.map_values(|t: Transaction| t@),
        ) + ser_metadata(data.metadata),
        Batch::V2(data) => uleb(1) + uleb(data.transactions@.len()) + ser_bytes_seq(
            data.transactions@.map_values(|t: Transaction| t@),
        ) + ser_versioned_metadata(data.versioned_metadata),
    }
}

/// The optional timestamp at `pos`.
pub open spec fn parse_opt_ts(b: Seq<u8>, pos: int) -> Option<(Option<u64>, int)> {
    if pos < 0 || pos >= b.len() {
        None
    } else if b[pos] == 0 {
        Some((None, pos + 1))
    } else if b[pos] == 1 {
        if pos + 9 > b.len() {
            None
        } else {
            Some((Some(parse_le_val(b, pos + 1, 8) as u64), pos + 9))
        }
    } else {
        None
    }
}

/// The batch at `pos`; counts that cannot fit the buffer are rejected.
pub open spec fn parse_batch(b: Seq<u8>, pos: int) -> Option<(BatchFields, int)> {
    match parse_uleb(b, pos) {
        Some((tag, p)) => {
            if tag != 0 && tag != 1 {
                None
            } else {
                match parse_uleb(b, p) {
                    Some((n, p1)) => if n > b.len() {
                        None
                    } else {
                        match parse_bytes_seq(b, p1, n) {
                            Some((txs, p2)) => if tag == 0 {
                                if p2 + 8 > b.len() {
                                    None
                                } else {
                                    Some(
                                        (
                                            (0, txs, parse_le_val(b, p2, 8) as u64, None),
                                            p2 + 8,
                                        ),
                                    )
                                }
                            } else {
                                if p2 + 9 > b.len() || b[p2] != 0 {
                                    None
                                } else {
                                    match parse_opt_ts(b, p2 + 9) {
                                        Some((received, end)) => Some(
                                            (
                                                (
                                                    1,
                                                    txs,
                                                    parse_le_val(b, p2 + 1, 8) as u64,
                                                    received,
                                                ),
                                                end,
                                            ),
                                        ),
                                        None => None,
                                    }
                                }
                            },
                            None => None,
                        }
                    },
                    None => None,
                }
            }
        },
        None => None,
    }
}

/// Append the serialization of a batch.
pub fn encode_batch(out: &mut Vec<u8>, b: &Batch)
    ensures
        final(out)@ == old(out)@ + ser_batch(b),
{
    proof {
        lemma_pow256_8();
    }
    match b {
        Batch::V1(data) => {
            encode_uleb(out, 0);
            encode_uleb(out, data.transactions.len() as u64);
            crate::codec::encode_bytes_vec(out, &data.transactions);
            encode_uint_le(out, data.metadata.created_at, 8);
        },
        Batch::V2(data) => {
            encode_uleb(out, 1);
            encode_uleb(out, data.transactions.len() as u64);
            crate::codec::encode_bytes_vec(out, &data.transactions);
            encode_uleb(out, 0);
            match &data.versioned_metadata {
                VersionedMetadata::V1(m) => {
                    encode_uint_le(out, m.created_at, 8);
                    match m.received_at {
                        None => {
                            out.push(0u8);
                        },
                        Some(t) => {
                            out.push(1u8);
                            encode_uint_le(out, t, 8);
                        },
                    }
                },
            }
        },
    }
    proof {
        assert(out@ =~= old(out)@ + ser_batch(b));
    }
}

/// Read the batch at `pos`.
pub fn decode_batch(buf: &Vec<u8>, pos: usize) -> (r: Option<(Batch, usize)>)
    ensures
        r is Some <==> parse_batch(buf@, pos as int) is Some,
        r is Some ==> {
            let (f, end) = parse_batch(buf@, pos as int).unwrap();
            &&& batch_fields(&r.unwrap().0) == f
            &&& r.unwrap().1 == end
        },
{
    let blen = buf.len();
    let tagr = decode_uleb(buf, pos);
    let (tag, p) = match tagr {
        None => {
            proof {
                assert(buf@.len() == blen);
            }
            return None;
        },
        Some(t) => t,
    };
    if tag != 0 && tag != 1 {
        return None;
    }
    let cnt = match decode_uleb(buf, p) {
        None => {
            proof {
                assert(buf@.len() == blen);
            }
            return None;
        },
        Some(t) => t,
    };
    let (n, p1) = cnt;
    if n > blen as u64 {
        return None;
    }
    let txsr = decode_bytes_vec(buf, p1, n);
    let (transactions, p2) = match txsr {
        None => {
            return None;
        },
        Some(t) => t,
    };
    if tag == 0 {
        if p2 > blen || 8 > blen - p2 {
            return None;
        }
        proof {
            lemma_pow256_8();
            crate::vote::lemma_parse_le_fits(buf@, p2 as int, 8);
        }
        let created_at = decode_uint_le(buf, p2, 8).unwrap().0;
        let batch = Batch::V1(BatchV1 { transactions, metadata: Metadata { created_at } });
        proof {
            let (f, _e) = parse_batch(buf@, pos as int).unwrap();
            assert(batch_fields(&batch).1 =~= f.1);
        }
        Some((batch, p2 + 8))
    } else {
        if p2 > blen || 9 > blen - p2 {
            return None;
        }
        if buf[p2] != 0 {
            return None;
        }
        proof {
            lemma_pow256_8();
            crate::vote::lemma_parse_le_fits(buf@, p2 + 1, 8);
        }
        let created_at = decode_uint_le(buf, p2 + 1, 8).unwrap().0;
        let q = p2 + 9;
        if q >= blen {
            return None;
        }
        let marker = buf[q];
        if marker == 0 {
            let batch = Batch::V2(
                BatchV2 {
                    transactions,
                    versioned_metadata: VersionedMetadata::V1(
                        MetadataV1 { created_at, received_at: None },
                    ),
                },
            );
            proof {
                let (f, _e) = parse_batch(buf@, pos as int).unwrap();
                assert(batch_fields(&batch).1 =~= f.1);
            }
            Some((batch, q + 1))
        } else if marker == 1 {
            if q + 1 > blen || 8 > blen - (q + 1) {
                return None;
            }
            proof {
                crate::vote::lemma_parse_le_fits(buf@, q + 1, 8);
            }
            let received = decode_uint_le(buf, q + 1, 8).unwrap().0;
            let batch = Batch::V2(
                BatchV2 {
                    transactions,
                    versioned_metadata: VersionedMetadata::V1(
                        MetadataV1 { created_at, received_at: Some(received) },
                    ),
                },
            );
            proof {
                let (f, _e) = parse_batch(buf@, pos as int).unwrap();
                assert(batch_fields(&batch).1 =~= f.1);
            }
            Some((batch, q + 9))
        } else {
            None
        }
    }
}

/// Parsing a serialized batch recovers its fields.
pub proof fn lemma_batch_roundtrip(b: Seq<u8>, pos: int, batch: &Batch)
    requires
        0 <= pos,
        pos + ser_batch(batch).len() <= b.len(),
        b.subrange(pos, pos + ser_batch(batch).len()) == ser_batch(batch),
    ensures
        parse_batch(b, pos) == Some((batch_fields(batch), pos + ser_batch(batch).len())),
{
    lemma_pow256_8();
    match batch {
        Batch::V1(data) => {
            let txs = data.transactions@.map_values(|t: Transaction| t@);
            let f1 = uleb(0);
            let f2 = uleb(txs.len());
            let f3 = ser_bytes_seq(txs);
            let f4 = le_bytes(data.metadata.created_at as nat, 8);
            lemma_le_bytes_len(data.metadata.created_at as nat, 8);
            lemma_ser_bytes_seq_min(txs);
            assert(uleb(txs.len()).len() >= 1);
            assert(txs.len() <= b.len());
            assert(ser_batch(batch) =~= f1 + (f2 + f3 + f4));
            lemma_concat_split(b, pos, f1, f2 + f3 + f4);
            lemma_uleb_roundtrip(b, pos, 0);
            let p = pos + 1;
            assert(f2 + f3 + f4 =~= f2 + (f3 + f4));
            lemma_concat_split(b, p, f2, f3 + f4);
            lemma_uleb_roundtrip(b, p, txs.len());
            let p1 = p + f2.len();
            lemma_concat_split(b, p1, f3, f4);
            lemma_bytes_seq_roundtrip(b, p1, txs);
            let p2 = p1 + f3.len();
            lemma_le_roundtrip(b, p2, data.metadata.created_at as nat, 8);
            assert(parse_uleb(b, pos) == Some((0nat, pos + 1)));
            assert(parse_uleb(b, p) == Some((txs.len(), p1)));
            assert(parse_bytes_seq(b, p1, txs.len()) == Some((txs, p2)));
            assert(p2 + 8 <= b.len());
            assert(parse_le_val(b, p2, 8) == data.metadata.created_at);
            assert(parse_batch(b, pos) is Some);
            assert(parse_batch(b, pos).unwrap().1 == pos + ser_batch(batch).len());
            assert(parse_batch(b, pos).unwrap().0 == batch_fields(batch));
        },
        Batch::V2(data) => {
            let txs = data.transactions@.map_values(|t: Transaction| t@);
            let m = data.versioned_metadata;
            let f1 = uleb(1);
            let f2 = uleb(txs.len());
            let f3 = ser_bytes_seq(txs);
            let f4 = ser_versioned_metadata(m);
            lemma_le_bytes_len(m.spec_created_at() as nat, 8);
            lemma_ser_bytes_seq_min(txs);
            assert(uleb(txs.len()).len() >= 1);
            assert(ser_opt_ts(m.spec_received_at()).len() >= 1);
            assert(txs.len() <= b.len());
            assert(ser_batch(batch) =~= f1 + (f2 + f3 + f4));
            lemma_concat_split(b, pos, f1, f2 + f3 + f4);
            lemma_uleb_roundtrip(b, pos, 1);
            let p = pos + 1;
            assert(f2 + f3 + f4 =~= f2 + (f3 + f4));
            lemma_concat_split(b, p, f2, f3 + f4);
            lemma_uleb_roundtrip(b, p, txs.len());
            let p1 = p + f2.len();
            lemma_concat_split(b, p1, f3, f4);
            lemma_bytes_seq_roundtrip(b, p1, txs);
            let p2 = p1 + f3.len();
            let g1 = uleb(0);
            let g2 = le_bytes(m.spec_created_at() as nat, 8);
            let g3 = ser_opt_ts(m.spec_received_at());
            assert(f4 =~= g1 + (g2 + g3));
            lemma_concat_split(b, p2, g1, g2 + g3);
            assert(b.subrange(p2, p2 + 1)[0] == b[p2]);
            assert(b[p2] == 0);
            lemma_concat_split(b, p2 + 1, g2, g3);
            lemma_le_roundtrip(b, p2 + 1, m.spec_created_at() as nat, 8);
            let q = p2 + 9;
            match m.spec_received_at() {
                None => {
                    assert(b.subrange(q, q + g3.len())[0] == b[q]);
                    assert(b[q] == 0);
                },
                Some(t) => {
                    assert(g3 =~= seq![1u8] + le_bytes(t as nat, 8));
                    lemma_concat_split(b, q, seq![1u8], le_bytes(t as nat, 8));
                    assert(b.subrange(q, q + 1)[0] == b[q]);
                    assert(b[q] == 1);
                    lemma_le_bytes_len(t as nat, 8);
                    lemma_le_roundtrip(b, q + 1, t as nat, 8);
                },
            }
            assert(parse_uleb(b, pos) == Some((1nat, pos + 1)));
            assert(parse_uleb(b, p) == Some((txs.len(), p1)));
            assert(parse_bytes_seq(b, p1, txs.len()) == Some((txs, p2)));
            assert(p2 + 9 <= b.len());
            assert(parse_le_val(b, p2 + 1, 8) == m.spec_created_at());
            assert(parse_opt_ts(b, q) == Some((m.spec_received_at(), pos + ser_batch(batch).len())));
            assert(parse_batch(b, pos) is Some);
            assert(parse_batch(b, pos).unwrap().1 == pos + ser_batch(batch).len());
            assert(parse_batch(b, pos).unwrap().0 == batch_fields(batch));
        },
    }
}

/// Every transaction takes at least one byte on the wire.
pub proof fn lemma_ser_bytes_seq_min(s: Seq<Seq<u8>>)
    ensures
        ser_bytes_seq(s).len() >= s.len(),
    decreases s.len(),
{
    if s.len() > 0 {
        lemma_ser_bytes_seq_min(s.subrange(1, s.len() as int));
    }
}

} // verus!
