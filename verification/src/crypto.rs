//! Content-addressed digests, signature byte representations, and the
//! trusted bridge to the outside hash, encoding and signature crates.
//!
//! Every entity of the DAG is identified by a fixed 32-byte digest computed
//! with BLAKE2b-256 over its canonical serialization. Signatures are carried
//! as plain byte strings; the BLS12-381 min-sig operations that produce and
//! check them are reached through the trusted wrappers at the bottom of this
//! file.

use vstd::prelude::*;

use fastcrypto::bls12381::min_sig::{
    BLS12381AggregateSignature, BLS12381PublicKey, BLS12381Signature,
};
use fastcrypto::hash::HashFunction;
use fastcrypto::traits::{AggregateAuthenticator, ToFromBytes};

verus! {

/// Width in bytes of every digest of this crate.
pub const DIGEST_LENGTH: usize = 32;

/// Width in bytes of a BLS12-381 min-sig signature (a G1 point) and of an
/// aggregate of such signatures.
pub const SIGNATURE_LENGTH: usize = 48;

/// Width in bytes of a BLS12-381 min-sig public key (a G2 point).
pub const PUBLIC_KEY_LENGTH: usize = 96;

/// Compare two 32-byte arrays.
pub fn bytes32_eq(a: &[u8; 32], b: &[u8; 32]) -> (r: bool)
    ensures
        r == (a@ == b@),
{
    let mut i: usize = 0;
    while i < 32
        invariant
            i <= 32,
            forall|j: int| 0 <= j < i ==> a@[j] == b@[j],
        decreases 32 - i,
    {
        if a[i] != b[i] {
            assert(a@ != b@);
            return false;
        }
        i = i + 1;
    }
    proof {
        assert(a@ =~= b@);
    }
    true
}

/// Compare two 48-byte arrays.
pub fn bytes48_eq(a: &[u8; 48], b: &[u8; 48]) -> (r: bool)
    ensures
        r == (a@ == b@),
{
    let mut i: usize = 0;
    while i < 48
        invariant
            i <= 48,
            forall|j: int| 0 <= j < i ==> a@[j] == b@[j],
        decreases 48 - i,
    {
        if a[i] != b[i] {
            assert(a@ != b@);
            return false;
        }
        i = i + 1;
    }
    proof {
        assert(a@ =~= b@);
    }
    true
}

/// Copy a byte vector.
pub fn copy_bytes(v: &Vec<u8>) -> (r: Vec<u8>)
    ensures
        r@ == v@,
{
    let mut out: Vec<u8> = Vec::new();
    let mut i: usize = 0;
    while i < v.len()
        invariant
            i <= v.len(),
            out@ =~= v@.take(i as int),
        decreases v.len() - i,
    {
        out.push(v[i]);
        i = i + 1;
        proof {
            assert(v@.take(i as int) =~= v@.take(i - 1).push(v@[i - 1]));
        }
    }
    proof {
        assert(v@.take(v@.len() as int) =~= v@);
    }
    out
}

/// Copy `N` bytes out of `buf` starting at `pos`.
pub fn take_array<const N: usize>(buf: &Vec<u8>, pos: usize) -> (r: [u8; N])
    requires
        pos + N <= buf.len(),
    ensures
        r@ == buf@.subrange(pos as int, pos + N),
{
    let mut a: [u8; N] = vstd::array::array_fill_for_copy_types::<u8, N>(0u8);
    let mut i: usize = 0;
    while i < N
        invariant
            i <= N,
            pos + N <= buf.len(),
            a@.len() == N,
            forall|j: int| 0 <= j < i ==> a@[j] == buf@[pos + j],
        decreases N - i,
    {
        a[i] = buf[pos + i];
        i = i + 1;
    }
    proof {
        assert(a@ =~= buf@.subrange(pos as int, pos + N));
    }
    a
}

/// The digest of a batch: BLAKE2b-256 over the concatenation of its
/// transactions in order.
#[derive(Clone, Copy, Debug, PartialEq, Eq, PartialOrd, Ord, Hash, Default)]
pub struct BatchDigest(pub [u8; 32]);

/// The digest of a header: BLAKE2b-256 over the canonical serialization of
/// the header without its digest cache.
#[derive(Clone, Copy, Debug, PartialEq, Eq, PartialOrd, Ord, Hash, Default)]
pub struct HeaderDigest(pub [u8; 32]);

/// The digest of a vote: the bytes of the header digest it endorses,
/// verbatim. A voter therefore cannot produce two distinct votes for the
/// same header.
#[derive(Clone, Copy, Debug, PartialEq, Eq, PartialOrd, Ord, Hash, Default)]
pub struct VoteDigest(pub [u8; 32]);

/// The digest of a certificate: the bytes of its header's digest, verbatim.
/// A certificate's identity is the header it certifies.
#[derive(Clone, Copy, Debug, PartialEq, Eq, PartialOrd, Ord, Hash, Default)]
pub struct CertificateDigest(pub [u8; 32]);

impl View for BatchDigest {
    type V = Seq<u8>;

    open spec fn view(&self) -> Seq<u8> {
        self.0@
    }
}

impl View for HeaderDigest {
    type V = Seq<u8>;

    open spec fn view(&self) -> Seq<u8> {
        self.0@
    }
}

impl View for VoteDigest {
    type V = Seq<u8>;

    open spec fn view(&self) -> Seq<u8> {
        self.0@
    }
}

impl View for CertificateDigest {
    type V = Seq<u8>;

    open spec fn view(&self) -> Seq<u8> {
        self.0@
    }
}

impl BatchDigest {
    pub fn new(val: [u8; 32]) -> (r: BatchDigest)
        ensures
            r@ == val@,
    {
        BatchDigest(val)
    }

    pub fn equals(&self, other: &BatchDigest) -> (r: bool)
        ensures
            r == (self@ == other@),
    {
        bytes32_eq(&self.0, &other.0)
    }

    /// Standard base64 rendering of the digest.
    pub fn to_base64(&self) -> (r: String)
        ensures
            r@ == base64_of(self@),
    {
        base64_encode(&self.0)
    }
}

impl HeaderDigest {
    pub fn new(val: [u8; 32]) -> (r: HeaderDigest)
        ensures
            r@ == val@,
    {
        HeaderDigest(val)
    }

    pub fn equals(&self, other: &HeaderDigest) -> (r: bool)
        ensures
            r == (self@ == other@),
    {
        bytes32_eq(&self.0, &other.0)
    }

    /// Standard base64 rendering of the digest.
    pub fn to_base64(&self) -> (r: String)
        ensures
            r@ == base64_of(self@),
    {
        base64_encode(&self.0)
    }
}

impl VoteDigest {
    pub fn new(val: [u8; 32]) -> (r: VoteDigest)
        ensures
            r@ == val@,
    {
        VoteDigest(val)
    }

    pub fn equals(&self, other: &VoteDigest) -> (r: bool)
        ensures
            r == (self@ == other@),
    {
        bytes32_eq(&self.0, &other.0)
    }

    /// Standard base64 rendering of the digest.
    pub fn to_base64(&self) -> (r: String)
        ensures
            r@ == base64_of(self@),
    {
        base64_encode(&self.0)
    }
}

impl CertificateDigest {
    pub fn new(digest: [u8; 32]) -> (r: CertificateDigest)
        ensures
            r@ == digest@,
    {
        CertificateDigest(digest)
    }

    pub fn equals(&self, other: &CertificateDigest) -> (r: bool)
        ensures
            r == (self@ == other@),
    {
        bytes32_eq(&self.0, &other.0)
    }

    /// Standard base64 rendering of the digest.
    pub fn to_base64(&self) -> (r: String)
        ensures
            r@ == base64_of(self@),
    {
        base64_encode(&self.0)
    }
}

/// The byte encoding of one BLS12-381 min-sig signature.
#[derive(Clone, Copy, Debug, PartialEq, Eq, PartialOrd, Ord, Hash)]
pub struct SignatureBytes(pub [u8; 48]);

impl View for SignatureBytes {
    type V = Seq<u8>;

    open spec fn view(&self) -> Seq<u8> {
        self.0@
    }
}

impl SignatureBytes {
    pub fn equals(&self, other: &SignatureBytes) -> (r: bool)
        ensures
            r == (self@ == other@),
    {
        bytes48_eq(&self.0, &other.0)
    }
}

/// The byte encoding of an aggregate of BLS12-381 min-sig signatures.
#[derive(Clone, Copy, Debug, PartialEq, Eq, PartialOrd, Ord, Hash)]
pub struct AggregateSignatureBytes(pub [u8; 48]);

impl View for AggregateSignatureBytes {
    type V = Seq<u8>;

    open spec fn view(&self) -> Seq<u8> {
        self.0@
    }
}

impl AggregateSignatureBytes {
    /// The all-zero placeholder carried by default (genesis) certificates,
    /// which are accepted without any signature check.
    pub fn zero() -> (r: AggregateSignatureBytes)
        ensures
            r@ == zero_aggregate_bytes(),
    {
        let a: [u8; 48] = [0u8; 48];
        proof {
            assert(a@ =~= zero_aggregate_bytes());
        }
        AggregateSignatureBytes(a)
    }

    /// The compressed encoding of the identity (infinity) point: the value a
    /// deterministic aggregation yields for an empty set of signatures.
    pub fn identity() -> (r: AggregateSignatureBytes)
        ensures
            r@ == identity_aggregate_bytes(),
    {
        let mut a: [u8; 48] = [0u8; 48];
        a[0] = 0xc0u8;
        proof {
            assert(a@ =~= identity_aggregate_bytes());
        }
        AggregateSignatureBytes(a)
    }
}

/// The all-zero 48-byte string.
pub open spec fn zero_aggregate_bytes() -> Seq<u8> {
    Seq::new(48, |i: int| 0u8)
}

/// The compressed serialization of the BLS12-381 G1 identity point:
/// `0xc0` followed by 47 zero bytes.
pub open spec fn identity_aggregate_bytes() -> Seq<u8> {
    Seq::new(48, |i: int| if i == 0 { 0xc0u8 } else { 0u8 })
}

/// The byte encoding of a BLS12-381 min-sig public key of an authority.
#[derive(Clone, Debug, PartialEq, Eq, PartialOrd, Ord, Hash)]
pub struct PublicKeyBytes(pub Vec<u8>);

impl View for PublicKeyBytes {
    type V = Seq<u8>;

    open spec fn view(&self) -> Seq<u8> {
        self.0@
    }
}

/// The byte encoding of an authority's network (ed25519) public key.
#[derive(Clone, Debug, PartialEq, Eq, PartialOrd, Ord, Hash)]
pub struct NetworkPublicKeyBytes(pub Vec<u8>);

impl View for NetworkPublicKeyBytes {
    type V = Seq<u8>;

    open spec fn view(&self) -> Seq<u8> {
        self.0@
    }
}

/// The intent envelope prepended to a digest before it is signed: scope,
/// version and application identifier, followed by the digest bytes. The
/// three constants are part of cross-version compatibility and must match
/// between producers and verifiers.
pub open spec fn intent_message_of(digest: Seq<u8>) -> Seq<u8> {
    seq![6u8, 0u8, 1u8] + digest
}

/// Build the intent-tagged message that signers sign and verifiers check.
pub fn intent_message_bytes(digest: &[u8; 32]) -> (r: Vec<u8>)
    ensures
        r@ == intent_message_of(digest@),
        r@.len() == 35,
{
    let mut out: Vec<u8> = Vec::new();
    out.push(6u8);
    out.push(0u8);
    out.push(1u8);
    let mut i: usize = 0;
    while i < 32
        invariant
            i <= 32,
            out@.len() == 3 + i,
            out@.subrange(0, 3) =~= seq![6u8, 0u8, 1u8],
            forall|j: int| 0 <= j < i ==> out@[3 + j] == digest@[j],
        decreases 32 - i,
    {
        out.push(digest[i]);
        i = i + 1;
    }
    proof {
        assert(out@ =~= intent_message_of(digest@));
    }
    out
}

/// The BLAKE2b-256 digest of a byte string.
pub uninterp spec fn blake2b_of(bytes: Seq<u8>) -> Seq<u8>;

/// Relies on fastcrypto's `Blake2b256`: a 32-byte digest that is a pure
/// function of the input bytes.
#[verifier::external_body]
pub(crate) fn blake2b256(bytes: &[u8]) -> (r: [u8; 32])
    ensures
        r@ == blake2b_of(bytes@),
        r@.len() == 32,
{
    fastcrypto::hash::Blake2b256::digest(bytes).digest
}

/// The standard (padded) base64 rendering of a byte string.
pub uninterp spec fn base64_of(bytes: Seq<u8>) -> Seq<char>;

/// Relies on base64's `STANDARD` engine: a deterministic padded encoding,
/// four characters for every three input bytes.
#[verifier::external_body]
pub(crate) fn base64_encode(bytes: &[u8]) -> (r: String)
    ensures
        r@ == base64_of(bytes@),
        r@.len() == 4 * ((bytes@.len() + 2) / 3),
{
    base64::Engine::encode(&base64::engine::general_purpose::STANDARD, bytes)
}

/// The deterministic aggregation of a non-empty sequence of BLS12-381
/// min-sig signature encodings: `None` exactly when some element is not a
/// well-formed signature encoding, otherwise the 48-byte encoding of the
/// aggregate point.
pub uninterp spec fn bls_aggregate_of(sigs: Seq<Seq<u8>>) -> Option<Seq<u8>>;

/// Relies on fastcrypto's BLS12-381 min-sig `AggregateAuthenticator::
/// aggregate`: a deterministic function of the signature bytes that fails
/// exactly when a signature encoding cannot be decoded as a curve point.
#[verifier::external_body]
pub(crate) fn bls_aggregate(sigs: &Vec<SignatureBytes>) -> (r: Option<AggregateSignatureBytes>)
    requires
        sigs.len() > 0,
    ensures
        r is Some <==> bls_aggregate_of(sigs@.map_values(|s: SignatureBytes| s@)) is Some,
        r is Some ==> r.unwrap()@ == bls_aggregate_of(
            sigs@.map_values(|s: SignatureBytes| s@),
        ).unwrap(),
{
    let mut parsed: Vec<BLS12381Signature> = Vec::new();
    for s in sigs.iter() {
        match BLS12381Signature::from_bytes(&s.0) {
            Ok(sig) => parsed.push(sig),
            Err(_) => return None,
        }
    }
    match BLS12381AggregateSignature::aggregate::<BLS12381Signature, &Vec<BLS12381Signature>>(&parsed) {
        Ok(agg) => Some(AggregateSignatureBytes(agg.as_ref().try_into().unwrap())),
        Err(_) => None,
    }
}

/// Whether the given aggregate-signature bytes verify over the message under
/// the given public keys: a deterministic function of all three arguments.
/// Malformed aggregate or key bytes never verify.
pub uninterp spec fn bls_verifies(agg: Seq<u8>, pks: Seq<Seq<u8>>, msg: Seq<u8>) -> bool;

/// Relies on fastcrypto's BLS12-381 min-sig `AggregateAuthenticator::verify`:
/// a deterministic function of the aggregate bytes, the public keys and the
/// message.
#[verifier::external_body]
pub(crate) fn bls_aggregate_verify(
    agg: &AggregateSignatureBytes,
    pks: &Vec<PublicKeyBytes>,
    msg: &Vec<u8>,
) -> (r: bool)
    ensures
        r == bls_verifies(agg@, pks@.map_values(|k: PublicKeyBytes| k@), msg@),
{
    let sig = match BLS12381AggregateSignature::from_bytes(&agg.0) {
        Ok(sig) => sig,
        Err(_) => return false,
    };
    let mut keys: Vec<BLS12381PublicKey> = Vec::new();
    for pk in pks.iter() {
        match BLS12381PublicKey::from_bytes(&pk.0) {
            Ok(k) => keys.push(k),
            Err(_) => return false,
        }
    }
    sig.verify(&keys, msg.as_slice()).is_ok()
}

} // verus!
