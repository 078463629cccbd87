use fastcrypto::bls12381::min_sig::BLS12381KeyPair;
use fastcrypto::traits::{KeyPair, Signer};
use rand::rngs::StdRng;
use rand::SeedableRng;

use narwhal_types::certificate::{Certificate, CertificateAPI, CertificateV1};
use narwhal_types::committee::{Authority, AuthorityIdentifier, Committee, WorkerCache};
use narwhal_types::crypto::{PublicKeyBytes, SignatureBytes};
use narwhal_types::error::DagError;
use narwhal_types::header::{Header, HeaderAPI, HeaderV1};
use narwhal_types::payload::PayloadMap;
use narwhal_types::vote::Vote;

/// A deterministic committee of four authorities with stake 1 each
/// (quorum = 3), with their signing key pairs.
fn fixture() -> (Committee, WorkerCache, Vec<BLS12381KeyPair>) {
    fixture_at_epoch(0)
}

fn fixture_at_epoch(epoch: u64) -> (Committee, WorkerCache, Vec<BLS12381KeyPair>) {
    let mut rng = StdRng::from_seed([7u8; 32]);
    let mut authorities = Vec::new();
    let mut keys = Vec::new();
    let mut workers = Vec::new();
    for i in 0..4u16 {
        let kp = BLS12381KeyPair::generate(&mut rng);
        authorities.push(Authority {
            id: AuthorityIdentifier(i),
            stake: 1,
            protocol_key: PublicKeyBytes(kp.public().as_ref().to_vec()),
        });
        workers.push((AuthorityIdentifier(i), vec![0u32]));
        keys.push(kp);
    }
    let committee = Committee::new(authorities, epoch).unwrap();
    (committee, WorkerCache { entries: workers }, keys)
}

fn genesis_parents(committee: &Committee) -> Vec<narwhal_types::crypto::CertificateDigest> {
    Certificate::genesis(committee).iter().map(|c| c.digest()).collect()
}

fn header_at_round_one(committee: &Committee) -> Header {
    Header::new(
        AuthorityIdentifier(0),
        1,
        committee.epoch(),
        PayloadMap::new(),
        genesis_parents(committee),
    )
}

fn vote_for(header: &Header, voter: u16, kp: &BLS12381KeyPair) -> (AuthorityIdentifier, SignatureBytes) {
    let msg = Vote::signing_message(header);
    let sig = kp.sign(&msg);
    let bytes: [u8; 48] = sig.as_ref().try_into().unwrap();
    (AuthorityIdentifier(voter), SignatureBytes(bytes))
}

#[test]
fn happy_path_quorum() {
    let (committee, worker_cache, keys) = fixture();
    let header = header_at_round_one(&committee);
    let votes = vec![
        vote_for(&header, 1, &keys[1]),
        vote_for(&header, 2, &keys[2]),
        vote_for(&header, 3, &keys[3]),
    ];
    let cert = Certificate::new_unverified(&committee, header, votes).unwrap();
    assert!(cert.verify(&committee, &worker_cache).is_ok());
    let bits = CertificateAPI::signed_authorities(&cert);
    assert_eq!(bits.len(), 3);
    assert!(!bits.contains(0));
    assert!(bits.contains(1));
    assert!(bits.contains(2));
    assert!(bits.contains(3));
}

#[test]
fn sub_quorum_is_rejected() {
    let (committee, _wc, keys) = fixture();
    let header = header_at_round_one(&committee);
    let votes = vec![vote_for(&header, 1, &keys[1])];
    let r = Certificate::new_unverified(&committee, header, votes);
    assert_eq!(r.err().unwrap(), DagError::CertificateRequiresQuorum);

    let header = header_at_round_one(&committee);
    let votes = vec![vote_for(&header, 1, &keys[1])];
    assert!(Certificate::new_unsigned(&committee, header, votes).is_ok());
}

#[test]
fn duplicate_votes_are_idempotent() {
    let (committee, worker_cache, keys) = fixture();
    let header = header_at_round_one(&committee);
    let v1 = vote_for(&header, 1, &keys[1]);
    let v2 = vote_for(&header, 2, &keys[2]);
    let v3 = vote_for(&header, 3, &keys[3]);
    let with_dup = vec![v1, v1, v2, v3];
    let deduped = vec![v1, v2, v3];

    let header2 = header_at_round_one(&committee);
    let cert_dup = Certificate::new_unverified(&committee, header, with_dup).unwrap();
    let cert_plain = Certificate::new_unverified(&committee, header2, deduped).unwrap();

    assert!(cert_dup.verify(&committee, &worker_cache).is_ok());
    let bits = CertificateAPI::signed_authorities(&cert_dup);
    assert_eq!(bits.len(), 3);
    assert_eq!(
        CertificateAPI::aggregated_signature(&cert_dup).0,
        CertificateAPI::aggregated_signature(&cert_plain).0
    );
}

#[test]
fn unknown_signer_is_fatal() {
    let (committee, _wc, keys) = fixture();
    let header = header_at_round_one(&committee);
    let mut votes = vec![
        vote_for(&header, 1, &keys[1]),
        vote_for(&header, 2, &keys[2]),
        vote_for(&header, 3, &keys[3]),
    ];
    let mut stray = vote_for(&header, 1, &keys[1]);
    stray.0 = AuthorityIdentifier(99);
    votes.push(stray);
    let r = Certificate::new_unverified(&committee, header, votes);
    assert_eq!(r.err().unwrap(), DagError::UnknownAuthority(AuthorityIdentifier(99)));
}

#[test]
fn cross_epoch_certificate_is_rejected() {
    let (committee4, worker_cache, keys) = fixture_at_epoch(4);
    let (committee5, _wc5, _keys5) = fixture_at_epoch(5);
    let header = header_at_round_one(&committee4);
    let votes = vec![
        vote_for(&header, 1, &keys[1]),
        vote_for(&header, 2, &keys[2]),
        vote_for(&header, 3, &keys[3]),
    ];
    let cert = Certificate::new_unverified(&committee4, header, votes).unwrap();
    assert!(cert.verify(&committee4, &worker_cache).is_ok());
    let r = cert.verify(&committee5, &worker_cache);
    assert_eq!(r.err().unwrap(), DagError::InvalidEpoch { expected: 5, received: 4 });
}

#[test]
fn empty_votes() {
    let (committee, _wc, _keys) = fixture();
    let header = header_at_round_one(&committee);
    let r = Certificate::new_unverified(&committee, header, vec![]);
    assert_eq!(r.err().unwrap(), DagError::CertificateRequiresQuorum);

    let header = header_at_round_one(&committee);
    let cert = Certificate::new_unsigned(&committee, header, vec![]).unwrap();
    assert_eq!(CertificateAPI::signed_authorities(&cert).len(), 0);
}

#[test]
fn genesis_certificates_verify_without_signatures() {
    let (committee, worker_cache, _keys) = fixture();
    let genesis = Certificate::genesis(&committee);
    assert_eq!(genesis.len(), 4);
    for cert in &genesis {
        assert!(cert.verify(&committee, &worker_cache).is_ok());
        assert!(cert.compressible());
    }
    // A genesis certificate's digest equals its header's digest.
    assert_eq!(genesis[0].digest().0, CertificateAPI::header(&genesis[0]).digest().0);
}

#[test]
fn bitmap_with_out_of_range_index_fails() {
    let (committee, worker_cache, keys) = fixture();
    let header = header_at_round_one(&committee);
    let votes = vec![
        vote_for(&header, 1, &keys[1]),
        vote_for(&header, 2, &keys[2]),
        vote_for(&header, 3, &keys[3]),
    ];
    let cert = Certificate::new_unverified(&committee, header, votes).unwrap();
    let Certificate::V1(inner) = cert;
    let tampered = Certificate::V1(CertificateV1 {
        header: inner.header,
        aggregated_signature: inner.aggregated_signature,
        signed_authorities: narwhal_types::bitmap::rb_from_sorted(&vec![1, 2, 3, 10]),
        metadata: inner.metadata,
    });
    let r = tampered.verify(&committee, &worker_cache);
    assert_eq!(r.err().unwrap(), DagError::InvalidBitmap);
}

#[test]
fn wrong_signature_fails_verification() {
    let (committee, worker_cache, keys) = fixture();
    let header = header_at_round_one(&committee);
    // A3 signs unrelated bytes: construction succeeds (the signature is a
    // valid curve point), verification fails on the aggregate.
    let mut votes = vec![vote_for(&header, 1, &keys[1]), vote_for(&header, 2, &keys[2])];
    let sig = keys[3].sign(b"unrelated bytes");
    votes.push((AuthorityIdentifier(3), SignatureBytes(sig.as_ref().try_into().unwrap())));
    let cert = Certificate::new_unverified(&committee, header, votes).unwrap();
    let r = cert.verify(&committee, &worker_cache);
    assert_eq!(r.err().unwrap(), DagError::InvalidSignature);
}

#[test]
fn header_validation_errors() {
    let (committee, worker_cache, _keys) = fixture();
    // A stale digest cache: mutating the round after construction must
    // fail digest validation.
    let Header::V1(mut h) = header_at_round_one(&committee);
    h.update_round(5);
    assert_eq!(
        h.validate(&committee, &worker_cache).err().unwrap(),
        DagError::InvalidHeaderDigest
    );

    // An unknown author has no voting rights.
    let h = HeaderV1::new(AuthorityIdentifier(77), 1, 0, PayloadMap::new(), vec![]);
    assert_eq!(
        h.validate(&committee, &worker_cache).err().unwrap(),
        DagError::UnknownAuthority(AuthorityIdentifier(77))
    );

    // A payload entry naming an unregistered worker is rejected.
    let mut payload = PayloadMap::new();
    payload.insert(narwhal_types::crypto::BatchDigest::new([9u8; 32]), 42, 0);
    let h = HeaderV1::new(AuthorityIdentifier(0), 1, 0, payload, vec![]);
    let digest = h.digest();
    assert_eq!(
        h.validate(&committee, &worker_cache).err().unwrap(),
        DagError::HeaderHasBadWorkerIds(digest)
    );
}

#[test]
fn reverifying_a_verified_certificate_succeeds() {
    let (committee, worker_cache, keys) = fixture();
    let header = header_at_round_one(&committee);
    let votes = vec![
        vote_for(&header, 1, &keys[1]),
        vote_for(&header, 2, &keys[2]),
        vote_for(&header, 3, &keys[3]),
    ];
    let cert = Certificate::new_unverified(&committee, header, votes).unwrap();
    assert!(cert.verify(&committee, &worker_cache).is_ok());
    assert!(cert.verify(&committee, &worker_cache).is_ok());
}

#[test]
fn rebuilding_yields_equal_certificates() {
    let (committee, _wc, keys) = fixture();
    // Pin the creation time so the two headers are byte-identical.
    let fixed_header = |committee: &Committee| {
        Header::V1(
            narwhal_types::header::HeaderV1Builder::new()
                .author(AuthorityIdentifier(0))
                .round(1)
                .epoch(committee.epoch())
                .created_at(1234)
                .payload(PayloadMap::new())
                .parents(genesis_parents(committee))
                .build(),
        )
    };
    let header = fixed_header(&committee);
    let votes = vec![
        vote_for(&header, 1, &keys[1]),
        vote_for(&header, 2, &keys[2]),
        vote_for(&header, 3, &keys[3]),
    ];
    let header2 = fixed_header(&committee);
    let c1 = Certificate::new_unverified(&committee, header, votes.clone()).unwrap();
    let c2 = Certificate::new_unverified(&committee, header2, votes).unwrap();
    assert_eq!(c1.digest().0, c2.digest().0);
    assert_eq!(
        CertificateAPI::aggregated_signature(&c1).0,
        CertificateAPI::aggregated_signature(&c2).0
    );
    let b1 = CertificateAPI::signed_authorities(&c1);
    let b2 = CertificateAPI::signed_authorities(&c2);
    assert_eq!(b1.len(), b2.len());
    for v in 0..4u32 {
        assert_eq!(b1.contains(v), b2.contains(v));
    }
}

#[test]
fn digest_memoization_is_stable() {
    let (committee, _wc, _keys) = fixture();
    let header = header_at_round_one(&committee);
    let d1 = header.digest();
    let d2 = header.digest();
    assert_eq!(d1.0, d2.0);
    let Header::V1(h) = header;
    assert_eq!(h.compute_digest().0, d1.0);
}

#[test]
fn vote_digest_is_header_digest() {
    let (committee, _wc, keys) = fixture();
    let header = header_at_round_one(&committee);
    let (author, sig) = vote_for(&header, 2, &keys[2]);
    let vote = Vote::new_with_signature(&header, author, sig);
    assert_eq!(vote.digest().0, header.digest().0);
}

#[test]
fn quorum_and_stake_arithmetic() {
    let (committee, _wc, _keys) = fixture();
    assert_eq!(committee.total_stake(), 4);
    assert_eq!(committee.quorum_threshold(), 3);
    assert_eq!(committee.stake_by_id(AuthorityIdentifier(2)), 1);
    assert_eq!(committee.stake_by_id(AuthorityIdentifier(50)), 0);
}

#[test]
fn signed_by_ignores_out_of_range_bits() {
    let (committee, _wc, _keys) = fixture();
    let cert = Certificate::V1(CertificateV1 {
        header: Header::V1(HeaderV1::new(
            AuthorityIdentifier(0),
            1,
            0,
            PayloadMap::new(),
            vec![],
        )),
        aggregated_signature: narwhal_types::crypto::AggregateSignatureBytes::zero(),
        signed_authorities: narwhal_types::bitmap::rb_from_sorted(&vec![0, 1, 9]),
        metadata: narwhal_types::batch::Metadata::created_now(),
    });
    let (stake, pks) = cert.signed_by(&committee);
    assert_eq!(stake, 2);
    assert_eq!(pks.len(), 2);
}

#[test]
fn parents_and_compressible_hooks() {
    let (committee, _wc, _keys) = fixture();
    let header = header_at_round_one(&committee);
    let cert = Certificate::new_unsigned(&committee, header, vec![]).unwrap();
    assert_eq!(cert.parents().len(), 4);
    assert!(cert.compressible());
    assert_eq!(cert.round(), 1);
    assert_eq!(cert.epoch(), 0);
    assert_eq!(cert.origin(), AuthorityIdentifier(0));
}
