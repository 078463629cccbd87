use fastcrypto::bls12381::min_sig::BLS12381KeyPair;
use fastcrypto::traits::{KeyPair, Signer};
use rand::rngs::StdRng;
use rand::SeedableRng;

use narwhal_types::certificate::{
    decode_certificate, encode_certificate, Certificate, CertificateAPI,
};
use narwhal_types::committee::{Authority, AuthorityIdentifier, Committee};
use narwhal_types::crypto::{BatchDigest, CertificateDigest, PublicKeyBytes, SignatureBytes};
use narwhal_types::header::{decode_header, encode_header, Header, HeaderAPI};
use narwhal_types::payload::PayloadMap;
use narwhal_types::vote::{decode_vote, encode_vote, Vote, VoteAPI, VoteInfo, VoteInfoAPI};
use narwhal_types::batch::{Batch, BatchV2, Metadata, MetadataV1, VersionedMetadata};
use narwhal_types::committee::ProtocolConfig;
use narwhal_types::header::HeaderV1Builder;
use narwhal_types::crypto::NetworkPublicKeyBytes;
use narwhal_types::wire::{
    decode_fetch_batches_request, decode_fetch_batches_response,
    decode_fetch_certificates_request, decode_get_certificates_request,
    decode_payload_availability_response, decode_request_vote_response,
    decode_send_certificate_response, decode_worker_delete_batches_message,
    decode_worker_others_batch_message, decode_worker_our_batch_message,
    decode_worker_our_batch_message_v2, decode_worker_synchronize_message,
    encode_fetch_batches_request, encode_fetch_batches_response,
    encode_fetch_certificates_request, encode_get_certificates_request,
    encode_payload_availability_response, encode_request_vote_response,
    encode_send_certificate_response, encode_worker_delete_batches_message,
    encode_worker_others_batch_message, encode_worker_our_batch_message,
    encode_worker_our_batch_message_v2, encode_worker_synchronize_message,
    FetchBatchesRequest, FetchBatchesResponse, FetchCertificatesRequest,
    GetCertificatesRequest, PayloadAvailabilityResponse, RequestVoteResponse,
    SendCertificateResponse, WorkerDeleteBatchesMessage, WorkerOthersBatchMessage,
    WorkerOurBatchMessage, WorkerOurBatchMessageV2, WorkerSynchronizeMessage,
};

fn fixture() -> (Committee, Vec<BLS12381KeyPair>) {
    let mut rng = StdRng::from_seed([3u8; 32]);
    let mut authorities = Vec::new();
    let mut keys = Vec::new();
    for i in 0..4u16 {
        let kp = BLS12381KeyPair::generate(&mut rng);
        authorities.push(Authority {
            id: AuthorityIdentifier(i),
            stake: 1,
            protocol_key: PublicKeyBytes(kp.public().as_ref().to_vec()),
        });
        keys.push(kp);
    }
    (Committee::new(authorities, 0).unwrap(), keys)
}

fn sample_header(committee: &Committee) -> Header {
    let mut payload = PayloadMap::new();
    payload.insert(BatchDigest::new([1u8; 32]), 0, 123);
    payload.insert(BatchDigest::new([2u8; 32]), 0, 456);
    Header::new(
        AuthorityIdentifier(0),
        1,
        committee.epoch(),
        payload,
        vec![CertificateDigest::new([5u8; 32]), CertificateDigest::new([6u8; 32])],
    )
}

#[test]
fn header_serialization_roundtrip() {
    let (committee, _keys) = fixture();
    let header = sample_header(&committee);
    let mut bytes = Vec::new();
    encode_header(&mut bytes, &header);
    let (decoded, end) = decode_header(&bytes, 0).unwrap();
    assert_eq!(end, bytes.len());
    assert_eq!(decoded.author(), header.author());
    assert_eq!(decoded.round(), header.round());
    assert_eq!(decoded.epoch(), header.epoch());
    assert_eq!(decoded.created_at(), header.created_at());
    assert_eq!(decoded.parents().len(), 2);
    let original_entries = header.payload().entries();
    let decoded_entries = decoded.payload().entries();
    assert_eq!(original_entries.len(), decoded_entries.len());
    for (a, b) in original_entries.iter().zip(decoded_entries.iter()) {
        assert_eq!(a.0 .0, b.0 .0);
        assert_eq!(a.1, b.1);
    }
    // Digests are preserved across the round trip.
    assert_eq!(decoded.digest().0, header.digest().0);
}

#[test]
fn vote_serialization_roundtrip() {
    let (committee, keys) = fixture();
    let header = sample_header(&committee);
    let msg = Vote::signing_message(&header);
    let sig = keys[2].sign(&msg);
    let vote = Vote::new_with_signature(
        &header,
        AuthorityIdentifier(2),
        SignatureBytes(sig.as_ref().try_into().unwrap()),
    );
    let mut bytes = Vec::new();
    encode_vote(&mut bytes, &vote);
    let (decoded, end) = decode_vote(&bytes, 0).unwrap();
    assert_eq!(end, bytes.len());
    assert_eq!(decoded.header_digest().0, vote.header_digest().0);
    assert_eq!(decoded.round(), vote.round());
    assert_eq!(decoded.epoch(), vote.epoch());
    assert_eq!(decoded.origin(), vote.origin());
    assert_eq!(decoded.author(), vote.author());
    assert_eq!(decoded.signature().0, vote.signature().0);
    assert_eq!(decoded.digest().0, vote.digest().0);
}

#[test]
fn certificate_serialization_roundtrip() {
    let (committee, keys) = fixture();
    let header = sample_header(&committee);
    let msg = Vote::signing_message(&header);
    let votes: Vec<(AuthorityIdentifier, SignatureBytes)> = (1..4u16)
        .map(|i| {
            let sig = keys[i as usize].sign(&msg);
            (AuthorityIdentifier(i), SignatureBytes(sig.as_ref().try_into().unwrap()))
        })
        .collect();
    let cert = Certificate::new_unverified(&committee, header, votes).unwrap();
    let mut bytes = Vec::new();
    encode_certificate(&mut bytes, &cert);
    let (decoded, end) = decode_certificate(&bytes, 0).unwrap();
    assert_eq!(end, bytes.len());
    assert_eq!(decoded.digest().0, cert.digest().0);
    assert_eq!(
        CertificateAPI::aggregated_signature(&decoded).0,
        CertificateAPI::aggregated_signature(&cert).0
    );
    let b1 = CertificateAPI::signed_authorities(&decoded);
    let b2 = CertificateAPI::signed_authorities(&cert);
    assert_eq!(b1.len(), b2.len());
    for v in 0..4u32 {
        assert_eq!(b1.contains(v), b2.contains(v));
    }
    assert_eq!(
        CertificateAPI::metadata(&decoded).created_at,
        CertificateAPI::metadata(&cert).created_at
    );
}

#[test]
fn fetch_bounds_roundtrip() {
    // Build skip bounds, serialize the whole request, deserialize, and read
    // the bounds back: the map and the bound survive.
    let base = FetchCertificatesRequest {
        exclusive_lower_bound: 0,
        skip_rounds: Vec::new(),
        max_items: 0,
    };
    let req = base
        .set_bounds(100, vec![(AuthorityIdentifier(1), vec![101, 103, 107])])
        .set_max_items(50);
    let mut bytes = Vec::new();
    encode_fetch_certificates_request(&mut bytes, &req);
    let (decoded, end) = decode_fetch_certificates_request(&bytes, 0).unwrap();
    assert_eq!(end, bytes.len());
    assert_eq!(decoded.max_items, 50);
    let (lower, rounds) = decoded.get_bounds();
    assert_eq!(lower, 100);
    assert_eq!(rounds.len(), 1);
    assert_eq!(rounds[0].0, AuthorityIdentifier(1));
    assert_eq!(rounds[0].1, vec![101, 103, 107]);
}

#[test]
fn get_bounds_skips_malformed_entries() {
    let base = FetchCertificatesRequest {
        exclusive_lower_bound: 0,
        skip_rounds: Vec::new(),
        max_items: 10,
    };
    let mut req = base.set_bounds(
        100,
        vec![
            (AuthorityIdentifier(1), vec![101, 103]),
            (AuthorityIdentifier(3), vec![102]),
        ],
    );
    // Corrupt the middle by inserting a malformed entry.
    req.skip_rounds.insert(1, (AuthorityIdentifier(2), vec![1, 2, 3]));
    let (lower, rounds) = req.get_bounds();
    assert_eq!(lower, 100);
    assert_eq!(rounds.len(), 2);
    assert_eq!(rounds[0].0, AuthorityIdentifier(1));
    assert_eq!(rounds[0].1, vec![101, 103]);
    assert_eq!(rounds[1].0, AuthorityIdentifier(3));
    assert_eq!(rounds[1].1, vec![102]);
}

#[test]
fn send_certificate_response_roundtrip() {
    for accepted in [false, true] {
        let resp = SendCertificateResponse { accepted };
        let mut bytes = Vec::new();
        encode_send_certificate_response(&mut bytes, &resp);
        let (decoded, end) = decode_send_certificate_response(&bytes, 0).unwrap();
        assert_eq!(end, bytes.len());
        assert_eq!(decoded.accepted, accepted);
    }
}

#[test]
fn payload_availability_roundtrip_and_filter() {
    let resp = PayloadAvailabilityResponse {
        payload_availability: vec![
            (CertificateDigest::new([1u8; 32]), true),
            (CertificateDigest::new([2u8; 32]), false),
            (CertificateDigest::new([3u8; 32]), true),
        ],
    };
    let available = resp.available_certificates();
    assert_eq!(available.len(), 2);
    assert_eq!(available[0].0, [1u8; 32]);
    assert_eq!(available[1].0, [3u8; 32]);

    let mut bytes = Vec::new();
    encode_payload_availability_response(&mut bytes, &resp);
    let (decoded, end) = decode_payload_availability_response(&bytes, 0).unwrap();
    assert_eq!(end, bytes.len());
    assert_eq!(decoded.payload_availability.len(), 3);
    for (a, b) in resp
        .payload_availability
        .iter()
        .zip(decoded.payload_availability.iter())
    {
        assert_eq!(a.0 .0, b.0 .0);
        assert_eq!(a.1, b.1);
    }
}

#[test]
fn worker_others_batch_roundtrip() {
    let msg = WorkerOthersBatchMessage { digest: BatchDigest::new([8u8; 32]), worker_id: 7 };
    let mut bytes = Vec::new();
    encode_worker_others_batch_message(&mut bytes, &msg);
    let (decoded, end) = decode_worker_others_batch_message(&bytes, 0).unwrap();
    assert_eq!(end, bytes.len());
    assert_eq!(decoded.digest.0, [8u8; 32]);
    assert_eq!(decoded.worker_id, 7);
}

#[test]
fn decoding_garbage_fails() {
    let garbage = vec![0xFFu8; 16];
    assert!(decode_header(&garbage, 0).is_none());
    assert!(decode_vote(&garbage, 0).is_none());
    assert!(decode_certificate(&garbage, 0).is_none());
}

#[test]
fn builder_assembles_headers() {
    let cfg = ProtocolConfig { versioned_metadata: false };
    let batch = Batch::new(vec![vec![1u8, 2, 3]], &cfg);
    let digest = batch.digest();
    let builder = HeaderV1Builder::new()
        .author(AuthorityIdentifier(2))
        .round(3)
        .epoch(0)
        .parents(vec![])
        .payload(PayloadMap::new())
        .with_payload_batch(batch, 0, 42);
    let header = builder.build();
    assert_eq!(header.author, AuthorityIdentifier(2));
    assert_eq!(header.round, 3);
    assert_eq!(header.created_at, 0);
    let entries = header.payload.entries();
    assert_eq!(entries.len(), 1);
    assert_eq!(entries[0].0 .0, digest.0);
    assert_eq!(entries[0].1, (0, 42));
    // The builder fills the digest cache; validation accepts it.
    assert_eq!(header.digest().0, header.compute_digest().0);
}

#[test]
fn payload_insert_is_idempotent_per_key() {
    let mut payload = PayloadMap::new();
    let d = BatchDigest::new([4u8; 32]);
    payload.insert(d, 0, 1);
    payload.insert(d, 0, 2);
    assert_eq!(payload.len(), 1);
    let entries = payload.entries();
    assert_eq!(entries[0].1, (0, 2));
}


#[test]
fn batch_serialization_roundtrip() {
    let cfg = ProtocolConfig { versioned_metadata: false };
    let b1 = Batch::new(vec![vec![1, 2, 3], vec![], vec![9]], &cfg);
    let mut bytes = Vec::new();
    narwhal_types::batch::encode_batch(&mut bytes, &b1);
    let (decoded, end) = narwhal_types::batch::decode_batch(&bytes, 0).unwrap();
    assert_eq!(end, bytes.len());
    assert_eq!(decoded, b1);
    assert_eq!(decoded.digest().0, b1.digest().0);

    let b2 = Batch::V2(BatchV2 {
        transactions: vec![vec![7u8; 5]],
        versioned_metadata: VersionedMetadata::V1(MetadataV1 {
            created_at: 77,
            received_at: Some(99),
        }),
    });
    let mut bytes = Vec::new();
    narwhal_types::batch::encode_batch(&mut bytes, &b2);
    let (decoded, end) = narwhal_types::batch::decode_batch(&bytes, 0).unwrap();
    assert_eq!(end, bytes.len());
    assert_eq!(decoded, b2);
}

#[test]
fn worker_our_batch_roundtrips() {
    let msg = WorkerOurBatchMessage {
        digest: BatchDigest::new([3u8; 32]),
        worker_id: 2,
        metadata: Metadata { created_at: 5 },
    };
    let mut bytes = Vec::new();
    encode_worker_our_batch_message(&mut bytes, &msg);
    let (decoded, end) = decode_worker_our_batch_message(&bytes, 0).unwrap();
    assert_eq!(end, bytes.len());
    assert_eq!(decoded.digest.0, [3u8; 32]);
    assert_eq!(decoded.worker_id, 2);
    assert_eq!(decoded.metadata.created_at, 5);

    let msg = WorkerOurBatchMessageV2 {
        digest: BatchDigest::new([4u8; 32]),
        worker_id: 1,
        metadata: VersionedMetadata::V1(MetadataV1 { created_at: 6, received_at: Some(8) }),
    };
    let mut bytes = Vec::new();
    encode_worker_our_batch_message_v2(&mut bytes, &msg);
    let (decoded, end) = decode_worker_our_batch_message_v2(&bytes, 0).unwrap();
    assert_eq!(end, bytes.len());
    assert_eq!(decoded.digest.0, [4u8; 32]);
    assert_eq!(decoded.metadata, msg.metadata);
}

#[test]
fn fetch_batches_roundtrips() {
    let req = FetchBatchesRequest {
        digests: vec![BatchDigest::new([1u8; 32]), BatchDigest::new([2u8; 32])],
        known_workers: vec![NetworkPublicKeyBytes(vec![9, 8, 7])],
    };
    let mut bytes = Vec::new();
    encode_fetch_batches_request(&mut bytes, &req);
    let (decoded, end) = decode_fetch_batches_request(&bytes, 0).unwrap();
    assert_eq!(end, bytes.len());
    assert_eq!(decoded.digests.len(), 2);
    assert_eq!(decoded.digests[0].0, [1u8; 32]);
    assert_eq!(decoded.known_workers[0].0, vec![9, 8, 7]);

    let cfg = ProtocolConfig { versioned_metadata: false };
    let batch = Batch::new(vec![vec![1]], &cfg);
    let resp = FetchBatchesResponse { batches: vec![(batch.digest(), batch.clone())] };
    let mut bytes = Vec::new();
    encode_fetch_batches_response(&mut bytes, &resp);
    let (decoded, end) = decode_fetch_batches_response(&bytes, 0).unwrap();
    assert_eq!(end, bytes.len());
    assert_eq!(decoded.batches.len(), 1);
    assert_eq!(decoded.batches[0].0 .0, batch.digest().0);
    assert_eq!(decoded.batches[0].1, batch);
}

#[test]
fn worker_direction_roundtrips() {
    let msg = WorkerSynchronizeMessage {
        digests: vec![BatchDigest::new([5u8; 32])],
        target: AuthorityIdentifier(3),
        is_certified: true,
    };
    let mut bytes = Vec::new();
    encode_worker_synchronize_message(&mut bytes, &msg);
    let (decoded, end) = decode_worker_synchronize_message(&bytes, 0).unwrap();
    assert_eq!(end, bytes.len());
    assert_eq!(decoded.digests[0].0, [5u8; 32]);
    assert_eq!(decoded.target, AuthorityIdentifier(3));
    assert!(decoded.is_certified);

    let msg = WorkerDeleteBatchesMessage { digests: vec![BatchDigest::new([6u8; 32])] };
    let mut bytes = Vec::new();
    encode_worker_delete_batches_message(&mut bytes, &msg);
    let (decoded, end) = decode_worker_delete_batches_message(&bytes, 0).unwrap();
    assert_eq!(end, bytes.len());
    assert_eq!(decoded.digests[0].0, [6u8; 32]);
}

#[test]
fn vote_request_reply_roundtrips() {
    let (committee, keys) = fixture();
    let header = sample_header(&committee);
    let msg = Vote::signing_message(&header);
    let sig = keys[1].sign(&msg);
    let vote = Vote::new_with_signature(
        &header,
        AuthorityIdentifier(1),
        SignatureBytes(sig.as_ref().try_into().unwrap()),
    );
    let resp = RequestVoteResponse {
        vote: Some(vote),
        missing: vec![CertificateDigest::new([7u8; 32])],
    };
    let mut bytes = Vec::new();
    encode_request_vote_response(&mut bytes, &resp);
    let (decoded, end) = decode_request_vote_response(&bytes, 0).unwrap();
    assert_eq!(end, bytes.len());
    let got = decoded.vote.unwrap();
    assert_eq!(got.author(), AuthorityIdentifier(1));
    assert_eq!(got.header_digest().0, header.digest().0);
    assert_eq!(decoded.missing[0].0, [7u8; 32]);

    let req = GetCertificatesRequest { digests: vec![CertificateDigest::new([8u8; 32])] };
    let mut bytes = Vec::new();
    encode_get_certificates_request(&mut bytes, &req);
    let (decoded, end) = decode_get_certificates_request(&bytes, 0).unwrap();
    assert_eq!(end, bytes.len());
    assert_eq!(decoded.digests[0].0, [8u8; 32]);
}

#[test]
fn vote_info_records_vote() {
    let (committee, keys) = fixture();
    let header = sample_header(&committee);
    let msg = Vote::signing_message(&header);
    let sig = keys[1].sign(&msg);
    let vote = Vote::new_with_signature(
        &header,
        AuthorityIdentifier(1),
        SignatureBytes(sig.as_ref().try_into().unwrap()),
    );
    let info = VoteInfo::from_vote(&vote);
    assert_eq!(info.epoch(), 0);
    assert_eq!(info.round(), 1);
    assert_eq!(info.vote_digest().0, header.digest().0);
}
