use narwhal_types::batch::{
    Batch, BatchAPI, BatchV1, BatchV2, Metadata, MetadataAPI, MetadataV1, VersionedMetadata,
};
use narwhal_types::committee::ProtocolConfig;
use narwhal_types::time::Timestamp;
use fastcrypto::hash::HashFunction;

#[test]
fn test_elapsed_when_newer_than_now() {
    // BatchV1
    let batch = Batch::V1(BatchV1 {
        transactions: vec![],
        metadata: Metadata {
            created_at: 2999309726980, // something in the future - Fri Jan 16 2065 05:35:26
        },
    });

    assert_eq!(batch.metadata().created_at.elapsed().as_secs_f64(), 0.0);

    // BatchV2
    let batch = Batch::V2(BatchV2 {
        transactions: vec![],
        versioned_metadata: VersionedMetadata::V1(MetadataV1 {
            created_at: 2999309726980, // something in the future - Fri Jan 16 2065 05:35:26
            received_at: None,
        }),
    });

    assert_eq!(
        batch
            .versioned_metadata()
            .created_at()
            .elapsed()
            .as_secs_f64(),
        0.0
    );
}

#[test]
fn batch_version_follows_protocol_config() {
    let v1_cfg = ProtocolConfig { versioned_metadata: false };
    let v2_cfg = ProtocolConfig { versioned_metadata: true };

    let b1 = Batch::new(vec![vec![1, 2, 3]], &v1_cfg);
    assert!(matches!(b1, Batch::V1(_)));
    assert!(b1.metadata().created_at > 0);

    let b2 = Batch::new(vec![vec![1, 2, 3]], &v2_cfg);
    assert!(matches!(b2, Batch::V2(_)));
    assert!(*&b2.versioned_metadata().created_at() > 0);
    assert!(b2.versioned_metadata().received_at().is_none());
}

#[test]
fn batch_size_sums_transaction_lengths() {
    let cfg = ProtocolConfig { versioned_metadata: false };
    let batch = Batch::new(vec![vec![1, 2], vec![3], vec![]], &cfg);
    assert_eq!(batch.size(), 3);
}

#[test]
fn batch_digest_commits_to_payload_only() {
    // The two version shapes hash alike when their transaction lists are
    // equal, and the digest matches the raw hash of the concatenation.
    let txs = vec![b"hello".to_vec(), b" world".to_vec()];
    let v1 = BatchV1::new(txs.clone());
    let cfg = ProtocolConfig { versioned_metadata: true };
    let v2 = BatchV2::new(txs.clone(), &cfg);
    assert_eq!(v1.digest(), v2.digest());

    let expected = fastcrypto::hash::Blake2b256::digest(b"hello world").digest;
    assert_eq!(v1.digest().0, expected);
    assert_ne!(v1.digest().0[..], b"hello world"[..]);
}

#[test]
fn metadata_accessors_roundtrip() {
    let mut m = VersionedMetadata::V1(MetadataV1 { created_at: 7, received_at: None });
    assert_eq!(m.created_at(), 7);
    assert_eq!(m.received_at(), None);
    m.set_created_at(9);
    m.set_received_at(11);
    assert_eq!(m.created_at(), 9);
    assert_eq!(m.received_at(), Some(11));
}

#[test]
fn digest_displays_as_base64() {
    let d = narwhal_types::crypto::BatchDigest::new([0u8; 32]);
    let rendered = d.to_base64();
    assert_eq!(rendered.len(), 44);
    assert_eq!(rendered, format!("{}=", "A".repeat(43)));
}
