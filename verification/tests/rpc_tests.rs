//! The submission endpoint's decisions, and sidecar handling.

use melodot_da::rpc::build_blob_tx_status;
use melodot_da::rpc::validate_blob_tx_params;
use melodot_da::rpc::DasRpcError;
use melodot_da::sidecar::Sidecar;
use melodot_da::sidecar::SidecarMetadata;
use melodot_da::sidecar::SidecarStatus;
use melodot_da::sidecar::bytes_to_blobs;
use melodot_da::sidecar::kademlia_key_from_sidecar_id;
use melodot_da::sidecar::process_tx_metadata;
use melodot_da::kzg::KZGCommitment;
use melodot_da::kzg::KZGProof;
use melodot_da::store::DasKv;
use melodot_da::store::MockDb;

/// A 128-byte payload of four canonical scalars.
fn payload() -> Vec<u8> {
    let mut data = vec![0u8; 128];
    for i in 0..128 {
        data[i] = if i % 32 == 0 { 0 } else { i as u8 };
    }
    data
}

fn metadata_for(data: &[u8]) -> SidecarMetadata {
    SidecarMetadata {
        data_len: data.len() as u32,
        blobs_hash: SidecarMetadata::calculate_id(data),
        commitments: vec![KZGCommitment { bytes: vec![7u8; 48] }],
        proofs: vec![KZGProof { bytes: vec![8u8; 48] }],
    }
}

#[test]
fn valid_submission_passes_validation() {
    let data = payload();
    let hash = SidecarMetadata::calculate_id(&data);
    assert_eq!(validate_blob_tx_params(&data, 128, &hash), Ok(()));
    let status = build_blob_tx_status(&[0xab; 32], Ok(true), true);
    assert!(!status.tx_hash.is_empty());
    assert!(status.err.is_none());
}

#[test]
fn wrong_length_or_hash_is_rejected() {
    let data = payload();
    let hash = SidecarMetadata::calculate_id(&data);
    assert_eq!(
        validate_blob_tx_params(&data, 121, &hash),
        Err(DasRpcError::DataLengthOrHashError)
    );
    let mut wrong = hash.clone();
    wrong[0] ^= 1;
    assert_eq!(
        validate_blob_tx_params(&data, 128, &wrong),
        Err(DasRpcError::DataLengthOrHashError)
    );
}

#[test]
fn dht_failure_is_reported_beside_the_accepted_hash() {
    let status = build_blob_tx_status(&[0xcd; 32], Ok(true), false);
    assert_eq!(status.tx_hash, vec![0xcd; 32]);
    assert_eq!(status.err, Some("Failed to put data to DHT network.".to_string()));

    let failed = build_blob_tx_status(&[0xcd; 32], Ok(false), true);
    assert_eq!(
        failed.err,
        Some("Data verification failed. Please check your data and try again.".to_string())
    );

    let errored = build_blob_tx_status(&[0xcd; 32], Err("backend gone".to_string()), true);
    assert_eq!(errored.err, Some("backend gone".to_string()));
}

#[test]
fn payload_chunks_into_one_padded_blob() {
    let data = payload();
    let blobs = bytes_to_blobs(&data).unwrap();
    assert_eq!(blobs.len(), 1);
    let bytes = blobs[0].to_bytes();
    assert_eq!(&bytes[..128], &data[..]);
    assert!(bytes[128..].iter().all(|b| *b == 0));
    // a payload that is not whole scalars is rejected
    assert!(bytes_to_blobs(&data[..100]).is_err());
}

#[test]
fn sidecar_survives_the_store() {
    let mut db = MockDb::new();
    let data = payload();
    let sc = Sidecar {
        blobs: Some(data.clone()),
        metadata: metadata_for(&data),
        status: Some(SidecarStatus::Success),
    };
    sc.save_to_local(&mut db);
    let back = Sidecar::from_local(&sc.metadata.blobs_hash, &mut db).expect("sidecar lost");
    assert_eq!(back.status, Some(SidecarStatus::Success));
    assert_eq!(back.blobs, Some(data));
    assert_eq!(back.metadata.data_len, sc.metadata.data_len);
    assert_eq!(back.metadata.blobs_hash, sc.metadata.blobs_hash);
    assert_eq!(back.metadata.commitments.len(), 1);
    assert_eq!(back.metadata.commitments[0].bytes, vec![7u8; 48]);
    assert_eq!(back.metadata.proofs[0].bytes, vec![8u8; 48]);
}

#[test]
fn listener_creates_then_leaves_sidecars_alone() {
    let mut db = MockDb::new();
    let data = payload();
    let metadata = metadata_for(&data);

    // first observation: a fresh sidecar is stored and a fetch is due
    assert!(process_tx_metadata(&metadata, &mut db));
    let stored = Sidecar::from_local(&metadata.blobs_hash, &mut db).unwrap();
    assert!(stored.status.is_none());
    assert!(stored.blobs.is_none());

    // second observation: still unsettled, fetch again but store nothing new
    assert!(process_tx_metadata(&metadata, &mut db));

    // once settled, nothing more is asked
    let settled = Sidecar {
        blobs: None,
        metadata: metadata_for(&data),
        status: Some(SidecarStatus::Failed),
    };
    settled.save_to_local(&mut db);
    assert!(!process_tx_metadata(&metadata, &mut db));
}

#[test]
fn data_identifier_is_a_digest() {
    let data = payload();
    let id = SidecarMetadata::calculate_id(&data);
    assert_eq!(id.len(), 32);
    // the digest is not the data itself, and it is deterministic
    assert!(id != data[..32].to_vec());
    assert_eq!(id, SidecarMetadata::calculate_id(&data));
    let mut other = data.clone();
    other[5] ^= 1;
    assert!(id != SidecarMetadata::calculate_id(&other));
}

#[test]
fn network_key_is_the_sidecar_id() {
    let id = vec![1u8, 2, 3, 4];
    assert_eq!(kademlia_key_from_sidecar_id(&id), id);
}

#[test]
fn verify_bytes_rejects_mismatched_data() {
    let data = payload();
    let metadata = metadata_for(&data);
    let mut other = data.clone();
    other[1] ^= 1;
    // wrong bytes for the declared hash: unavailable, not an error
    assert_eq!(metadata.verify_bytes(&other), Ok(false));
    // right bytes but junk commitments: the backend rejects them
    let r = metadata.verify_bytes(&data);
    assert!(r.is_err() || r == Ok(false));
}
