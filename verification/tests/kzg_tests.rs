//! Scalars and blobs: canonicity, round trips, commitment stability.

use melodot_da::kzg::Blob;
use melodot_da::kzg::BlsScalar;
use melodot_da::kzg::KZG;
use melodot_da::kzg::check_scalar_in_field;
use melodot_da::BYTES_PER_BLOB;

/// A full-length byte string whose every 32-byte lane is canonical: the
/// first byte of each lane is zero.
fn sample_blob_bytes(seed: u8) -> Vec<u8> {
    let mut bytes = vec![0u8; BYTES_PER_BLOB];
    for i in 0..BYTES_PER_BLOB {
        bytes[i] = if i % 32 == 0 { 0 } else { (i % 251) as u8 ^ seed };
    }
    bytes
}

#[test]
fn blob_round_trip_exact_length() {
    let bytes = sample_blob_bytes(7);
    let blob = Blob::try_from_bytes(&bytes).unwrap();
    assert_eq!(blob.to_bytes(), bytes);
    let again = Blob::try_from_bytes(&blob.to_bytes()).unwrap();
    assert_eq!(again.to_bytes(), blob.to_bytes());
}

#[test]
fn blob_rejects_wrong_length() {
    assert!(Blob::try_from_bytes(&[0u8; 64]).is_err());
    let long = vec![0u8; BYTES_PER_BLOB + 32];
    assert!(Blob::try_from_bytes(&long).is_err());
}

#[test]
fn blob_pad_fills_with_zeroes() {
    let mut short = vec![0u8; 64];
    short[1] = 9;
    let blob = Blob::try_from_bytes_pad(&short).unwrap();
    let bytes = blob.to_bytes();
    assert_eq!(bytes.len(), BYTES_PER_BLOB);
    assert_eq!(&bytes[..64], &short[..]);
    assert!(bytes[64..].iter().all(|b| *b == 0));
    // a partial scalar lane is rejected
    assert!(Blob::try_from_bytes_pad(&[0u8; 33]).is_err());
}

#[test]
fn scalar_canonicity_is_the_modulus_bound() {
    // big-endian bytes of the scalar field modulus
    let modulus: [u8; 32] = [
        0x73, 0xed, 0xa7, 0x53, 0x29, 0x9d, 0x7d, 0x48, 0x33, 0x39, 0xd8, 0x08, 0x09, 0xa1, 0xd8,
        0x05, 0x53, 0xbd, 0xa4, 0x02, 0xff, 0xfe, 0x5b, 0xfe, 0xff, 0xff, 0xff, 0xff, 0x00, 0x00,
        0x00, 0x01,
    ];
    assert!(!check_scalar_in_field(&modulus));
    let mut below = modulus;
    below[31] = 0x00;
    assert!(check_scalar_in_field(&below));
    assert!(check_scalar_in_field(&[0u8; 32]));
    assert!(!check_scalar_in_field(&[0xffu8; 32]));
    assert!(!check_scalar_in_field(&[0u8; 31]));
    assert!(BlsScalar::try_from_bytes(&below).is_ok());
    assert!(BlsScalar::try_from_bytes(&modulus).is_err());
}

#[test]
fn scalar_from_safe_bytes_pads_left() {
    let s = BlsScalar::from_safe_bytes(&[1u8; 31]);
    let b = s.to_bytes();
    assert_eq!(b.len(), 32);
    assert_eq!(b[0], 0);
    assert!(b[1..].iter().all(|x| *x == 1));
}

#[test]
fn commitment_is_deterministic() {
    let kzg = KZG::default_embedded();
    let bytes = sample_blob_bytes(3);
    let blob1 = Blob::try_from_bytes(&bytes).unwrap();
    let blob2 = Blob::try_from_bytes(&bytes).unwrap();
    let c1 = blob1.commit(&kzg).unwrap();
    let c2 = blob2.commit(&kzg).unwrap();
    assert_eq!(c1.to_bytes(), c2.to_bytes());
    // a different blob commits differently
    let other = Blob::try_from_bytes(&sample_blob_bytes(4)).unwrap();
    let c3 = other.commit(&kzg).unwrap();
    assert_ne!(c1.to_bytes(), c3.to_bytes());
}

#[test]
fn single_opening_round_trip() {
    let kzg = KZG::default_embedded();
    let blob = Blob::try_from_bytes(&sample_blob_bytes(9)).unwrap();
    let commitment = blob.commit(&kzg).unwrap();
    let mut zb = vec![0u8; 32];
    zb[31] = 5;
    let z = BlsScalar::try_from_bytes(&zb).unwrap();
    let (proof, y) = kzg.compute_proof(&blob, &z).unwrap();
    assert!(kzg.verify(&commitment, &z, &y, &proof).unwrap());
    // a wrong claimed evaluation does not verify
    let mut wrong = y.to_bytes();
    wrong[31] ^= 1;
    let bad_y = BlsScalar::try_from_bytes(&wrong).unwrap();
    assert!(!kzg.verify(&commitment, &z, &bad_y, &proof).unwrap());
}

#[test]
fn blob_proof_round_trip() {
    let kzg = KZG::default_embedded();
    let blob = Blob::try_from_bytes(&sample_blob_bytes(5)).unwrap();
    let commitment = blob.commit(&kzg).unwrap();
    let proof = kzg.compute_blob_proof(&blob, &commitment).unwrap();
    assert!(kzg.verify_blob_proof(&blob, &commitment, &proof).unwrap());
    let batch = kzg
        .verify_blobs_proof_batch(&vec![commitment], &vec![proof], &vec![blob])
        .unwrap();
    assert!(batch);
}
