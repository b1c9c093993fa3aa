//! The wire encoding primitives: exact bytes and round trips.

use melodot_da::codec::encode_u32;
use melodot_da::codec::encode_u32_be;
use melodot_da::codec::encode_compact;
use melodot_da::codec::encode_bool;
use melodot_da::codec::decode_u32;
use melodot_da::codec::decode_compact;
use melodot_da::codec::decode_bool;
use melodot_da::codec::decode_raw;
use melodot_da::store::MockDb;
use melodot_da::store::DasKv;
use melodot_da::store::prefixed_key;

#[test]
fn u32_little_and_big_endian() {
    let mut out = Vec::new();
    encode_u32(&mut out, 0x01020304);
    assert_eq!(out, vec![4, 3, 2, 1]);
    let (v, next) = decode_u32(&out, 0).unwrap();
    assert_eq!(v, 0x01020304);
    assert_eq!(next, 4);
    assert!(decode_u32(&out, 1).is_none());

    let mut be = Vec::new();
    encode_u32_be(&mut be, 0x01020304);
    assert_eq!(be, vec![1, 2, 3, 4]);
}

#[test]
fn compact_forms() {
    // one byte
    let mut a = Vec::new();
    encode_compact(&mut a, 0);
    assert_eq!(a, vec![0]);
    let mut b = Vec::new();
    encode_compact(&mut b, 63);
    assert_eq!(b, vec![252]);
    // two bytes
    let mut c = Vec::new();
    encode_compact(&mut c, 64);
    assert_eq!(c, vec![1, 1]);
    // four bytes
    let mut d = Vec::new();
    encode_compact(&mut d, 16384);
    assert_eq!(d, vec![2, 0, 1, 0]);
    // five bytes
    let mut e = Vec::new();
    encode_compact(&mut e, 1073741824);
    assert_eq!(e, vec![3, 0, 0, 0, 64]);

    for v in [0u32, 1, 63, 64, 16383, 16384, 1073741823, 1073741824, u32::MAX] {
        let mut out = Vec::new();
        encode_compact(&mut out, v);
        let (back, used) = decode_compact(&out, 0).unwrap();
        assert_eq!(back, v);
        assert_eq!(used, out.len());
    }
}

#[test]
fn bool_bytes() {
    let mut out = Vec::new();
    encode_bool(&mut out, true);
    encode_bool(&mut out, false);
    assert_eq!(out, vec![1, 0]);
    assert_eq!(decode_bool(&out, 0), Some((true, 1)));
    assert_eq!(decode_bool(&out, 1), Some((false, 2)));
    assert!(decode_bool(&[7u8], 0).is_none());
}

#[test]
fn raw_slices() {
    let bytes = vec![1u8, 2, 3, 4, 5];
    let (part, next) = decode_raw(&bytes, 1, 3).unwrap();
    assert_eq!(part, vec![2, 3, 4]);
    assert_eq!(next, 4);
    assert!(decode_raw(&bytes, 3, 3).is_none());
}

#[test]
fn store_is_per_key() {
    let mut db = MockDb::new();
    db.set(b"alpha", b"1");
    db.set(b"beta", b"2");
    db.set(b"alpha", b"3");
    assert_eq!(db.get(b"alpha"), Some(b"3".to_vec()));
    assert_eq!(db.get(b"beta"), Some(b"2".to_vec()));
    assert!(db.contains(b"beta"));
    db.remove(b"beta");
    assert!(!db.contains(b"beta"));
    assert_eq!(db.get(b"alpha"), Some(b"3".to_vec()));
}

#[test]
fn storage_prefixes_concatenate() {
    assert_eq!(prefixed_key(b"conf/", b"id"), b"conf/id".to_vec());
}
