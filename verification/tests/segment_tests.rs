//! Segments of the extended blob: construction, proofs, ordering and
//! recovery.

use melodot_da::kzg::Blob;
use melodot_da::kzg::KZG;
use melodot_da::kzg::BlsScalar;
use melodot_da::kzg::KZGProof;
use melodot_da::kzg::Position;
use melodot_da::segment::Segment;
use melodot_da::segment::SegmentData;
use melodot_da::segment::blob_to_segment_vec;
use melodot_da::segment::order_segments_row;
use melodot_da::segment::order_segments_col;
use melodot_da::segment::segment_datas_to_row;
use melodot_da::segment::recover_row;
use melodot_da::BYTES_PER_BLOB;
use melodot_da::CHUNK_COUNT;
use melodot_da::SEGMENT_LENGTH;

fn sample_blob(seed: u8) -> Blob {
    let mut bytes = vec![0u8; BYTES_PER_BLOB];
    for i in 0..BYTES_PER_BLOB {
        bytes[i] = if i % 32 == 0 { 0 } else { (i % 249) as u8 ^ seed };
    }
    Blob::try_from_bytes(&bytes).unwrap()
}

fn dummy_segment(x: u32, y: u32) -> Segment {
    let mut data = Vec::new();
    for i in 0..SEGMENT_LENGTH {
        let mut b = vec![0u8; 32];
        b[31] = (i % 251) as u8;
        data.push(BlsScalar { bytes: b });
    }
    Segment {
        position: Position { x, y },
        content: SegmentData { data, proof: KZGProof { bytes: vec![1; 48] } },
    }
}

#[test]
fn segments_carry_the_blob_and_verify() {
    let kzg = KZG::default_embedded();
    let blob = sample_blob(1);
    let commitment = blob.commit(&kzg).unwrap();
    let segments = blob_to_segment_vec(&blob, &kzg, 4).unwrap();
    assert_eq!(segments.len(), CHUNK_COUNT);

    // the first half of the row carries the blob's own bytes
    let blob_bytes = blob.to_bytes();
    for i in 0..CHUNK_COUNT / 2 {
        for j in 0..SEGMENT_LENGTH {
            let lane = &blob_bytes[i * 2048 + j * 32..i * 2048 + j * 32 + 32];
            assert_eq!(&segments[i].content.data[j].bytes[..], lane);
        }
    }

    // the extension half actually extends: it is not a copy of the data
    let mut first_half = Vec::new();
    let mut second_half = Vec::new();
    for j in 0..SEGMENT_LENGTH {
        first_half.push(segments[0].content.data[j].bytes.clone());
        second_half.push(segments[64].content.data[j].bytes.clone());
    }
    assert!(first_half != second_half);

    // positions are set, and each sampled segment's proof opens
    for i in [0usize, 1, 63, 64, 127] {
        assert_eq!(segments[i].position, Position { x: i as u32, y: 4 });
        let ok = segments[i].verify(&kzg, &commitment, CHUNK_COUNT).unwrap();
        assert!(ok, "segment {} failed to verify", i);
    }

    // a tampered segment fails to verify
    let mut bad = Segment {
        position: segments[0].position,
        content: SegmentData {
            data: segments[0].content.data.iter().map(|s| BlsScalar { bytes: s.bytes.clone() }).collect(),
            proof: KZGProof { bytes: segments[0].content.proof.bytes.clone() },
        },
    };
    let mut tampered = bad.content.data[0].bytes.clone();
    tampered[31] ^= 1;
    bad.content.data[0] = BlsScalar { bytes: tampered };
    assert!(!bad.verify(&kzg, &commitment, CHUNK_COUNT).unwrap());
}

#[test]
fn any_half_of_a_row_recovers_the_rest() {
    let kzg = KZG::default_embedded();
    let blob = sample_blob(2);
    let segments = blob_to_segment_vec(&blob, &kzg, 0).unwrap();

    // keep an arbitrary half of the cells: every even column plus none other
    let mut row: Vec<Option<SegmentData>> = Vec::new();
    for (i, seg) in segments.iter().enumerate() {
        if i % 2 == 0 {
            row.push(Some(SegmentData {
                data: seg.content.data.iter().map(|s| BlsScalar { bytes: s.bytes.clone() }).collect(),
                proof: KZGProof { bytes: seg.content.proof.bytes.clone() },
            }));
        } else {
            row.push(None);
        }
    }
    let recovered = recover_row(&kzg, &row).unwrap();
    assert_eq!(recovered.len(), CHUNK_COUNT * SEGMENT_LENGTH);
    // the recovered row re-extends to the same cells
    for i in 0..CHUNK_COUNT {
        for j in 0..SEGMENT_LENGTH {
            assert_eq!(
                recovered[i * SEGMENT_LENGTH + j].bytes,
                segments[i].content.data[j].bytes,
                "cell ({}, {}) differs after recovery",
                i,
                j
            );
        }
    }

}

#[test]
fn too_few_cells_do_not_recover() {
    let kzg = KZG::default_embedded();
    let blob = sample_blob(3);
    let segments = blob_to_segment_vec(&blob, &kzg, 0).unwrap();
    let mut row: Vec<Option<SegmentData>> = Vec::new();
    for (i, seg) in segments.iter().enumerate() {
        if i < 10 {
            row.push(Some(SegmentData {
                data: seg.content.data.iter().map(|s| BlsScalar { bytes: s.bytes.clone() }).collect(),
                proof: KZGProof { bytes: seg.content.proof.bytes.clone() },
            }));
        } else {
            row.push(None);
        }
    }
    assert!(recover_row(&kzg, &row).is_err());
}

#[test]
fn ordering_rows_and_columns() {
    let segments = vec![dummy_segment(3, 7), dummy_segment(0, 7), dummy_segment(5, 7)];
    let ordered = order_segments_row(&segments).unwrap();
    assert_eq!(ordered.len(), 2 * 4096);
    assert!(ordered[0].is_some());
    assert!(ordered[3].is_some());
    assert!(ordered[5].is_some());
    assert!(ordered[1].is_none());

    // mixed rows are rejected
    let mixed = vec![dummy_segment(0, 7), dummy_segment(1, 8)];
    assert!(order_segments_row(&mixed).is_err());

    // duplicate columns are rejected
    let dup = vec![dummy_segment(2, 7), dummy_segment(2, 7)];
    assert!(order_segments_row(&dup).is_err());

    // columns order by row index
    let col = vec![dummy_segment(9, 1), dummy_segment(9, 0)];
    let ordered_col = order_segments_col(&col, 4).unwrap();
    assert_eq!(ordered_col.len(), 8);
    assert!(ordered_col[0].is_some());
    assert!(ordered_col[1].is_some());
    assert!(ordered_col[2].is_none());

    // mixed columns are rejected
    let mixed_col = vec![dummy_segment(9, 0), dummy_segment(8, 1)];
    assert!(order_segments_col(&mixed_col, 4).is_err());
}

#[test]
fn flattening_a_row_of_segment_contents() {
    let seg = dummy_segment(0, 0);
    let row = vec![
        Some(SegmentData {
            data: seg.content.data.iter().map(|s| BlsScalar { bytes: s.bytes.clone() }).collect(),
            proof: KZGProof { bytes: seg.content.proof.bytes.clone() },
        }),
        None,
    ];
    let flat = segment_datas_to_row(&row);
    assert_eq!(flat.len(), 2 * SEGMENT_LENGTH);
    for j in 0..SEGMENT_LENGTH {
        assert_eq!(flat[j].as_ref().unwrap().bytes, seg.content.data[j].bytes);
        assert!(flat[SEGMENT_LENGTH + j].is_none());
    }
}
