//! Sampling and the confidence value.

use melodot_da::confidence::Confidence;
use melodot_da::confidence::ConfidenceId;
use melodot_da::confidence::ConfidenceSample;
use melodot_da::confidence::Sample;
use melodot_da::confidence::calculate_confidence;
use melodot_da::confidence::ONE_PPM;
use melodot_da::kzg::KZGCommitment;
use melodot_da::kzg::Position;
use melodot_da::segment::Segment;
use melodot_da::segment::SegmentData;
use melodot_da::kzg::BlsScalar;
use melodot_da::kzg::KZGProof;
use melodot_da::store::DasKv;
use melodot_da::store::MockDb;
use melodot_da::SAMPLES_PER_BLOB;

fn commitments(n: usize) -> Vec<KZGCommitment> {
    let mut out = Vec::new();
    for i in 0..n {
        out.push(KZGCommitment { bytes: vec![i as u8; 48] });
    }
    out
}

#[test]
fn confidence_formula_exact_values() {
    // 1 - 0.5^k in parts per million
    assert_eq!(calculate_confidence(0, 500000), 0);
    assert_eq!(calculate_confidence(1, 500000), 500000);
    assert_eq!(calculate_confidence(2, 500000), 750000);
    assert_eq!(calculate_confidence(4, 500000), 937500);
    // a zero base factor leaves no doubt after one sample
    assert_eq!(calculate_confidence(1, 0), ONE_PPM);
}

#[test]
fn four_verified_samples_exceed_the_threshold() {
    let mut c = Confidence::new(commitments(2));
    c.set_sample(4);
    assert_eq!(c.value(500000), 0);
    let positions: Vec<Position> = c.samples.iter().map(|s| s.position).collect();
    let mut last = 0u32;
    for p in positions {
        c.set_sample_success(p);
        let v = c.value(500000);
        assert!(v >= last, "confidence value decreased");
        last = v;
    }
    assert_eq!(c.value(500000), 937500);
    assert!(c.exceeds_threshold(500000, 800000));
    assert!(!c.exceeds_threshold(500000, 950000));
}

#[test]
fn sampling_draws_distinct_positions_in_range() {
    let mut c = Confidence::new(commitments(3));
    c.set_sample(24);
    assert_eq!(c.samples.len(), 24);
    for s in c.samples.iter() {
        assert!(!s.is_availability);
        assert!((s.position.x as usize) < SAMPLES_PER_BLOB);
        assert!((s.position.y as usize) < 3);
    }
    for i in 0..c.samples.len() {
        for j in i + 1..c.samples.len() {
            assert!(c.samples[i].position != c.samples[j].position);
        }
    }
}

#[test]
fn confidence_survives_the_store() {
    let mut db = MockDb::new();
    let mut c = Confidence::new(commitments(2));
    c.set_sample(3);
    c.set_sample_success(c.samples[0].position);
    let id = ConfidenceId::block_confidence(vec![9u8; 32]);
    c.save(&id, &mut db);

    let back = Confidence::get(&id, &mut db).expect("confidence record lost");
    assert_eq!(back.samples.len(), c.samples.len());
    for i in 0..c.samples.len() {
        assert_eq!(back.samples[i].position, c.samples[i].position);
        assert_eq!(back.samples[i].is_availability, c.samples[i].is_availability);
    }
    assert_eq!(back.commitments.len(), 2);
    for i in 0..2 {
        assert_eq!(back.commitments[i].bytes, c.commitments[i].bytes);
    }

    c.remove(&id, &mut db);
    assert!(Confidence::get(&id, &mut db).is_none());
}

#[test]
fn sample_key_layout() {
    let s = Sample { position: Position { x: 1, y: 2 }, is_availability: false };
    let key = s.key(3, 0x01020304);
    // block number little-endian, app id big-endian, then the position
    assert_eq!(
        key,
        vec![3, 0, 0, 0, 1, 2, 3, 4, 1, 0, 0, 0, 2, 0, 0, 0]
    );
}

#[test]
fn out_of_snapshot_row_reports_unavailable() {
    let c = Confidence::new(commitments(1));
    let segment = Segment {
        position: Position { x: 0, y: 5 },
        content: SegmentData {
            data: vec![BlsScalar { bytes: vec![0u8; 32] }],
            proof: KZGProof { bytes: vec![0u8; 48] },
        },
    };
    let r = c.verify_sample(Position { x: 0, y: 5 }, &segment);
    assert_eq!(r, Ok(false));
}

#[test]
fn app_confidence_id_appends_block_number() {
    let id = ConfidenceId::app_confidence(7, vec![1, 2]);
    assert_eq!(id.0, vec![1, 2, 7, 0, 0, 0]);
}
