//! Farmer claims: valid solutions, forgeries, and the per-block bounds.

use melodot_da::kzg::Blob;
use melodot_da::kzg::KZG;
use melodot_da::kzg::BlsScalar;
use melodot_da::kzg::KZGCommitment;
use melodot_da::segment::Segment;
use melodot_da::piece::CellMetadata;
use melodot_da::piece::PieceMetadata;
use melodot_da::piece::PiecePosition;
use melodot_da::claim::check_claim;
use melodot_da::claim::ClaimError;
use melodot_da::claim::FarmerCell;
use melodot_da::claim::PreCell;
use melodot_da::claim::Solution;
use melodot_da::farmer::FarmerId;
use melodot_da::BYTES_PER_BLOB;
use melodot_da::CHUNK_COUNT;

/// A blob whose first two scalar lanes are equal, so cells 0 and 1 of
/// segment 0 collide on X for every farmer.
fn colliding_blob() -> Blob {
    let mut bytes = vec![0u8; BYTES_PER_BLOB];
    for i in 0..BYTES_PER_BLOB {
        bytes[i] = if i % 32 == 0 { 0 } else { (i % 247) as u8 };
    }
    for i in 0..32 {
        bytes[32 + i] = bytes[i];
    }
    Blob::try_from_bytes(&bytes).unwrap()
}

struct Setup {
    kzg: KZG,
    commitment: KZGCommitment,
    pre_cell: PreCell,
    win_left: FarmerCell,
    win_right: FarmerCell,
}

fn claim_setup() -> Setup {
    let kzg = KZG::default_embedded();
    let blob = colliding_blob();
    let commitment = blob.commit(&kzg).unwrap();
    let segments = melodot_da::segment::blob_to_segment_vec(&blob, &kzg, 0).unwrap();
    let piece_metadata = PieceMetadata { block_num: 41, pos: PiecePosition::Row(0) };
    let seg0 = &segments[0];
    let clone_seg = |s: &Segment| Segment {
        position: s.position,
        content: melodot_da::segment::SegmentData {
            data: s.content.data.iter().map(|x| BlsScalar { bytes: x.bytes.clone() }).collect(),
            proof: melodot_da::kzg::KZGProof { bytes: s.content.proof.bytes.clone() },
        },
    };
    Setup {
        pre_cell: PreCell {
            metadata: CellMetadata { piece_metadata, pos: 130 },
            seg: clone_seg(&segments[2]),
        },
        win_left: FarmerCell {
            metadata: CellMetadata { piece_metadata, pos: 0 },
            seg: clone_seg(seg0),
        },
        win_right: FarmerCell {
            metadata: CellMetadata { piece_metadata, pos: 1 },
            seg: clone_seg(seg0),
        },
        kzg,
        commitment,
    }
}

#[test]
fn genuine_partners_verify() {
    let s = claim_setup();
    let farmer = FarmerId::new(b"winner");
    let solution = Solution::new(&[7u8; 32], &farmer, &s.pre_cell, &s.win_left, &s.win_right);
    assert!(solution.verify(
        &s.kzg,
        &s.commitment,
        &s.commitment,
        &s.commitment,
        &[1u8; 32],
        &[2u8; 32],
        0,
        u32::MAX,
    ));
}

#[test]
fn corrupted_scalar_invalidates_the_solution() {
    let s = claim_setup();
    let farmer = FarmerId::new(b"winner");
    let mut right = s.win_right;
    let mut tampered = right.seg.content.data[1].bytes.clone();
    tampered[31] ^= 0x5a;
    right.seg.content.data[1] = BlsScalar { bytes: tampered };
    let solution = Solution::new(&[7u8; 32], &farmer, &s.pre_cell, &s.win_left, &right);
    assert!(!solution.verify(
        &s.kzg,
        &s.commitment,
        &s.commitment,
        &s.commitment,
        &[1u8; 32],
        &[2u8; 32],
        0,
        u32::MAX,
    ));
}

#[test]
fn fabricated_cell_is_rejected_by_the_chain() {
    let s = claim_setup();
    let mut right = s.win_right;
    let mut tampered = right.seg.content.data[1].bytes.clone();
    tampered[30] ^= 0x11;
    right.seg.content.data[1] = BlsScalar { bytes: tampered };
    let mut claimants: Vec<Vec<u8>> = Vec::new();
    let r = check_claim(
        &s.kzg,
        &mut claimants,
        b"acct-1",
        4,
        10,
        &[7u8; 32],
        Some(&s.commitment),
        Some(&s.commitment),
        Some(&s.commitment),
        &[1u8; 32],
        &[2u8; 32],
        &s.pre_cell,
        &s.win_left,
        &right,
        0,
        u32::MAX,
    );
    assert_eq!(r, Err(ClaimError::InvalidSolution));
    assert!(claimants.is_empty());
}

#[test]
fn claims_accepted_until_the_block_is_full() {
    let s = claim_setup();
    let mut claimants: Vec<Vec<u8>> = Vec::new();
    let mut submit = |claimants: &mut Vec<Vec<u8>>, who: &[u8]| {
        check_claim(
            &s.kzg,
            claimants,
            who,
            2,
            10,
            &[7u8; 32],
            Some(&s.commitment),
            Some(&s.commitment),
            Some(&s.commitment),
            &[1u8; 32],
            &[2u8; 32],
            &s.pre_cell,
            &s.win_left,
            &s.win_right,
            0,
            u32::MAX,
        )
    };
    assert_eq!(submit(&mut claimants, b"acct-1"), Ok(()));
    assert_eq!(submit(&mut claimants, b"acct-2"), Ok(()));
    assert_eq!(claimants.len(), 2);
    assert_eq!(submit(&mut claimants, b"acct-3"), Err(ClaimError::MaxClaimantsReached));
    assert_eq!(claimants.len(), 2);
}

#[test]
fn one_claim_per_account_per_block() {
    let s = claim_setup();
    let mut claimants: Vec<Vec<u8>> = Vec::new();
    let mut submit = |claimants: &mut Vec<Vec<u8>>, who: &[u8]| {
        check_claim(
            &s.kzg,
            claimants,
            who,
            8,
            10,
            &[7u8; 32],
            Some(&s.commitment),
            Some(&s.commitment),
            Some(&s.commitment),
            &[1u8; 32],
            &[2u8; 32],
            &s.pre_cell,
            &s.win_left,
            &s.win_right,
            0,
            u32::MAX,
        )
    };
    assert_eq!(submit(&mut claimants, b"acct-1"), Ok(()));
    assert_eq!(submit(&mut claimants, b"acct-1"), Err(ClaimError::AlreadyClaimed));
}

#[test]
fn missing_context_maps_to_the_right_errors() {
    let s = claim_setup();
    let mut claimants: Vec<Vec<u8>> = Vec::new();
    let base = |claimants: &mut Vec<Vec<u8>>,
                now: u32,
                pre: Option<&KZGCommitment>,
                left: Option<&KZGCommitment>| {
        check_claim(
            &s.kzg,
            claimants,
            b"acct-9",
            8,
            now,
            &[7u8; 32],
            pre,
            left,
            Some(&s.commitment),
            &[1u8; 32],
            &[2u8; 32],
            &s.pre_cell,
            &s.win_left,
            &s.win_right,
            0,
            u32::MAX,
        )
    };
    assert_eq!(
        base(&mut claimants, 0, Some(&s.commitment), Some(&s.commitment)),
        Err(ClaimError::BlockNumberUnderflow)
    );
    assert_eq!(base(&mut claimants, 5, None, Some(&s.commitment)), Err(ClaimError::PreCommitNotFound));
    assert_eq!(
        base(&mut claimants, 5, Some(&s.commitment), None),
        Err(ClaimError::WinCommitNotFound)
    );
}

#[test]
fn difficulty_gates_the_claim() {
    let s = claim_setup();
    let farmer = FarmerId::new(b"winner");
    let solution = Solution::new(&[7u8; 32], &farmer, &s.pre_cell, &s.win_left, &s.win_right);
    // an impossible leading-zero demand rejects the same witness
    assert!(!solution.verify(
        &s.kzg,
        &s.commitment,
        &s.commitment,
        &s.commitment,
        &[1u8; 32],
        &[2u8; 32],
        256,
        u32::MAX,
    ));
    // an impossible secondary target rejects it too
    assert!(!solution.verify(
        &s.kzg,
        &s.commitment,
        &s.commitment,
        &s.commitment,
        &[1u8; 32],
        &[2u8; 32],
        0,
        0,
    ));
}
