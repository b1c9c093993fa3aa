//! Pieces: creation, keys, plotting and cell retrieval.

use melodot_da::kzg::BlsScalar;
use melodot_da::kzg::KZGProof;
use melodot_da::kzg::Position;
use melodot_da::segment::Segment;
use melodot_da::segment::SegmentData;
use melodot_da::piece::Piece;
use melodot_da::piece::PieceMetadata;
use melodot_da::piece::PiecePosition;
use melodot_da::piece::CellMetadata;
use melodot_da::farmer::FarmerId;
use melodot_da::farmer::ZValueManager;
use melodot_da::farmer::calculate_x;
use melodot_da::store::DasKv;
use melodot_da::store::MockDb;

/// A well-formed segment whose 64 scalars repeat the given byte.
fn dummy_segment(x: u32, y: u32, fill: u8) -> Segment {
    let mut data = Vec::new();
    for i in 0..64u32 {
        let mut bytes = vec![fill; 32];
        bytes[0] = 0; // keep the scalar canonical
        bytes[31] = (i % 251) as u8;
        data.push(BlsScalar { bytes });
    }
    Segment {
        position: Position { x, y },
        content: SegmentData { data, proof: KZGProof { bytes: vec![fill; 48] } },
    }
}

/// A segment whose first two scalars are equal, so their X values
/// collide for every farmer.
fn colliding_segment() -> Segment {
    let mut seg = dummy_segment(0, 0, 5);
    seg.content.data[1] = BlsScalar { bytes: seg.content.data[0].bytes.clone() };
    seg
}

#[test]
fn test_piece_creation_and_key() {
    let block_num = 123;
    let position = PiecePosition::Row(1);
    let segment = dummy_segment(0, 0, 1);
    let piece = Piece::new(block_num, position, &[segment]);

    assert_eq!(piece.metadata.block_num, block_num);
    assert_eq!(piece.metadata.pos, position);
    assert!(piece.segments.len() == 1);

    let key = piece.key();
    assert!(!key.is_empty());
}

#[test]
fn test_piece_position() {
    let row_pos = PiecePosition::Row(10);
    assert_eq!(row_pos.to_u32(), 10);

    let col_pos = PiecePosition::Column(20);
    assert_eq!(col_pos.to_u32(), 20);

    let position = Position { x: 5, y: 15 };
    let row_position = PiecePosition::from_row(&position);
    assert_eq!(row_position, PiecePosition::Row(5));

    let col_position = PiecePosition::from_column(&position);
    assert_eq!(col_position, PiecePosition::Column(15));
}

#[test]
fn test_piece_save() {
    let mut db = MockDb::new();
    let block_num = 123;
    let position = PiecePosition::Row(1);
    let segment = dummy_segment(0, 0, 2);
    let piece = Piece::new(block_num, position, &[segment]);

    let farmer_id = FarmerId::default();

    assert!(piece.save(&mut db, &farmer_id).is_ok());

    let key = piece.key();
    assert!(db.contains(&key));

    if let Some(encoded_data) = db.get(&key) {
        let decoded_piece = Piece::decode(&encoded_data).expect("Decode error");
        assert_eq!(decoded_piece.metadata, piece.metadata);
        assert_eq!(decoded_piece.segments.len(), piece.segments.len());
        for i in 0..piece.segments.len() {
            assert_eq!(decoded_piece.segments[i].position, piece.segments[i].position);
            assert_eq!(
                decoded_piece.segments[i].content.proof.bytes,
                piece.segments[i].content.proof.bytes
            );
            for j in 0..64 {
                assert_eq!(
                    decoded_piece.segments[i].content.data[j].bytes,
                    piece.segments[i].content.data[j].bytes
                );
            }
        }
    } else {
        panic!("Piece not found in database");
    }
}

#[test]
fn piece_save_then_get_cell_returns_original() {
    let mut db = MockDb::new();
    let piece = Piece::new(9, PiecePosition::Row(0), &[dummy_segment(0, 0, 3), dummy_segment(1, 0, 4)]);
    let farmer_id = FarmerId::new(b"account-one");
    piece.save(&mut db, &farmer_id).unwrap();

    for pos in [0u32, 1, 63, 64, 100, 127] {
        let meta = CellMetadata { piece_metadata: piece.metadata, pos };
        let got = Piece::get_cell(&meta, &mut db).unwrap().unwrap();
        let seg = &piece.segments[(pos / 64) as usize];
        assert_eq!(got.0.bytes, seg.content.data[(pos % 64) as usize].bytes);
        assert_eq!(got.1.bytes, seg.content.proof.bytes);
    }

    // a cell outside the piece is absent, not an error
    let outside = CellMetadata { piece_metadata: piece.metadata, pos: 128 };
    assert!(Piece::get_cell(&outside, &mut db).unwrap().is_none());

    // an unknown piece is absent, not an error
    let unknown = CellMetadata {
        piece_metadata: PieceMetadata { block_num: 77, pos: PiecePosition::Column(3) },
        pos: 0,
    };
    assert!(Piece::get_cell(&unknown, &mut db).unwrap().is_none());
}

#[test]
fn plotting_indexes_opposite_collisions() {
    let mut db = MockDb::new();
    let piece = Piece::new(5, PiecePosition::Row(0), &[colliding_segment()]);
    let farmer_id = FarmerId::new(b"collision-farmer");

    // cells 0 and 1 hold the same scalar, so their X values collide
    let s0 = &piece.segments[0].content.data[0];
    let s1 = &piece.segments[0].content.data[1];
    assert_eq!(calculate_x(&farmer_id, s0), calculate_x(&farmer_id, s1));

    piece.save(&mut db, &farmer_id).unwrap();

    // after plotting, the Z entry binding (cell 0 as left, cell 1 as
    // right) exists: cell 1 is processed second, finds cell 0 in its
    // X bucket, and materialises the pair with itself on the right
    let left = CellMetadata { piece_metadata: piece.metadata, pos: 0 };
    let right = CellMetadata { piece_metadata: piece.metadata, pos: 1 };
    let z = ZValueManager::new(&left, &right, s0, s1);
    let z_key = z.key();
    assert!(db.contains(&z_key));

    // cells with distinct scalars produced no such pair
    let other = CellMetadata { piece_metadata: piece.metadata, pos: 2 };
    let s2 = &piece.segments[0].content.data[2];
    let no_z = ZValueManager::new(&left, &other, s0, s2);
    assert!(!db.contains(&no_z.key()));
}
