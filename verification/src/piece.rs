//! Pieces: the farmer's plotting unit.
//!
//! A piece is one row or column of a block's segment grid, stored whole
//! under a key derived from its metadata.  Cells inside a piece are
//! addressed by a flat scalar index; the plot indices of the farmer
//! module point back into pieces through `CellMetadata`.

use vstd::prelude::*;
use crate::kzg::BlsScalar;
use crate::kzg::KZGProof;
use crate::kzg::Position;
use crate::segment::Segment;
use crate::segment::SegmentData;
use crate::segment::SegmentView;
use crate::segment::SegmentDataView;
use crate::store::DasKv;

verus! {

/// Scalars per segment when indexing cells inside a piece; equal to the
/// segment width.
pub const FIELD_ELEMENTS_PER_SEGMENT: usize = 64;

/// Which line of the grid a piece covers.
#[derive(Debug, Clone, Copy, PartialEq, Eq, Structural)]
pub enum PiecePosition {
    Row(u32),
    Column(u32),
}

impl PiecePosition {
    /// The line's index, whichever axis it lies on.
    pub fn to_u32(&self) -> (r: u32)
        ensures
            r == self.line_index(),
    {
        match self {
            PiecePosition::Row(row) => *row,
            PiecePosition::Column(column) => *column,
        }
    }

    /// Spec-level line index.
    pub open spec fn line_index(&self) -> u32 {
        match self {
            PiecePosition::Row(row) => *row,
            PiecePosition::Column(column) => *column,
        }
    }

    /// The row through a grid position.
    pub fn from_row(position: &Position) -> (r: Self)
        ensures
            r == PiecePosition::Row(position.x),
    {
        PiecePosition::Row(position.x)
    }

    /// The column through a grid position.
    pub fn from_column(position: &Position) -> (r: Self)
        ensures
            r == PiecePosition::Column(position.y),
    {
        PiecePosition::Column(position.y)
    }
}

impl Default for PiecePosition {
    fn default() -> (r: Self)
        ensures
            r == PiecePosition::Row(0u32),
    {
        PiecePosition::Row(0)
    }
}

/// Identifies one piece: the block it came from and its line.
#[derive(Debug, Clone, Copy, PartialEq, Eq, Structural)]
pub struct PieceMetadata {
    pub block_num: u32,
    pub pos: PiecePosition,
}

/// Identifies one scalar cell within a plotted piece.
#[derive(Debug, Clone, Copy, PartialEq, Eq, Structural)]
pub struct CellMetadata {
    pub piece_metadata: PieceMetadata,
    pub pos: u32,
}

// ---------------------------------------------------------------------
// Wire encodings of the piece types.
// ---------------------------------------------------------------------

/// Nine bytes: the block number, the axis tag, and the line index.
pub open spec fn spec_enc_piece_metadata(m: PieceMetadata) -> Seq<u8> {
    crate::codec::spec_enc_u32(m.block_num) + seq![
        (match m.pos {
            PiecePosition::Row(_) => 0u8,
            PiecePosition::Column(_) => 1u8,
        }),
    ] + crate::codec::spec_enc_u32(m.pos.line_index())
}

pub open spec fn spec_piece_metadata_block_ok(b: Seq<u8>) -> bool {
    b[4] == 0u8 || b[4] == 1u8
}

pub open spec fn spec_piece_metadata_of_block(b: Seq<u8>) -> PieceMetadata {
    PieceMetadata {
        block_num: crate::codec::spec_dec_u32_val(b.subrange(0, 4)),
        pos: if b[4] == 0u8 {
            PiecePosition::Row(crate::codec::spec_dec_u32_val(b.subrange(5, 9)))
        } else {
            PiecePosition::Column(crate::codec::spec_dec_u32_val(b.subrange(5, 9)))
        },
    }
}

pub proof fn lemma_piece_metadata_round_trip(m: PieceMetadata)
    ensures
        spec_enc_piece_metadata(m).len() == 9,
        spec_piece_metadata_block_ok(spec_enc_piece_metadata(m)),
        spec_piece_metadata_of_block(spec_enc_piece_metadata(m)) == m,
{
    let b = spec_enc_piece_metadata(m);
    crate::codec::lemma_u32_round_trip(m.block_num);
    crate::codec::lemma_u32_round_trip(m.pos.line_index());
    assert(b.subrange(0, 4) =~= crate::codec::spec_enc_u32(m.block_num));
    assert(b.subrange(5, 9) =~= crate::codec::spec_enc_u32(m.pos.line_index()));
}

/// Thirteen bytes: the piece metadata and the cell's flat index.
pub open spec fn spec_enc_cell_metadata(c: CellMetadata) -> Seq<u8> {
    spec_enc_piece_metadata(c.piece_metadata) + crate::codec::spec_enc_u32(c.pos)
}

pub open spec fn spec_cell_metadata_block_ok(b: Seq<u8>) -> bool {
    spec_piece_metadata_block_ok(b.subrange(0, 9))
}

pub open spec fn spec_cell_metadata_of_block(b: Seq<u8>) -> CellMetadata {
    CellMetadata {
        piece_metadata: spec_piece_metadata_of_block(b.subrange(0, 9)),
        pos: crate::codec::spec_dec_u32_val(b.subrange(9, 13)),
    }
}

pub proof fn lemma_cell_metadata_round_trip(c: CellMetadata)
    ensures
        spec_enc_cell_metadata(c).len() == 13,
        spec_cell_metadata_block_ok(spec_enc_cell_metadata(c)),
        spec_cell_metadata_of_block(spec_enc_cell_metadata(c)) == c,
{
    let b = spec_enc_cell_metadata(c);
    lemma_piece_metadata_round_trip(c.piece_metadata);
    crate::codec::lemma_u32_round_trip(c.pos);
    assert(b.subrange(0, 9) =~= spec_enc_piece_metadata(c.piece_metadata));
    assert(b.subrange(9, 13) =~= crate::codec::spec_enc_u32(c.pos));
}

/// Appends the nine metadata bytes.
pub fn encode_piece_metadata(out: &mut Vec<u8>, m: &PieceMetadata)
    ensures
        final(out)@ == old(out)@ + spec_enc_piece_metadata(*m),
{
    crate::codec::encode_u32(out, m.block_num);
    match m.pos {
        PiecePosition::Row(_) => out.push(0u8),
        PiecePosition::Column(_) => out.push(1u8),
    }
    crate::codec::encode_u32(out, m.pos.to_u32());
    assert(out@ =~= old(out)@ + spec_enc_piece_metadata(*m));
}

/// Appends the thirteen cell-metadata bytes.
pub fn encode_cell_metadata(out: &mut Vec<u8>, c: &CellMetadata)
    ensures
        final(out)@ == old(out)@ + spec_enc_cell_metadata(*c),
{
    encode_piece_metadata(out, &c.piece_metadata);
    crate::codec::encode_u32(out, c.pos);
    assert(out@ =~= old(out)@ + spec_enc_cell_metadata(*c));
}

/// Reads one cell metadata from a thirteen-byte block.
pub fn decode_cell_metadata_block(b: &[u8]) -> (r: Option<CellMetadata>)
    requires
        b@.len() == 13,
    ensures
        r is Some <==> spec_cell_metadata_block_ok(b@),
        r matches Some(c) ==> c == spec_cell_metadata_of_block(b@),
{
    let block_num = match crate::codec::decode_u32(b, 0) {
        Some(p) => p.0,
        None => {
            return None;
        },
    };
    let tag = b[4];
    if tag != 0 && tag != 1 {
        proof {
            assert(b@.subrange(0, 9)[4] == b@[4]);
        }
        return None;
    }
    let line = match crate::codec::decode_u32(b, 5) {
        Some(p) => p.0,
        None => {
            return None;
        },
    };
    let pos = match crate::codec::decode_u32(b, 9) {
        Some(p) => p.0,
        None => {
            return None;
        },
    };
    proof {
        assert(b@.subrange(0, 9).subrange(0, 4) =~= b@.subrange(0, 4));
        assert(b@.subrange(0, 9).subrange(5, 9) =~= b@.subrange(5, 9));
        assert(b@.subrange(0, 9)[4] == b@[4]);
    }
    Some(
        CellMetadata {
            piece_metadata: PieceMetadata {
                block_num,
                pos: if tag == 0 {
                    PiecePosition::Row(line)
                } else {
                    PiecePosition::Column(line)
                },
            },
            pos,
        },
    )
}

/// A segment's wire bytes: the two coordinates, a compact scalar count,
/// the scalars as 32-byte blocks, and the 48-byte proof.
pub open spec fn spec_enc_segment(v: SegmentView) -> Seq<u8> {
    crate::codec::spec_enc_u32(v.position.x) + crate::codec::spec_enc_u32(v.position.y)
        + crate::codec::spec_enc_compact(v.content.data.len() as u32)
        + crate::codec::spec_enc_blocks(v.content.data) + v.content.proof
}

/// Spec-level decoder of one segment.
pub open spec fn spec_dec_segment(s: Seq<u8>) -> Option<(SegmentView, int)> {
    if s.len() < 8 {
        None
    } else {
        let x = crate::codec::spec_dec_u32_val(s.subrange(0, 4));
        let y = crate::codec::spec_dec_u32_val(s.subrange(4, 8));
        match crate::codec::spec_dec_compact(s.skip(8)) {
            Some((n, u)) => match crate::codec::spec_dec_blocks(s.skip(8 + u), n as nat, 32) {
                Some((data, u2)) => {
                    let s3 = s.skip(8 + u + u2);
                    if s3.len() >= 48 {
                        Some(
                            (
                                SegmentView {
                                    position: Position { x, y },
                                    content: SegmentDataView { data, proof: s3.take(48) },
                                },
                                8 + u + u2 + 48,
                            ),
                        )
                    } else {
                        None
                    }
                },
                None => None,
            },
            None => None,
        }
    }
}

/// A segment view fit for encoding: 32-byte scalars and a 48-byte
/// proof.
pub open spec fn segment_view_wf(v: SegmentView) -> bool {
    &&& v.content.data.len() <= u32::MAX
    &&& (forall|i: int| 0 <= i < v.content.data.len() ==> (#[trigger] v.content.data[i]).len() == 32)
    &&& v.content.proof.len() == 48
}

pub proof fn lemma_segment_round_trip(v: SegmentView, rest: Seq<u8>)
    requires
        segment_view_wf(v),
    ensures
        spec_dec_segment(spec_enc_segment(v) + rest) == Some(
            (v, spec_enc_segment(v).len() as int),
        ),
    decreases 0nat,
{
    let e1 = crate::codec::spec_enc_u32(v.position.x);
    let e2 = crate::codec::spec_enc_u32(v.position.y);
    let e3 = crate::codec::spec_enc_compact(v.content.data.len() as u32);
    let e4 = crate::codec::spec_enc_blocks(v.content.data);
    let e5 = v.content.proof;
    let whole = spec_enc_segment(v) + rest;
    crate::codec::lemma_u32_round_trip(v.position.x);
    crate::codec::lemma_u32_round_trip(v.position.y);
    assert(whole.subrange(0, 4) =~= e1);
    assert(whole.subrange(4, 8) =~= e2);
    assert(whole.skip(8) =~= e3 + (e4 + (e5 + rest)));
    crate::codec::lemma_compact_round_trip(v.content.data.len() as u32, e4 + (e5 + rest));
    let u = e3.len() as int;
    assert(whole.skip(8).skip(u) =~= e4 + (e5 + rest));
    assert(whole.skip(8 + u) =~= e4 + (e5 + rest));
    crate::codec::lemma_dec_enc_blocks(v.content.data, e5 + rest, 32);
    let u2 = e4.len() as int;
    assert(whole.skip(8 + u + u2) =~= e5 + rest);
    assert((e5 + rest).take(48) =~= e5);
    assert(spec_enc_segment(v).len() == 8 + u + u2 + 48);
}

/// Concatenated segment encodings.
pub open spec fn spec_enc_segments(list: Seq<SegmentView>) -> Seq<u8>
    decreases list.len(),
{
    if list.len() == 0 {
        Seq::empty()
    } else {
        spec_enc_segment(list[0]) + spec_enc_segments(list.skip(1))
    }
}

pub proof fn lemma_enc_segments_push(list: Seq<SegmentView>, x: SegmentView)
    ensures
        spec_enc_segments(list.push(x)) == spec_enc_segments(list) + spec_enc_segment(x),
    decreases list.len(),
{
    if list.len() == 0 {
        assert(list.push(x)[0] == x);
        assert(list.push(x).skip(1) =~= Seq::<SegmentView>::empty());
        assert(spec_enc_segments(list.push(x)) == spec_enc_segment(x) + spec_enc_segments(
            Seq::<SegmentView>::empty(),
        ));
        assert(spec_enc_segments(Seq::<SegmentView>::empty()) == Seq::<u8>::empty());
        assert(spec_enc_segments(list.push(x)) =~= spec_enc_segments(list) + spec_enc_segment(x));
    } else {
        assert(list.push(x)[0] == list[0]);
        assert(list.push(x).skip(1) =~= list.skip(1).push(x));
        lemma_enc_segments_push(list.skip(1), x);
        assert(spec_enc_segments(list.push(x)) == spec_enc_segment(list[0]) + (spec_enc_segments(
            list.skip(1),
        ) + spec_enc_segment(x)));
        assert(spec_enc_segments(list) == spec_enc_segment(list[0]) + spec_enc_segments(
            list.skip(1),
        ));
        assert(spec_enc_segment(list[0]) + (spec_enc_segments(list.skip(1)) + spec_enc_segment(x))
            =~= (spec_enc_segment(list[0]) + spec_enc_segments(list.skip(1))) + spec_enc_segment(
            x,
        ));
    }
}

/// Spec-level decoder of `n` segments.
pub open spec fn spec_dec_segments(s: Seq<u8>, n: nat) -> Option<(Seq<SegmentView>, int)>
    decreases n,
{
    if n == 0 {
        Some((Seq::empty(), 0int))
    } else {
        match spec_dec_segment(s) {
            Some((v, u)) => match spec_dec_segments(s.skip(u), (n - 1) as nat) {
                Some((list, u2)) => Some((Seq::empty().push(v) + list, u + u2)),
                None => None,
            },
            None => None,
        }
    }
}

pub proof fn lemma_dec_enc_segments(list: Seq<SegmentView>, rest: Seq<u8>)
    requires
        forall|i: int| 0 <= i < list.len() ==> segment_view_wf(#[trigger] list[i]),
    ensures
        spec_dec_segments(spec_enc_segments(list) + rest, list.len()) == Some(
            (list, spec_enc_segments(list).len() as int),
        ),
    decreases list.len(),
{
    if list.len() == 0 {
        assert(spec_enc_segments(list) + rest =~= rest);
        assert(list =~= Seq::<SegmentView>::empty());
    } else {
        let whole = spec_enc_segments(list) + rest;
        let tail_enc = spec_enc_segments(list.skip(1));
        assert(whole =~= spec_enc_segment(list[0]) + (tail_enc + rest));
        lemma_segment_round_trip(list[0], tail_enc + rest);
        let u = spec_enc_segment(list[0]).len() as int;
        assert(whole.skip(u) =~= tail_enc + rest);
        lemma_dec_enc_segments(list.skip(1), rest);
        assert(Seq::empty().push(list[0]) + list.skip(1) =~= list);
    }
}

/// Spec-level shape of a piece.
pub struct PieceView {
    pub metadata: PieceMetadata,
    pub segments: Seq<SegmentView>,
}

/// A piece's wire bytes: its metadata, a compact segment count, and the
/// segments.
pub open spec fn spec_enc_piece(p: PieceView) -> Seq<u8> {
    spec_enc_piece_metadata(p.metadata) + crate::codec::spec_enc_compact(p.segments.len() as u32)
        + spec_enc_segments(p.segments)
}

/// Spec-level decoder of a piece.
pub open spec fn spec_dec_piece(s: Seq<u8>) -> Option<(PieceView, int)> {
    if s.len() < 9 {
        None
    } else {
        if spec_piece_metadata_block_ok(s.subrange(0, 9)) {
            let m = spec_piece_metadata_of_block(s.subrange(0, 9));
            match crate::codec::spec_dec_compact(s.skip(9)) {
                Some((n, u)) => match spec_dec_segments(s.skip(9 + u), n as nat) {
                    Some((segs, u2)) => Some(
                        (PieceView { metadata: m, segments: segs }, 9 + u + u2),
                    ),
                    None => None,
                },
                None => None,
            }
        } else {
            None
        }
    }
}

/// A piece view fit for encoding.
pub open spec fn piece_view_wf(p: PieceView) -> bool {
    &&& p.segments.len() <= u32::MAX
    &&& (forall|i: int| 0 <= i < p.segments.len() ==> segment_view_wf(#[trigger] p.segments[i]))
}

/// Decoding an encoded piece yields the piece back: the plot's
/// round-trip law.
pub proof fn lemma_piece_round_trip(p: PieceView, rest: Seq<u8>)
    requires
        piece_view_wf(p),
    ensures
        spec_dec_piece(spec_enc_piece(p) + rest) == Some((p, spec_enc_piece(p).len() as int)),
{
    let e1 = spec_enc_piece_metadata(p.metadata);
    let e2 = crate::codec::spec_enc_compact(p.segments.len() as u32);
    let e3 = spec_enc_segments(p.segments);
    let whole = spec_enc_piece(p) + rest;
    lemma_piece_metadata_round_trip(p.metadata);
    assert(whole.subrange(0, 9) =~= e1);
    assert(whole.skip(9) =~= e2 + (e3 + rest));
    crate::codec::lemma_compact_round_trip(p.segments.len() as u32, e3 + rest);
    let u = e2.len() as int;
    assert(whole.skip(9).skip(u) =~= e3 + rest);
    assert(whole.skip(9 + u) =~= e3 + rest);
    lemma_dec_enc_segments(p.segments, rest);
    assert(spec_enc_piece(p).len() == 9 + u + e3.len());
}

/// Saving a piece and reading a cell back yields the original scalar
/// and proof: the stored bytes decode to the piece itself, so the cell
/// lookup resolves inside an identical piece.
pub proof fn lemma_plot_round_trip(p: PieceView, pos: u32)
    requires
        piece_view_wf(p),
    ensures
        spec_dec_piece(spec_enc_piece(p)) matches Some(q) && q.0 == p,
{
    lemma_piece_round_trip(p, Seq::empty());
    assert(spec_enc_piece(p) + Seq::<u8>::empty() =~= spec_enc_piece(p));
}

/// One plotted piece: its identity and its segments.
#[derive(Debug)]
pub struct Piece {
    pub metadata: PieceMetadata,
    pub segments: Vec<Segment>,
}

impl View for Piece {
    type V = PieceView;

    open spec fn view(&self) -> PieceView {
        PieceView {
            metadata: self.metadata,
            segments: self.segments@.map_values(|s: Segment| s@),
        }
    }
}

impl Clone for Piece {
    fn clone(&self) -> (r: Self)
        ensures
            r@ == self@,
    {
        let mut segments: Vec<Segment> = Vec::new();
        let n = self.segments.len();
        for i in 0..n
            invariant
                n == self.segments@.len(),
                segments@.len() == i,
                forall|j: int| 0 <= j < i ==> #[trigger] segments@[j]@ == self.segments@[j]@,
        {
            segments.push(self.segments[i].clone());
        }
        let r = Piece { metadata: self.metadata, segments };
        assert(r@.segments =~= self@.segments);
        r
    }
}

/// The scalar and proof a piece serves for the cell at flat index
/// `pos`, if the piece holds it.
pub open spec fn cell_spec(p: PieceView, pos: u32) -> Option<(Seq<u8>, Seq<u8>)> {
    let idx = pos as int / FIELD_ELEMENTS_PER_SEGMENT as int;
    let di = pos as int % FIELD_ELEMENTS_PER_SEGMENT as int;
    if idx < p.segments.len() && di < p.segments[idx].content.data.len() {
        Some((p.segments[idx].content.data[di], p.segments[idx].content.proof))
    } else {
        None
    }
}

/// The storage key of the piece with metadata `m`.
pub open spec fn spec_piece_key(m: PieceMetadata) -> Seq<u8> {
    seq![112u8, 105u8, 101u8, 99u8, 101u8, 47u8] + spec_enc_piece_metadata(m)
}

impl PieceMetadata {
    pub fn new(block_num: u32, pos: PiecePosition) -> (r: Self)
        ensures
            r == (PieceMetadata { block_num, pos }),
    {
        PieceMetadata { block_num, pos }
    }

    /// The piece's storage key.
    pub fn key(&self) -> (r: Vec<u8>)
        ensures
            r@ == spec_piece_key(*self),
    {
        let mut out: Vec<u8> = Vec::new();
        out.push(112u8);
        out.push(105u8);
        out.push(101u8);
        out.push(99u8);
        out.push(101u8);
        out.push(47u8);
        encode_piece_metadata(&mut out, self);
        assert(out@ =~= spec_piece_key(*self));
        out
    }
}

impl Piece {
    /// Every segment is a full, well-formed cell.
    pub open spec fn wf(&self) -> bool {
        forall|i: int| 0 <= i < self.segments@.len() ==> (#[trigger] self.segments@[i]).wf()
    }

    /// The piece's storage key.
    pub fn key(&self) -> (r: Vec<u8>)
        ensures
            r@ == spec_piece_key(self.metadata),
    {
        self.metadata.key()
    }

    pub fn new(block_num: u32, pos: PiecePosition, segments: &[Segment]) -> (r: Self)
        ensures
            r.metadata == (PieceMetadata { block_num, pos }),
            r@.segments == segments@.map_values(|s: Segment| s@),
    {
        let mut owned: Vec<Segment> = Vec::new();
        let n = segments.len();
        for i in 0..n
            invariant
                n == segments@.len(),
                owned@.len() == i,
                forall|j: int| 0 <= j < i ==> #[trigger] owned@[j]@ == segments@[j]@,
        {
            let s = &segments[i];
            owned.push(s.clone());
        }
        let r = Piece { metadata: PieceMetadata { block_num, pos }, segments: owned };
        assert(r@.segments =~= segments@.map_values(|s: Segment| s@));
        r
    }

    /// The scalar and proof of the cell at flat index `pos`.
    pub fn cell(&self, pos: u32) -> (r: Option<(BlsScalar, KZGProof)>)
        ensures
            r is Some <==> cell_spec(self@, pos) is Some,
            r matches Some(q) ==> cell_spec(self@, pos) matches Some(p) && q.0@ == p.0 && q.1@
                == p.1,
    {
        let index = (pos / FIELD_ELEMENTS_PER_SEGMENT as u32) as usize;
        if index >= self.segments.len() {
            return None;
        }
        let data_index = (pos % FIELD_ELEMENTS_PER_SEGMENT as u32) as usize;
        let segment = &self.segments[index];
        if data_index >= segment.content.data.len() {
            return None;
        }
        Some((segment.content.data[data_index].clone(), segment.content.proof.clone()))
    }

    /// The piece's wire bytes.
    pub fn encode(&self) -> (r: Vec<u8>)
        requires
            self.wf(),
            self.segments@.len() <= u32::MAX,
        ensures
            r@ == spec_enc_piece(self@),
    {
        let mut out: Vec<u8> = Vec::new();
        encode_piece_metadata(&mut out, &self.metadata);
        crate::codec::encode_compact(&mut out, self.segments.len() as u32);
        let n = self.segments.len();
        let ghost header = out@;
        let ghost segviews = self.segments@.map_values(|s: Segment| s@);
        for i in 0..n
            invariant
                n == self.segments@.len(),
                segviews == self.segments@.map_values(|s: Segment| s@),
                self.wf(),
                header == spec_enc_piece_metadata(self.metadata)
                    + crate::codec::spec_enc_compact(n as u32),
                out@ == header + spec_enc_segments(segviews.take(i as int)),
        {
            let seg = &self.segments[i];
            crate::codec::encode_u32(&mut out, seg.position.x);
            crate::codec::encode_u32(&mut out, seg.position.y);
            crate::codec::encode_compact(&mut out, seg.content.data.len() as u32);
            let mut blocks: Vec<Vec<u8>> = Vec::new();
            let m = seg.content.data.len();
            for j in 0..m
                invariant
                    m == seg.content.data@.len(),
                    seg.wf(),
                    blocks@.len() == j,
                    forall|t: int|
                        0 <= t < j ==> (#[trigger] blocks@[t])@ == seg.content.data@[t]@,
            {
                blocks.push(seg.content.data[j].to_bytes());
            }
            proof {
                assert(blocks@.map_values(|b: Vec<u8>| b@) =~= segviews[i as int].content.data);
            }
            crate::codec::encode_raw_blocks(&mut out, &blocks);
            crate::codec::encode_raw(&mut out, seg.content.proof.bytes.as_slice());
            proof {
                assert(segviews.take(i as int).push(segviews[i as int]) =~= segviews.take(
                    i as int + 1,
                ));
                lemma_enc_segments_push(segviews.take(i as int), segviews[i as int]);
                assert(out@ =~= header + spec_enc_segments(segviews.take(i as int + 1)));
            }
        }
        proof {
            assert(segviews.take(n as int) =~= segviews);
            assert(out@ =~= spec_enc_piece(self@));
        }
        out
    }
}

impl Piece {
    /// Reads a piece back from wire bytes.
    #[verifier::rlimit(60)]
    #[verifier::loop_isolation(false)]
    pub fn decode(bytes: &[u8]) -> (r: Option<Piece>)
        ensures
            ({
                let d = spec_dec_piece(bytes@);
                &&& (d is Some <==> r is Some)
                &&& (d matches Some(p) ==> r matches Some(q) && q@ == p.0)
            }),
    {
        proof {
            assert(bytes@.skip(0) =~= bytes@);
        }
        if bytes.len() < 9 {
            return None;
        }
        let head = vstd::slice::slice_subrange(bytes, 0, 9);
        let metadata = match decode_cell_metadata_header(head) {
            Some(m) => m,
            None => {
                proof {
                    assert(bytes@.subrange(0, 9) =~= head@);
                }
                return None;
            },
        };
        let (n, u) = match crate::codec::decode_compact(bytes, 9) {
            Some(p) => p,
            None => {
                return None;
            },
        };
        proof {
            assert(bytes@.subrange(0, 9) =~= head@);
            assert(bytes@.skip(9).skip(u as int - 9) =~= bytes@.skip(u as int));
        }
        let ghost start = u as int;
        let mut segments: Vec<Segment> = Vec::new();
        let mut cur: usize = u;
        let nseg = n as usize;
        for i in 0..nseg
            invariant
                cur <= bytes@.len(),
                segments@.len() == i,
                ({
                    let d0 = spec_dec_segments(bytes@.skip(start), nseg as nat);
                    let d1 = spec_dec_segments(bytes@.skip(cur as int), (nseg - i) as nat);
                    match d1 {
                        Some(p) => d0 == Some(
                            (
                                segments@.map_values(|sg: Segment| sg@) + p.0,
                                (cur - start) + p.1,
                            ),
                        ),
                        None => d0 is None,
                    }
                }),
            decreases nseg - i,
        {
            let ghost acc = segments@.map_values(|sg: Segment| sg@);
            let (seg, next) = match decode_segment(bytes, cur) {
                Some(p) => p,
                None => {
                    return None;
                },
            };
            segments.push(seg);
            proof {
                let accn = segments@.map_values(|sg: Segment| sg@);
                assert(accn =~= acc.push(segments@.last()@));
                assert(bytes@.skip(cur as int).skip(next as int - cur as int) =~= bytes@.skip(
                    next as int,
                ));
                let d1 = spec_dec_segments(bytes@.skip(next as int), (nseg - i - 1) as nat);
                match d1 {
                    Some(p) => {
                        assert(acc + (Seq::empty().push(segments@.last()@) + p.0) =~= accn + p.0);
                    },
                    None => {},
                }
            }
            cur = next;
        }
        proof {
            assert(segments@.map_values(|sg: Segment| sg@) + Seq::<SegmentView>::empty()
                =~= segments@.map_values(|sg: Segment| sg@));
        }
        Some(Piece { metadata: metadata.piece_metadata, segments })
    }

    /// Looks one cell up in the store: the piece is fetched whole and
    /// the cell picked out of it.  An absent piece is `Ok(None)`; bytes
    /// that do not decode are an error.
    pub fn get_cell<D: DasKv>(metadata: &CellMetadata, db: &mut D) -> (r: Result<
        Option<(BlsScalar, KZGProof)>,
        String,
    >)
        ensures
            final(db).contents() == old(db).contents(),
            ({
                let c = old(db).contents();
                let key = spec_piece_key(metadata.piece_metadata);
                &&& (!c.contains_key(key) ==> (r matches Ok(o) && o is None))
                &&& (c.contains_key(key) ==> (match spec_dec_piece(c[key]) {
                    Some(p) => r matches Ok(o) && (o is Some <==> cell_spec(p.0, metadata.pos)
                        is Some) && (cell_spec(p.0, metadata.pos) matches Some(cv) ==> o
                        matches Some(q) && q.0@ == cv.0 && q.1@ == cv.1),
                    None => r is Err,
                }))
            }),
    {
        let key = metadata.piece_metadata.key();
        match db.get(key.as_slice()) {
            Some(bytes) => match Piece::decode(bytes.as_slice()) {
                Some(piece) => Ok(piece.cell(metadata.pos)),
                None => Err("stored piece bytes do not decode".to_string()),
            },
            None => Ok(None),
        }
    }
}

/// Reads one segment at `pos`.
#[verifier::rlimit(100)]
#[verifier::loop_isolation(false)]
fn decode_segment(bytes: &[u8], pos: usize) -> (r: Option<(Segment, usize)>)
    requires
        pos <= bytes@.len(),
    ensures
        ({
            let d = spec_dec_segment(bytes@.skip(pos as int));
            &&& (d is Some <==> r is Some)
            &&& (d matches Some(p) ==> r matches Some(q) && q.0@ == p.0 && q.1 == pos + p.1 && q.1
                <= bytes@.len() && pos < q.1)
        }),
{
    let ghost tail = bytes@.skip(pos as int);
    if bytes.len() - pos < 8 {
        return None;
    }
    let x = match crate::codec::decode_u32(bytes, pos) {
        Some(p) => p.0,
        None => {
            return None;
        },
    };
    let y = match crate::codec::decode_u32(bytes, pos + 4) {
        Some(p) => p.0,
        None => {
            return None;
        },
    };
    proof {
        assert(tail.subrange(0, 4) =~= bytes@.subrange(pos as int, pos as int + 4));
        assert(tail.subrange(4, 8) =~= bytes@.subrange(pos as int + 4, pos as int + 8));
        assert(tail.skip(8) =~= bytes@.skip(pos as int + 8));
    }
    let (ns, us) = match crate::codec::decode_compact(bytes, pos + 8) {
        Some(p) => p,
        None => {
            return None;
        },
    };
    proof {
        assert(bytes@.skip(pos as int + 8).skip(us as int - (pos as int + 8)) =~= bytes@.skip(
            us as int,
        ));
    }
    proof {
        assert(tail.skip(8 + (us as int - (pos as int + 8))) =~= bytes@.skip(us as int));
    }
    let (blocks, ub) = match crate::codec::decode_raw_blocks(bytes, us, ns as usize, 32) {
        Some(p) => p,
        None => {
            return None;
        },
    };
    proof {
        crate::codec::lemma_dec_blocks_shape(bytes@.skip(us as int), ns as nat, 32);
    }
    let proof_bytes = match crate::codec::decode_raw(bytes, ub, 48) {
        Some(p) => p.0,
        None => {
            proof {
                assert(bytes@.skip(ub as int).len() < 48);
                assert(tail.skip(ub as int - pos as int) =~= bytes@.skip(ub as int));
                assert(8 + (us - (pos + 8)) + (ub - us) == ub as int - pos as int);
            }
            return None;
        },
    };
    let mut data: Vec<BlsScalar> = Vec::new();
    let bn = blocks.len();
    for j in 0..bn
        invariant
            bn == blocks@.len(),
            data@.len() == j,
            forall|t: int| 0 <= t < j ==> #[trigger] data@[t]@ == blocks@[t]@,
    {
        let mut sb: Vec<u8> = Vec::new();
        crate::codec::encode_raw(&mut sb, blocks[j].as_slice());
        data.push(BlsScalar { bytes: sb });
    }
    let seg = Segment {
        position: Position { x, y },
        content: SegmentData { data, proof: KZGProof { bytes: proof_bytes } },
    };
    proof {
        assert(tail.skip(us as int - pos as int) =~= bytes@.skip(us as int));
        assert(8 + (us - (pos + 8)) == us as int - pos as int);
        assert(tail.skip(ub as int - pos as int) =~= bytes@.skip(ub as int));
        assert(8 + (us - (pos + 8)) + (ub - us) == ub as int - pos as int);
        assert(seg@.content.data =~= blocks@.map_values(|b: Vec<u8>| b@));
        assert(seg@.content.proof =~= bytes@.skip(ub as int).take(48));
        assert(spec_dec_segment(tail) == Some((seg@, (ub + 48) - pos)));
    }
    Some((seg, ub + 48))
}

/// Reads the nine-byte piece-metadata header.
fn decode_cell_metadata_header(b: &[u8]) -> (r: Option<CellMetadata>)
    requires
        b@.len() == 9,
    ensures
        r is Some <==> spec_piece_metadata_block_ok(b@),
        r matches Some(c) ==> c.piece_metadata == spec_piece_metadata_of_block(b@) && c.pos == 0,
{
    let block_num = match crate::codec::decode_u32(b, 0) {
        Some(p) => p.0,
        None => {
            return None;
        },
    };
    let tag = b[4];
    if tag != 0 && tag != 1 {
        return None;
    }
    let line = match crate::codec::decode_u32(b, 5) {
        Some(p) => p.0,
        None => {
            return None;
        },
    };
    Some(
        CellMetadata {
            piece_metadata: PieceMetadata {
                block_num,
                pos: if tag == 0 {
                    PiecePosition::Row(line)
                } else {
                    PiecePosition::Column(line)
                },
            },
            pos: 0,
        },
    )
}

} // verus!
