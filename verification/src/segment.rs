//! Segments of the twice-extended blob.
//!
//! A segment is one cell of the extension: `SEGMENT_LENGTH` scalars at a
//! grid position, together with the cell's multi-opening proof.  This
//! module builds segments from a blob, orders received segments into
//! dense rows and columns, and verifies a segment against the commitment
//! of its row.

use vstd::prelude::*;
use crate::kzg::BlsScalar;
use crate::kzg::Blob;
use crate::kzg::KZG;
use crate::kzg::KZGCommitment;
use crate::kzg::KZGProof;
use crate::kzg::Position;
use crate::kzg::cells_of;
use crate::BYTES_PER_SEGMENT;
use crate::CHUNK_COUNT;
use crate::FIELD_ELEMENTS_PER_BLOB;
use crate::SEGMENT_LENGTH;

verus! {

/// The scalars of one segment and the proof that opens them.
#[derive(Debug)]
pub struct SegmentData {
    pub data: Vec<BlsScalar>,
    pub proof: KZGProof,
}

/// Spec-level shape of a segment's content.
pub struct SegmentDataView {
    pub data: Seq<Seq<u8>>,
    pub proof: Seq<u8>,
}

impl View for SegmentData {
    type V = SegmentDataView;

    open spec fn view(&self) -> SegmentDataView {
        SegmentDataView { data: self.data@.map_values(|s: BlsScalar| s@), proof: self.proof@ }
    }
}

impl SegmentData {
    /// Full segment width, 32 bytes per scalar, 48 bytes of proof.
    pub open spec fn wf(&self) -> bool {
        &&& self.data@.len() == SEGMENT_LENGTH
        &&& (forall|i: int| 0 <= i < self.data@.len() ==> (#[trigger] self.data@[i]).wf())
        &&& self.proof.wf()
    }
}

impl Clone for SegmentData {
    fn clone(&self) -> (r: Self)
        ensures
            r@ == self@,
    {
        let mut data: Vec<BlsScalar> = Vec::new();
        let n = self.data.len();
        for i in 0..n
            invariant
                n == self.data@.len(),
                data@.len() == i,
                forall|j: int| 0 <= j < i ==> #[trigger] data@[j]@ == self.data@[j]@,
        {
            data.push(self.data[i].clone());
        }
        let r = SegmentData { data, proof: self.proof.clone() };
        assert(r@.data =~= self@.data);
        r
    }
}

/// A segment: its grid position and its content.
#[derive(Debug)]
pub struct Segment {
    pub position: Position,
    pub content: SegmentData,
}

/// Spec-level shape of a segment.
pub struct SegmentView {
    pub position: Position,
    pub content: SegmentDataView,
}

impl View for Segment {
    type V = SegmentView;

    open spec fn view(&self) -> SegmentView {
        SegmentView { position: self.position, content: self.content@ }
    }
}

impl Segment {
    pub open spec fn wf(&self) -> bool {
        self.content.wf()
    }

    pub fn new(position: Position, content: SegmentData) -> (r: Segment)
        ensures
            r.position == position,
            r.content@ == content@,
    {
        Segment { position, content }
    }
}

impl Clone for Segment {
    fn clone(&self) -> (r: Self)
        ensures
            r@ == self@,
    {
        Segment { position: self.position, content: self.content.clone() }
    }
}

/// Concatenates the scalars' bytes.
pub fn scalars_to_bytes(scalars: &Vec<BlsScalar>) -> (r: Vec<u8>)
    requires
        forall|i: int| 0 <= i < scalars@.len() ==> (#[trigger] scalars@[i]).wf(),
    ensures
        r@.len() == 32 * scalars@.len(),
        forall|i: int|
            0 <= i < scalars@.len() ==> #[trigger] r@.subrange(32 * i, 32 * i + 32)
                == scalars@[i]@,
{
    let mut out: Vec<u8> = Vec::new();
    let n = scalars.len();
    for i in 0..n
        invariant
            n == scalars@.len(),
            forall|j: int| 0 <= j < n ==> (#[trigger] scalars@[j]).wf(),
            out@.len() == 32 * i,
            forall|j: int|
                0 <= j < i ==> #[trigger] out@.subrange(32 * j, 32 * j + 32) == scalars@[j]@,
    {
        let ghost prev = out@;
        crate::codec::encode_raw(&mut out, scalars[i].bytes.as_slice());
        proof {
            assert forall|j: int| 0 <= j <= i implies #[trigger] out@.subrange(32 * j, 32 * j + 32)
                == scalars@[j]@ by {
                if j < i {
                    assert(out@.subrange(32 * j, 32 * j + 32) =~= prev.subrange(
                        32 * j,
                        32 * j + 32,
                    ));
                } else {
                    assert(out@.subrange(32 * j, 32 * j + 32) =~= scalars@[j]@);
                }
            }
        }
    }
    out
}

/// Splits `bytes` into 32-byte scalars.
pub fn bytes_to_scalars(bytes: &[u8]) -> (r: Vec<BlsScalar>)
    requires
        bytes@.len() % 32 == 0,
    ensures
        r@.len() == bytes@.len() / 32,
        forall|i: int|
            0 <= i < r@.len() ==> (#[trigger] r@[i]).wf() && r@[i]@ == bytes@.subrange(
                32 * i,
                32 * i + 32,
            ),
{
    let len = bytes.len();
    let n = len / 32;
    let mut out: Vec<BlsScalar> = Vec::new();
    for i in 0..n
        invariant
            len == bytes@.len(),
            n == len / 32,
            len % 32 == 0,
            out@.len() == i,
            forall|j: int|
                0 <= j < i ==> (#[trigger] out@[j]).wf() && out@[j]@ == bytes@.subrange(
                    32 * j,
                    32 * j + 32,
                ),
    {
        assert(32 * i + 32 <= len);
        let lane = vstd::slice::slice_subrange(bytes, 32 * i, 32 * i + 32);
        let mut scalar_bytes: Vec<u8> = Vec::new();
        crate::codec::encode_raw(&mut scalar_bytes, lane);
        out.push(BlsScalar { bytes: scalar_bytes });
    }
    out
}

/// The conditions under which a list of segments forms one row: all on
/// the row of the first segment, columns within the doubled width, no
/// column twice, and not more segments than slots.
pub open spec fn row_orderable(segments: Seq<Segment>, width: int) -> bool {
    &&& segments.len() >= 1
    &&& segments.len() <= width
    &&& (forall|i: int|
        0 <= i < segments.len() ==> (#[trigger] segments[i]).position.y == segments[0].position.y)
    &&& (forall|i: int| 0 <= i < segments.len() ==> (#[trigger] segments[i]).position.x < width)
    &&& (forall|i: int, j: int|
        0 <= i < j < segments.len() ==> (#[trigger] segments[i]).position.x != (
        #[trigger] segments[j]).position.x)
}

/// Places row segments into a dense vector of `2 * FIELD_ELEMENTS_PER_BLOB`
/// slots, indexed by column; absent columns stay `None`.  Mixed rows,
/// out-of-range columns, duplicate columns and excess segments are
/// rejected.
pub fn order_segments_row(segments: &Vec<Segment>) -> (r: Result<Vec<Option<SegmentData>>, String>)
    requires
        segments@.len() >= 1,
    ensures
        r is Ok <==> row_orderable(segments@, 2 * FIELD_ELEMENTS_PER_BLOB),
        r matches Ok(v) ==> ({
            &&& v@.len() == 2 * FIELD_ELEMENTS_PER_BLOB
            &&& (forall|i: int|
                0 <= i < segments@.len() ==> ((#[trigger] v@[segments@[i].position.x as int])
                    matches Some(sd) && sd@ == segments@[i].content@))
            &&& (forall|j: int|
                0 <= j < v@.len() && v@[j] is Some ==> exists|i: int|
                    0 <= i < segments@.len() && (#[trigger] segments@[i]).position.x == j)
        }),
{
    let width = 2 * FIELD_ELEMENTS_PER_BLOB;
    if segments.len() > width {
        return Err("more segments than row slots".to_string());
    }
    let y = segments[0].position.y;
    let mut ordered: Vec<Option<SegmentData>> = Vec::new();
    for s in 0..width
        invariant
            ordered@.len() == s,
            forall|j: int| 0 <= j < s ==> (#[trigger] ordered@[j]) is None,
    {
        ordered.push(None);
    }
    let n = segments.len();
    for i in 0..n
        invariant
            n == segments@.len() <= 2 * FIELD_ELEMENTS_PER_BLOB,
            y == segments@[0].position.y,
            ordered@.len() == 2 * FIELD_ELEMENTS_PER_BLOB,
            forall|t: int|
                0 <= t < i ==> (#[trigger] segments@[t]).position.y == y && segments@[t].position.x
                    < ordered@.len(),
            forall|t: int|
                0 <= t < i ==> ((#[trigger] ordered@[segments@[t].position.x as int])
                    matches Some(sd) && sd@ == segments@[t].content@),
            forall|t1: int, t2: int|
                0 <= t1 < t2 < i ==> (#[trigger] segments@[t1]).position.x != (
                #[trigger] segments@[t2]).position.x,
            forall|j: int|
                0 <= j < ordered@.len() && (#[trigger] ordered@[j]) is Some ==> exists|t: int|
                    0 <= t < i && (#[trigger] segments@[t]).position.x == j,
    {
        let seg = &segments[i];
        if seg.position.y != y {
            return Err("segments of more than one row".to_string());
        }
        let x = seg.position.x as usize;
        if x >= ordered.len() {
            return Err("segment column out of range".to_string());
        }
        if ordered[x].is_some() {
            return Err("duplicate segment column".to_string());
        }
        ordered[x] = Some(seg.content.clone());
    }
    Ok(ordered)
}

/// The conditions under which a list of segments forms one column.
pub open spec fn col_orderable(segments: Seq<Segment>, height: int) -> bool {
    &&& segments.len() >= 1
    &&& segments.len() <= height
    &&& (forall|i: int|
        0 <= i < segments.len() ==> (#[trigger] segments[i]).position.x == segments[0].position.x)
    &&& (forall|i: int| 0 <= i < segments.len() ==> (#[trigger] segments[i]).position.y < height)
    &&& (forall|i: int, j: int|
        0 <= i < j < segments.len() ==> (#[trigger] segments[i]).position.y != (
        #[trigger] segments[j]).position.y)
}

/// Places column segments into a dense vector of `2 * k` slots, indexed
/// by row; the mirror image of `order_segments_row`.
pub fn order_segments_col(segments: &Vec<Segment>, k: usize) -> (r: Result<
    Vec<Option<SegmentData>>,
    String,
>)
    requires
        segments@.len() >= 1,
        k <= usize::MAX / 2,
    ensures
        r is Ok <==> col_orderable(segments@, 2 * k),
        r matches Ok(v) ==> ({
            &&& v@.len() == 2 * k
            &&& (forall|i: int|
                0 <= i < segments@.len() ==> ((#[trigger] v@[segments@[i].position.y as int])
                    matches Some(sd) && sd@ == segments@[i].content@))
            &&& (forall|j: int|
                0 <= j < v@.len() && v@[j] is Some ==> exists|i: int|
                    0 <= i < segments@.len() && (#[trigger] segments@[i]).position.y == j)
        }),
{
    let height = 2 * k;
    if segments.len() > height {
        return Err("more segments than column slots".to_string());
    }
    let x = segments[0].position.x;
    let mut ordered: Vec<Option<SegmentData>> = Vec::new();
    for s in 0..height
        invariant
            ordered@.len() == s,
            forall|j: int| 0 <= j < s ==> (#[trigger] ordered@[j]) is None,
    {
        ordered.push(None);
    }
    let n = segments.len();
    for i in 0..n
        invariant
            n == segments@.len() <= 2 * k,
            x == segments@[0].position.x,
            ordered@.len() == 2 * k,
            forall|t: int|
                0 <= t < i ==> (#[trigger] segments@[t]).position.x == x && segments@[t].position.y
                    < ordered@.len(),
            forall|t: int|
                0 <= t < i ==> ((#[trigger] ordered@[segments@[t].position.y as int])
                    matches Some(sd) && sd@ == segments@[t].content@),
            forall|t1: int, t2: int|
                0 <= t1 < t2 < i ==> (#[trigger] segments@[t1]).position.y != (
                #[trigger] segments@[t2]).position.y,
            forall|j: int|
                0 <= j < ordered@.len() && (#[trigger] ordered@[j]) is Some ==> exists|t: int|
                    0 <= t < i && (#[trigger] segments@[t]).position.y == j,
    {
        let seg = &segments[i];
        if seg.position.x != x {
            return Err("segments of more than one column".to_string());
        }
        let yi = seg.position.y as usize;
        if yi >= ordered.len() {
            return Err("segment row out of range".to_string());
        }
        if ordered[yi].is_some() {
            return Err("duplicate segment row".to_string());
        }
        ordered[yi] = Some(seg.content.clone());
    }
    Ok(ordered)
}

/// Flattens a dense row of optional segment contents into one optional
/// scalar per cell; an absent segment yields `SEGMENT_LENGTH` absent
/// scalars.
pub fn segment_datas_to_row(segments: &Vec<Option<SegmentData>>) -> (r: Vec<Option<BlsScalar>>)
    requires
        forall|i: int|
            0 <= i < segments@.len() ==> ((#[trigger] segments@[i]) matches Some(sd) ==> sd.wf()),
        segments@.len() <= usize::MAX / SEGMENT_LENGTH,
    ensures
        r@.len() == segments@.len() * SEGMENT_LENGTH,
        forall|s: int, j: int|
            0 <= s < segments@.len() && 0 <= j < SEGMENT_LENGTH ==> (match segments@[s] {
                Some(sd) => (#[trigger] r@[s * SEGMENT_LENGTH + j]) matches Some(b) && b@
                    == sd.data@[j]@,
                None => r@[s * SEGMENT_LENGTH + j] is None,
            }),
{
    let mut out: Vec<Option<BlsScalar>> = Vec::new();
    let n = segments.len();
    for s in 0..n
        invariant
            n == segments@.len() <= usize::MAX / SEGMENT_LENGTH,
            forall|i: int|
                0 <= i < segments@.len() ==> ((#[trigger] segments@[i]) matches Some(sd)
                    ==> sd.wf()),
            out@.len() == s * SEGMENT_LENGTH,
            forall|t: int, j: int|
                0 <= t < s && 0 <= j < SEGMENT_LENGTH ==> (match segments@[t] {
                    Some(sd) => (#[trigger] out@[t * SEGMENT_LENGTH + j]) matches Some(b) && b@
                        == sd.data@[j]@,
                    None => out@[t * SEGMENT_LENGTH + j] is None,
                }),
    {
        match &segments[s] {
            Some(sd) => {
                for j in 0..SEGMENT_LENGTH
                    invariant
                        n == segments@.len() <= usize::MAX / SEGMENT_LENGTH,
                        s < n,
                        segments@[s as int] matches Some(x) && x.wf() && x == *sd,
                        out@.len() == s * SEGMENT_LENGTH + j,
                        forall|t: int, jj: int|
                            0 <= t < s && 0 <= jj < SEGMENT_LENGTH ==> (match segments@[t] {
                                Some(sd2) => (#[trigger] out@[t * SEGMENT_LENGTH + jj])
                                    matches Some(b) && b@ == sd2.data@[jj]@,
                                None => out@[t * SEGMENT_LENGTH + jj] is None,
                            }),
                        forall|jj: int|
                            0 <= jj < j ==> ((#[trigger] out@[s * SEGMENT_LENGTH + jj])
                                matches Some(b) && b@ == sd.data@[jj]@),
                {
                    out.push(Some(sd.data[j].clone()));
                }
            },
            None => {
                for j in 0..SEGMENT_LENGTH
                    invariant
                        n == segments@.len() <= usize::MAX / SEGMENT_LENGTH,
                        s < n,
                        segments@[s as int] is None,
                        out@.len() == s * SEGMENT_LENGTH + j,
                        forall|t: int, jj: int|
                            0 <= t < s && 0 <= jj < SEGMENT_LENGTH ==> (match segments@[t] {
                                Some(sd2) => (#[trigger] out@[t * SEGMENT_LENGTH + jj])
                                    matches Some(b) && b@ == sd2.data@[jj]@,
                                None => out@[t * SEGMENT_LENGTH + jj] is None,
                            }),
                        forall|jj: int|
                            0 <= jj < j ==> (#[trigger] out@[s * SEGMENT_LENGTH + jj])
                                is None,
                {
                    out.push(None);
                }
            },
        }
    }
    out
}

/// Builds the segments of row `y` from a blob: the 128 cells of the
/// twice-extended blob, each with its multi-opening proof and its grid
/// position.  The first 64 cells carry the blob's own bytes, so the
/// first half of the row equals the original evaluations.
pub fn blob_to_segment_vec(blob: &Blob, kzg: &KZG, y: u32) -> (r: Result<Vec<Segment>, String>)
    requires
        blob.wf(),
    ensures
        r is Ok,
        r matches Ok(v) ==> ({
            &&& v@.len() == CHUNK_COUNT
            &&& (forall|i: int|
                0 <= i < v@.len() ==> (#[trigger] v@[i]).wf() && v@[i].position.x == i
                    && v@[i].position.y == y)
            &&& (forall|i: int, j: int|
                0 <= i < CHUNK_COUNT && 0 <= j < SEGMENT_LENGTH ==> (#[trigger] v@[i].content.data@[j])@
                    == cells_of(blob@)[i].subrange(32 * j, 32 * j + 32))
            &&& (forall|i: int|
                0 <= i < CHUNK_COUNT / 2 ==> #[trigger] cells_of(blob@)[i] == blob@.subrange(
                    BYTES_PER_SEGMENT * i,
                    BYTES_PER_SEGMENT * (i + 1),
                ))
        }),
{
    let (cells, proofs) = match crate::kzg::compute_cells_raw(&kzg.ks, blob.bytes.as_slice()) {
        Ok(p) => p,
        Err(e) => {
            return Err(e);
        },
    };
    let mut segments: Vec<Segment> = Vec::new();
    for i in 0..CHUNK_COUNT
        invariant
            cells@.len() == CHUNK_COUNT,
            proofs@.len() == CHUNK_COUNT,
            cells@.map_values(|c: Vec<u8>| c@) == cells_of(blob@),
            forall|t: int|
                0 <= t < CHUNK_COUNT ==> (#[trigger] cells@[t])@.len() == BYTES_PER_SEGMENT,
            forall|t: int|
                0 <= t < CHUNK_COUNT ==> (#[trigger] proofs@[t])@.len()
                    == crate::kzg::BYTES_PER_G1_POINT,
            segments@.len() == i,
            forall|t: int|
                0 <= t < i ==> (#[trigger] segments@[t]).wf() && segments@[t].position.x == t
                    && segments@[t].position.y == y,
            forall|t: int, j: int|
                0 <= t < i && 0 <= j < SEGMENT_LENGTH ==> (
                #[trigger] segments@[t].content.data@[j])@ == cells_of(blob@)[t].subrange(
                    32 * j,
                    32 * j + 32,
                ),
    {
        let data = bytes_to_scalars(cells[i].as_slice());
        let mut proof_bytes: Vec<u8> = Vec::new();
        crate::codec::encode_raw(&mut proof_bytes, proofs[i].as_slice());
        let proof = KZGProof { bytes: proof_bytes };
        let position = Position { x: i as u32, y };
        assert(cells@[i as int]@ == cells_of(blob@)[i as int]);
        segments.push(Segment { position, content: SegmentData { data, proof } });
    }
    Ok(segments)
}

impl Segment {
    /// Checks the segment's multi-opening proof against the commitment
    /// of its row.  A malformed segment, a column outside the extended
    /// width or a chunk count other than the extension's are errors;
    /// the boolean outcome is the backend's pairing check.
    pub fn verify(&self, kzg: &KZG, commitment: &KZGCommitment, chunk_count: usize) -> (r: Result<
        bool,
        String,
    >)
        requires
            commitment.wf(),
        ensures
            !(self.wf() && self.position.x < CHUNK_COUNT && chunk_count == CHUNK_COUNT) ==> r
                is Err,
    {
        if self.content.data.len() != SEGMENT_LENGTH {
            return Err("segment does not hold a full cell of scalars".to_string());
        }
        let n = self.content.data.len();
        for i in 0..n
            invariant
                n == self.content.data@.len(),
                forall|j: int| 0 <= j < i ==> (#[trigger] self.content.data@[j]).wf(),
        {
            if self.content.data[i].bytes.len() != 32 {
                return Err("segment scalar does not hold 32 bytes".to_string());
            }
        }
        if self.content.proof.bytes.len() != crate::kzg::BYTES_PER_G1_POINT {
            return Err("segment proof does not hold 48 bytes".to_string());
        }
        let flat = scalars_to_bytes(&self.content.data);
        kzg.check_proof_multi(commitment, self.position.x, chunk_count, &flat, &self.content.proof)
    }
}

/// Count of present entries in a dense row.
pub open spec fn count_present(row: Seq<Option<SegmentData>>) -> int
    decreases row.len(),
{
    if row.len() == 0 {
        0
    } else {
        count_present(row.drop_last()) + (if row.last() is Some {
            1int
        } else {
            0int
        })
    }
}

/// A present segment content carries exactly the cell's bytes.
pub open spec fn segment_data_matches_cell(sd: SegmentData, cell: Seq<u8>) -> bool {
    &&& sd.data@.len() == SEGMENT_LENGTH
    &&& (forall|j: int|
        0 <= j < SEGMENT_LENGTH ==> (#[trigger] sd.data@[j])@ == cell.subrange(
            32 * j,
            32 * j + 32,
        ))
}

/// The row's present entries agree with the extension of blob `b`, and
/// at least half of them are present.
pub open spec fn row_matches_blob(row: Seq<Option<SegmentData>>, b: Seq<u8>) -> bool {
    &&& b.len() == crate::BYTES_PER_BLOB
    &&& cells_of(b).len() == CHUNK_COUNT
    &&& (forall|i: int|
        0 <= i < CHUNK_COUNT ==> (#[trigger] cells_of(b)[i]).len() == BYTES_PER_SEGMENT)
    &&& count_present(row) >= CHUNK_COUNT / 2
    &&& (forall|i: int|
        0 <= i < row.len() ==> ((#[trigger] row[i]) matches Some(sd)
            ==> segment_data_matches_cell(sd, cells_of(b)[i])))
}

/// One lane of two cells, picked out of the lane-equality hypothesis.
proof fn lemma_pick_lane(a: Seq<u8>, c: Seq<u8>, j: int)
    requires
        forall|t: int|
            0 <= t < SEGMENT_LENGTH ==> #[trigger] a.subrange(32 * t, 32 * t + 32) == c.subrange(
                32 * t,
                32 * t + 32,
            ),
        0 <= j < SEGMENT_LENGTH,
    ensures
        a.subrange(32 * j, 32 * j + 32) == c.subrange(32 * j, 32 * j + 32),
{
}

/// Cells agreeing on every 32-byte lane are equal.
proof fn lemma_lanes_determine(a: Seq<u8>, c: Seq<u8>)
    requires
        a.len() == BYTES_PER_SEGMENT,
        c.len() == BYTES_PER_SEGMENT,
        forall|t: int|
            0 <= t < SEGMENT_LENGTH ==> #[trigger] a.subrange(32 * t, 32 * t + 32) == c.subrange(
                32 * t,
                32 * t + 32,
            ),
    ensures
        a == c,
{
    assert forall|t: int| 0 <= t < a.len() implies a[t] == c[t] by {
        let j = t / 32;
        let o = t % 32;
        assert(0 <= j < SEGMENT_LENGTH);
        assert(t == 32 * j + o);
        lemma_pick_lane(a, c, j);
        assert(a.subrange(32 * j, 32 * j + 32)[o] == a[t]);
        assert(c.subrange(32 * j, 32 * j + 32)[o] == c[t]);
    }
    assert(a =~= c);
}

/// Rebuilds the full extended row from the segments that are present;
/// the backend needs at least half of them.  When the present segments
/// agree with some blob's extension at half the columns or more,
/// recovery succeeds and the result is exactly that extension's
/// scalars, cell by cell.
#[verifier::rlimit(100)]
#[verifier::spinoff_prover]
#[verifier::loop_isolation(false)]
pub fn recover_row(kzg: &KZG, row: &Vec<Option<SegmentData>>) -> (r: Result<Vec<BlsScalar>, String>)
    requires
        row@.len() == CHUNK_COUNT,
        forall|i: int|
            0 <= i < row@.len() ==> ((#[trigger] row@[i]) matches Some(sd) ==> sd.wf()),
    ensures
        r matches Ok(v) ==> v@.len() == CHUNK_COUNT * SEGMENT_LENGTH && forall|i: int|
            0 <= i < v@.len() ==> (#[trigger] v@[i]).wf(),
        r is Ok || (forall|b: Seq<u8>| #![trigger cells_of(b)] !row_matches_blob(row@, b)),
        r matches Ok(v) ==> (forall|b: Seq<u8>|
            #![trigger cells_of(b)]
            row_matches_blob(row@, b) ==> (forall|i: int, j: int|
                0 <= i < CHUNK_COUNT && 0 <= j < SEGMENT_LENGTH ==> (#[trigger] v@[i
                    * SEGMENT_LENGTH + j])@ == cells_of(b)[i].subrange(32 * j, 32 * j + 32))),
{
    let mut cell_indices: Vec<u64> = Vec::new();
    let mut cells: Vec<Vec<u8>> = Vec::new();
    proof {
        assert(row@.take(0) =~= Seq::<Option<SegmentData>>::empty());
    }
    for i in 0..CHUNK_COUNT
        invariant
            cell_indices@.len() == cells@.len(),
            cell_indices@.len() == count_present(row@.take(i as int)),
            forall|t: int|
                0 <= t < cells@.len() ==> (#[trigger] cells@[t])@.len() == BYTES_PER_SEGMENT,
            forall|t: int| 0 <= t < cell_indices@.len() ==> (#[trigger] cell_indices@[t]) < i,
            forall|t1: int, t2: int|
                0 <= t1 < t2 < cell_indices@.len() ==> (#[trigger] cell_indices@[t1]) < (
                #[trigger] cell_indices@[t2]),
            forall|t: int|
                0 <= t < cell_indices@.len() ==> ({
                    let ci = (#[trigger] cell_indices@[t]) as int;
                    &&& (row@[ci] matches Some(sd) && sd.data@.len() == SEGMENT_LENGTH && (forall|
                        j: int,
                    |
                        0 <= j < SEGMENT_LENGTH ==> cells@[t]@.subrange(32 * j, 32 * j + 32) == (
                        #[trigger] sd.data@[j])@))
                }),
    {
        proof {
            assert(row@.take(i as int + 1).drop_last() =~= row@.take(i as int));
            assert(row@.take(i as int + 1).last() == row@[i as int]);
        }
        match &row[i] {
            Some(sd) => {
                cell_indices.push(i as u64);
                cells.push(scalars_to_bytes(&sd.data));
            },
            None => {},
        }
    }
    proof {
        assert(row@.take(CHUNK_COUNT as int) =~= row@);
    }
    let ghost cellviews = cells@.map_values(|c: Vec<u8>| c@);
    proof {
        assert forall|b: Seq<u8>|
            #![trigger cells_of(b)]
            row_matches_blob(row@, b) implies crate::kzg::cells_consistent_with(
            b,
            cell_indices@,
            cellviews,
        ) by {
            assert forall|t: int|
                0 <= t < cell_indices@.len() implies (#[trigger] cell_indices@[t])
                < CHUNK_COUNT as u64 && cellviews[t] == cells_of(b)[cell_indices@[t] as int] by {
                let ci = cell_indices@[t] as int;
                assert(row@[ci] is Some);
                let sd = row@[ci]->Some_0;
                assert(segment_data_matches_cell(sd, cells_of(b)[ci]));
                assert forall|j: int|
                    0 <= j < SEGMENT_LENGTH implies #[trigger] cellviews[t].subrange(
                    32 * j,
                    32 * j + 32,
                ) == cells_of(b)[ci].subrange(32 * j, 32 * j + 32) by {
                    assert(cells@[t]@.subrange(32 * j, 32 * j + 32) == sd.data@[j]@);
                }
                lemma_lanes_determine(cellviews[t], cells_of(b)[ci]);
            }
        }
    }
    let rec = match crate::kzg::recover_cells_raw(&kzg.ks, &cell_indices, &cells) {
        Ok(rec) => rec,
        Err(e) => {
            return Err(e);
        },
    };
    let ghost recv = rec@.map_values(|c: Vec<u8>| c@);
    let mut out: Vec<BlsScalar> = Vec::new();
    for i in 0..CHUNK_COUNT
        invariant
            rec@.len() == CHUNK_COUNT,
            recv == rec@.map_values(|c: Vec<u8>| c@),
            forall|t: int|
                0 <= t < CHUNK_COUNT ==> (#[trigger] rec@[t])@.len() == BYTES_PER_SEGMENT,
            out@.len() == i * SEGMENT_LENGTH,
            forall|t: int|
                0 <= t < out@.len() ==> (#[trigger] out@[t]).wf() && out@[t]@ == recv[t
                    / 64].subrange(32 * (t % 64), 32 * (t % 64) + 32),
    {
        let mut part = bytes_to_scalars(rec[i].as_slice());
        let ghost prev = out@;
        let ghost partv = part@;
        out.append(&mut part);
        proof {
            assert(out@ == prev + partv);
            assert forall|t: int|
                0 <= t < out@.len() implies (#[trigger] out@[t]).wf() && out@[t]@ == recv[t
                / 64].subrange(32 * (t % 64), 32 * (t % 64) + 32) by {
                if t >= prev.len() {
                    let j = t - prev.len();
                    assert(out@[t] == partv[j]);
                    assert(t / 64 == i as int && t % 64 == j) by (nonlinear_arith)
                        requires
                            t == i as int * 64 + j && 0 <= j < 64,
                    ;
                }
            }
        }
    }
    proof {
        assert forall|b: Seq<u8>|
            #![trigger cells_of(b)]
            row_matches_blob(row@, b) implies (forall|i: int, j: int|
            0 <= i < CHUNK_COUNT && 0 <= j < SEGMENT_LENGTH ==> (#[trigger] out@[i * SEGMENT_LENGTH
                + j])@ == cells_of(b)[i].subrange(32 * j, 32 * j + 32)) by {
            assert(recv == cells_of(b));
            assert forall|i: int, j: int|
                0 <= i < CHUNK_COUNT && 0 <= j < SEGMENT_LENGTH implies (#[trigger] out@[i
                * SEGMENT_LENGTH + j])@ == cells_of(b)[i].subrange(32 * j, 32 * j + 32) by {
                let t = i * SEGMENT_LENGTH + j;
                assert(0 <= t < out@.len()) by (nonlinear_arith)
                    requires
                        t == i * 64 + j && 0 <= i < 128 && 0 <= j < 64 && out@.len() == 128 * 64,
                ;
                assert(t / 64 == i && t % 64 == j) by (nonlinear_arith)
                    requires
                        t == i * 64 + j && 0 <= j < 64,
                ;
            }
        }
    }
    Ok(out)
}

} // verus!
