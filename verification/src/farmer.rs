//! The farmer's plot: keyed hashes over stored cells and the indices
//! that make mining a lookup.
//!
//! Every cell of a plotted piece gets an X value, a hash of the
//! farmer's id and the cell's scalar folded into a bucket; cells with
//! an even flat index are tagged left, odd ones right.  When two cells
//! of opposite tags collide on X, a Z entry binding the ordered pair is
//! materialised, so mining can query collisions in constant time.

use vstd::prelude::*;
use blake2::Digest;
use crate::kzg::BlsScalar;
use crate::piece::CellMetadata;
use crate::piece::Piece;
use crate::piece::PieceMetadata;
use crate::piece::spec_enc_cell_metadata;
use crate::piece::spec_cell_metadata_block_ok;
use crate::piece::spec_cell_metadata_of_block;
use crate::piece::spec_enc_piece;
use crate::piece::spec_piece_key;
use crate::piece::encode_cell_metadata;
use crate::piece::decode_cell_metadata_block;
use crate::piece::lemma_cell_metadata_round_trip;
use crate::piece::lemma_plot_round_trip;
use crate::store::DasKv;

verus! {

/// The digest of the Blake2b hash with a 32-byte output; a function of
/// the input bytes alone.
pub uninterp spec fn blake2b256_of(data: Seq<u8>) -> Seq<u8>;

/// Relies on blake2::Blake2b with a 32-byte output: the digest depends
/// on the input bytes alone and always holds 32 bytes.
#[verifier::external_body]
pub fn blake2b_256(data: &[u8]) -> (r: Vec<u8>)
    ensures
        r@ == blake2b256_of(data@),
        r@.len() == 32,
{
    let mut h = blake2::Blake2b::<blake2::digest::consts::U32>::new();
    h.update(data);
    h.finalize().to_vec()
}

/// A farmer's identity: the 32-byte hash of its account id.
#[derive(Debug)]
pub struct FarmerId(pub Vec<u8>);

impl View for FarmerId {
    type V = Seq<u8>;

    open spec fn view(&self) -> Seq<u8> {
        self.0@
    }
}

impl FarmerId {
    pub open spec fn wf(&self) -> bool {
        self@.len() == 32
    }

    /// Derives the id from the account's encoded bytes.
    pub fn new(account: &[u8]) -> (r: FarmerId)
        ensures
            r@ == blake2b256_of(account@),
            r.wf(),
    {
        FarmerId(blake2b_256(account))
    }
}

impl Clone for FarmerId {
    fn clone(&self) -> (r: Self)
        ensures
            r@ == self@,
    {
        let mut out: Vec<u8> = Vec::new();
        crate::codec::encode_raw(&mut out, self.0.as_slice());
        FarmerId(out)
    }
}

impl Default for FarmerId {
    /// The all-zero id, for tests and placeholders.
    fn default() -> (r: Self)
        ensures
            r@ == Seq::new(32nat, |i: int| 0u8),
    {
        let mut out: Vec<u8> = Vec::new();
        for i in 0..32usize
            invariant
                out@ =~= Seq::new(i as nat, |j: int| 0u8),
        {
            out.push(0u8);
            assert(out@ =~= Seq::new(i as nat + 1, |j: int| 0u8));
        }
        FarmerId(out)
    }
}

/// The left/right tag of a cell: the low bit of its flat index.
#[derive(Debug, Clone, Copy, PartialEq, Eq, Structural)]
pub enum YPos {
    Left(u32),
    Right(u32),
}

impl YPos {
    /// Spec-level tag of an index.
    pub open spec fn from_u32_spec(pos: u32) -> YPos {
        if pos % 2 == 0 {
            YPos::Left(pos)
        } else {
            YPos::Right(pos)
        }
    }

    /// Tags an index: even is left, odd is right.
    pub fn from_u32(pos: u32) -> (r: YPos)
        ensures
            r == YPos::from_u32_spec(pos),
            pos % 2 == 0 ==> r == YPos::Left(pos),
            pos % 2 != 0 ==> r == YPos::Right(pos),
    {
        if pos % 2 == 0 {
            YPos::Left(pos)
        } else {
            YPos::Right(pos)
        }
    }

    /// Whether two tags pair up as a left/right couple.
    pub fn is_opposite(&self, other: &YPos) -> (r: bool)
        ensures
            r == ((self is Left && other is Right) || (self is Right && other is Left)),
    {
        match (self, other) {
            (YPos::Left(_), YPos::Right(_)) => true,
            (YPos::Right(_), YPos::Left(_)) => true,
            _ => false,
        }
    }
}

/// The XOR fold of a 32-byte digest into one bucket word.
pub open spec fn xor_fold(h: Seq<u8>) -> u32
    recommends
        h.len() == 32,
{
    (crate::codec::spec_dec_u32_val(h.subrange(0, 4)) ^ crate::codec::spec_dec_u32_val(
        h.subrange(4, 8),
    ) ^ crate::codec::spec_dec_u32_val(h.subrange(8, 12)) ^ crate::codec::spec_dec_u32_val(
        h.subrange(12, 16),
    ) ^ crate::codec::spec_dec_u32_val(h.subrange(16, 20)) ^ crate::codec::spec_dec_u32_val(
        h.subrange(20, 24),
    ) ^ crate::codec::spec_dec_u32_val(h.subrange(24, 28)) ^ crate::codec::spec_dec_u32_val(
        h.subrange(28, 32),
    ))
}

/// The X value of a scalar under a farmer's key.
#[verifier::opaque]
pub open spec fn spec_x_of(farmer: Seq<u8>, scalar: Seq<u8>) -> u32 {
    xor_fold(blake2b256_of(farmer + scalar))
}

/// Computes the X value: hash the farmer id and the scalar, fold the
/// digest into a bucket.
pub fn calculate_x(farmer_id: &FarmerId, scalar: &BlsScalar) -> (r: u32)
    ensures
        r == spec_x_of(farmer_id@, scalar@),
{
    proof {
        reveal(spec_x_of);
    }
    let mut data: Vec<u8> = Vec::new();
    crate::codec::encode_raw(&mut data, farmer_id.0.as_slice());
    crate::codec::encode_raw(&mut data, scalar.bytes.as_slice());
    assert(data@ =~= farmer_id@ + scalar@);
    let h = blake2b_256(data.as_slice());
    let w0 = match crate::codec::decode_u32(h.as_slice(), 0) {
        Some(p) => p.0,
        None => {
            return 0;
        },
    };
    let w1 = match crate::codec::decode_u32(h.as_slice(), 4) {
        Some(p) => p.0,
        None => {
            return 0;
        },
    };
    let w2 = match crate::codec::decode_u32(h.as_slice(), 8) {
        Some(p) => p.0,
        None => {
            return 0;
        },
    };
    let w3 = match crate::codec::decode_u32(h.as_slice(), 12) {
        Some(p) => p.0,
        None => {
            return 0;
        },
    };
    let w4 = match crate::codec::decode_u32(h.as_slice(), 16) {
        Some(p) => p.0,
        None => {
            return 0;
        },
    };
    let w5 = match crate::codec::decode_u32(h.as_slice(), 20) {
        Some(p) => p.0,
        None => {
            return 0;
        },
    };
    let w6 = match crate::codec::decode_u32(h.as_slice(), 24) {
        Some(p) => p.0,
        None => {
            return 0;
        },
    };
    let w7 = match crate::codec::decode_u32(h.as_slice(), 28) {
        Some(p) => p.0,
        None => {
            return 0;
        },
    };
    w0 ^ w1 ^ w2 ^ w3 ^ w4 ^ w5 ^ w6 ^ w7
}

/// The `key` already holding `addition` appended to whatever the map
/// held before, or just `addition` when the key was absent.
pub open spec fn appended_value(
    c: Map<Seq<u8>, Seq<u8>>,
    key: Seq<u8>,
    addition: Seq<u8>,
) -> Seq<u8> {
    if c.contains_key(key) {
        c[key] + addition
    } else {
        addition
    }
}

/// The storage key of X bucket `x`.
pub open spec fn spec_x_key(x: u32) -> Seq<u8> {
    seq![120u8, 47u8] + crate::codec::spec_enc_u32(x)
}

/// The list of cell metadata held by an X bucket's value.
pub open spec fn spec_dec_cell_list(v: Seq<u8>) -> Option<Seq<CellMetadata>> {
    if v.len() % 13 == 0 {
        match crate::codec::spec_dec_blocks(v, (v.len() / 13) as nat, 13) {
            Some(p) => {
                if forall|i: int|
                    0 <= i < p.0.len() ==> spec_cell_metadata_block_ok(#[trigger] p.0[i]) {
                    Some(p.0.map_values(|b: Seq<u8>| spec_cell_metadata_of_block(b)))
                } else {
                    None
                }
            },
            None => None,
        }
    } else {
        None
    }
}

/// Indexes one cell under its X value.
#[derive(Debug, Clone, Copy, PartialEq, Eq, Structural)]
pub struct XValueManager {
    pub cell_metadata: CellMetadata,
    pub x: u32,
}

impl XValueManager {
    pub fn new(metadata: &PieceMetadata, index: u32, x: u32) -> (r: Self)
        ensures
            r == (XValueManager {
                cell_metadata: CellMetadata { piece_metadata: *metadata, pos: index },
                x,
            }),
    {
        XValueManager { cell_metadata: CellMetadata { piece_metadata: *metadata, pos: index }, x }
    }

    /// The bucket's storage key.
    pub fn key(&self) -> (r: Vec<u8>)
        ensures
            r@ == spec_x_key(self.x),
    {
        let mut out: Vec<u8> = Vec::new();
        out.push(120u8);
        out.push(47u8);
        crate::codec::encode_u32(&mut out, self.x);
        assert(out@ =~= spec_x_key(self.x));
        out
    }

    /// Appends this cell to its bucket.
    pub fn save<D: DasKv>(&self, db: &mut D)
        ensures
            final(db).contents() == old(db).contents().insert(
                spec_x_key(self.x),
                appended_value(
                    old(db).contents(),
                    spec_x_key(self.x),
                    spec_enc_cell_metadata(self.cell_metadata),
                ),
            ),
    {
        let key = self.key();
        let mut value: Vec<u8> = match db.get(key.as_slice()) {
            Some(v) => v,
            None => Vec::new(),
        };
        encode_cell_metadata(&mut value, &self.cell_metadata);
        db.set(key.as_slice(), value.as_slice());
    }

    /// The cells already indexed in this bucket; an undecodable bucket
    /// is an error.
    #[verifier::loop_isolation(false)]
    pub fn match_cells<D: DasKv>(&self, db: &mut D) -> (r: Result<Vec<CellMetadata>, String>)
        ensures
            final(db).contents() == old(db).contents(),
            ({
                let c = old(db).contents();
                let key = spec_x_key(self.x);
                &&& (!c.contains_key(key) ==> (r matches Ok(list) && list@.len() == 0))
                &&& (c.contains_key(key) ==> (match spec_dec_cell_list(c[key]) {
                    Some(cells) => r matches Ok(list) && list@ == cells,
                    None => r is Err,
                }))
            }),
    {
        let key = self.key();
        let value = match db.get(key.as_slice()) {
            Some(v) => v,
            None => {
                return Ok(Vec::new());
            },
        };
        if value.len() % 13 != 0 {
            return Err("x bucket holds a partial entry".to_string());
        }
        let n = value.len() / 13;
        let blocks = match crate::codec::decode_raw_blocks(value.as_slice(), 0, n, 13) {
            Some(p) => p.0,
            None => {
                proof {
                    assert(value@.skip(0) =~= value@);
                }
                return Err("x bucket is shorter than its entries".to_string());
            },
        };
        proof {
            assert(value@.skip(0) =~= value@);
            crate::codec::lemma_dec_blocks_shape(value@, n as nat, 13);
        }
        let ghost block_views = blocks@.map_values(|b: Vec<u8>| b@);
        let mut cells: Vec<CellMetadata> = Vec::new();
        let bn = blocks.len();
        for i in 0..bn
            invariant
                bn == blocks@.len(),
                block_views == blocks@.map_values(|b: Vec<u8>| b@),
                forall|j: int| 0 <= j < bn ==> (#[trigger] block_views[j]).len() == 13,
                cells@.len() == i,
                forall|j: int| 0 <= j < i ==> spec_cell_metadata_block_ok(#[trigger] block_views[j]),
                forall|j: int|
                    0 <= j < i ==> #[trigger] cells@[j] == spec_cell_metadata_of_block(
                        block_views[j],
                    ),
        {
            let b = &blocks[i];
            proof {
                assert(b@ == block_views[i as int]);
            }
            match decode_cell_metadata_block(b.as_slice()) {
                Some(cm) => {
                    cells.push(cm);
                },
                None => {
                    return Err("x bucket holds a malformed entry".to_string());
                },
            }
        }
        proof {
            assert(cells@ =~= block_views.map_values(|b: Seq<u8>| spec_cell_metadata_of_block(b)));
        }
        Ok(cells)
    }
}

/// The storage key of the Z entry with digest `z`.
pub open spec fn spec_z_key(z: Seq<u8>) -> Seq<u8> {
    seq![122u8, 47u8] + z
}

/// The digest binding an ordered pair of colliding cells.
pub open spec fn spec_z_of(
    left: CellMetadata,
    right: CellMetadata,
    left_scalar: Seq<u8>,
    right_scalar: Seq<u8>,
) -> Seq<u8> {
    blake2b256_of(
        spec_enc_cell_metadata(left) + spec_enc_cell_metadata(right) + left_scalar + right_scalar,
    )
}

/// The 26-byte block of an ordered pair.
pub open spec fn spec_enc_cell_pair(left: CellMetadata, right: CellMetadata) -> Seq<u8> {
    spec_enc_cell_metadata(left) + spec_enc_cell_metadata(right)
}

/// Binds two colliding cells, left role first.
#[derive(Debug)]
pub struct ZValueManager {
    pub left: CellMetadata,
    pub right: CellMetadata,
    pub z: Vec<u8>,
}

impl ZValueManager {
    pub fn new(
        left: &CellMetadata,
        right: &CellMetadata,
        left_scalar: &BlsScalar,
        right_scalar: &BlsScalar,
    ) -> (r: Self)
        ensures
            r.left == *left,
            r.right == *right,
            r.z@ == spec_z_of(*left, *right, left_scalar@, right_scalar@),
    {
        let mut data: Vec<u8> = Vec::new();
        encode_cell_metadata(&mut data, left);
        encode_cell_metadata(&mut data, right);
        crate::codec::encode_raw(&mut data, left_scalar.bytes.as_slice());
        crate::codec::encode_raw(&mut data, right_scalar.bytes.as_slice());
        assert(data@ =~= spec_enc_cell_metadata(*left) + spec_enc_cell_metadata(*right)
            + left_scalar@ + right_scalar@);
        let z = blake2b_256(data.as_slice());
        ZValueManager { left: *left, right: *right, z }
    }

    /// The entry's storage key.
    pub fn key(&self) -> (r: Vec<u8>)
        ensures
            r@ == spec_z_key(self.z@),
    {
        let mut out: Vec<u8> = Vec::new();
        out.push(122u8);
        out.push(47u8);
        crate::codec::encode_raw(&mut out, self.z.as_slice());
        assert(out@ =~= spec_z_key(self.z@));
        out
    }

    /// Appends the ordered pair to its Z entry.
    pub fn save<D: DasKv>(&self, db: &mut D)
        ensures
            final(db).contents() == old(db).contents().insert(
                spec_z_key(self.z@),
                appended_value(
                    old(db).contents(),
                    spec_z_key(self.z@),
                    spec_enc_cell_pair(self.left, self.right),
                ),
            ),
    {
        let key = self.key();
        let mut value: Vec<u8> = match db.get(key.as_slice()) {
            Some(v) => v,
            None => Vec::new(),
        };
        encode_cell_metadata(&mut value, &self.left);
        encode_cell_metadata(&mut value, &self.right);
        proof {
            assert(value@ =~= appended_value(
                old(db).contents(),
                spec_z_key(self.z@),
                spec_enc_cell_pair(self.left, self.right),
            ));
        }
        db.set(key.as_slice(), value.as_slice());
    }
}

/// The scalar bytes of flat cell `t` of a piece.
pub open spec fn cell_scalar(p: crate::piece::PieceView, t: int) -> Seq<u8> {
    p.segments[t / 64].content.data[t % 64]
}

/// A key of the plot indices: an X bucket or a Z entry.
pub open spec fn plot_index_key(k: Seq<u8>) -> bool {
    k.len() >= 2 && k[1] == 47u8 && (k[0] == 120u8 || k[0] == 122u8)
}

/// No plot-index key is present: the farmer plots into a store that
/// holds no foreign buckets.
pub open spec fn plot_index_free(c: Map<Seq<u8>, Seq<u8>>) -> bool {
    forall|k: Seq<u8>| #[trigger] c.contains_key(k) ==> !plot_index_key(k)
}

/// The 13-byte blocks an X bucket holds once the first `upto` cells of
/// a piece are indexed: one block per earlier cell whose X value is
/// `xv`, in cell order.
pub open spec fn bucket_blocks(
    xs: Seq<(u32, BlsScalar)>,
    upto: int,
    xv: u32,
    m: PieceMetadata,
) -> Seq<Seq<u8>>
    decreases upto,
{
    if upto <= 0 {
        Seq::empty()
    } else if xs[upto - 1].0 == xv {
        bucket_blocks(xs, upto - 1, xv, m).push(
            spec_enc_cell_metadata(CellMetadata { piece_metadata: m, pos: (upto - 1) as u32 }),
        )
    } else {
        bucket_blocks(xs, upto - 1, xv, m)
    }
}

/// The cell metas in that bucket.
pub open spec fn bucket_metas(
    xs: Seq<(u32, BlsScalar)>,
    upto: int,
    xv: u32,
    m: PieceMetadata,
) -> Seq<CellMetadata>
    decreases upto,
{
    if upto <= 0 {
        Seq::empty()
    } else if xs[upto - 1].0 == xv {
        bucket_metas(xs, upto - 1, xv, m).push(
            CellMetadata { piece_metadata: m, pos: (upto - 1) as u32 },
        )
    } else {
        bucket_metas(xs, upto - 1, xv, m)
    }
}

/// Shape of a bucket: blocks encode the metas, metas point below
/// `upto` at cells with the bucket's X value, and every such cell is
/// present.
pub proof fn lemma_bucket_shape(xs: Seq<(u32, BlsScalar)>, upto: int, xv: u32, m: PieceMetadata)
    requires
        0 <= upto <= u32::MAX,
    ensures
        bucket_blocks(xs, upto, xv, m).len() == bucket_metas(xs, upto, xv, m).len(),
        forall|k: int|
            0 <= k < bucket_metas(xs, upto, xv, m).len() ==> (#[trigger] bucket_blocks(
                xs,
                upto,
                xv,
                m,
            )[k]) == spec_enc_cell_metadata(bucket_metas(xs, upto, xv, m)[k]),
        forall|k: int|
            0 <= k < bucket_metas(xs, upto, xv, m).len() ==> ({
                let c = #[trigger] bucket_metas(xs, upto, xv, m)[k];
                &&& c.piece_metadata == m
                &&& c.pos < upto
                &&& xs[c.pos as int].0 == xv
            }),
        forall|t: int|
            0 <= t < upto && (#[trigger] xs[t]).0 == xv ==> bucket_metas(
                xs,
                upto,
                xv,
                m,
            ).contains(CellMetadata { piece_metadata: m, pos: t as u32 }),
    decreases upto,
{
    if upto > 0 {
        lemma_bucket_shape(xs, upto - 1, xv, m);
        assert forall|t: int| 0 <= t < upto && (#[trigger] xs[t]).0 == xv implies bucket_metas(
            xs,
            upto,
            xv,
            m,
        ).contains(CellMetadata { piece_metadata: m, pos: t as u32 }) by {
            let want = CellMetadata { piece_metadata: m, pos: t as u32 };
            if t == upto - 1 {
                assert(bucket_metas(xs, upto, xv, m).last() == want);
            } else {
                assert(bucket_metas(xs, upto - 1, xv, m).contains(want));
                let k = choose|k: int|
                    0 <= k < bucket_metas(xs, upto - 1, xv, m).len() && (#[trigger] bucket_metas(
                        xs,
                        upto - 1,
                        xv,
                        m,
                    )[k]) == want;
                assert(bucket_metas(xs, upto, xv, m)[k] == want);
            }
        }
    }
}

/// The bucket's byte value decodes to exactly its metas.
pub proof fn lemma_bucket_decode(xs: Seq<(u32, BlsScalar)>, upto: int, xv: u32, m: PieceMetadata)
    requires
        0 <= upto <= u32::MAX,
    ensures
        spec_dec_cell_list(
            crate::codec::spec_enc_blocks(bucket_blocks(xs, upto, xv, m)),
        ) == Some(bucket_metas(xs, upto, xv, m)),
{
    let blocks = bucket_blocks(xs, upto, xv, m);
    let metas = bucket_metas(xs, upto, xv, m);
    lemma_bucket_shape(xs, upto, xv, m);
    assert forall|k: int| 0 <= k < blocks.len() implies (#[trigger] blocks[k]).len() == 13 by {
        lemma_cell_metadata_round_trip(metas[k]);
    }
    crate::codec::lemma_dec_enc_blocks(blocks, Seq::empty(), 13);
    let v = crate::codec::spec_enc_blocks(blocks);
    assert(v + Seq::<u8>::empty() =~= v);
    assert(v.len() == blocks.len() * 13);
    assert(blocks.len() * 13 % 13 == 0 && blocks.len() * 13 / 13 == blocks.len())
        by (nonlinear_arith);
    assert forall|k: int| 0 <= k < blocks.len() implies spec_cell_metadata_block_ok(
        #[trigger] blocks[k],
    ) by {
        lemma_cell_metadata_round_trip(metas[k]);
    }
    assert(blocks.map_values(|b: Seq<u8>| spec_cell_metadata_of_block(b)) =~= metas) by {
        assert forall|k: int| 0 <= k < blocks.len() implies spec_cell_metadata_of_block(
            #[trigger] blocks[k],
        ) == metas[k] by {
            lemma_cell_metadata_round_trip(metas[k]);
        }
    }
}

/// A Z entry binding the ordered pair is present: the entry's key
/// exists and one of its aligned 26-byte blocks is the encoded pair.
pub open spec fn z_pair_present(
    c: Map<Seq<u8>, Seq<u8>>,
    left: CellMetadata,
    right: CellMetadata,
    left_scalar: Seq<u8>,
    right_scalar: Seq<u8>,
) -> bool {
    let zk = spec_z_key(spec_z_of(left, right, left_scalar, right_scalar));
    &&& c.contains_key(zk)
    &&& exists|k: int|
        0 <= k && 26 * k + 26 <= c[zk].len() && #[trigger] c[zk].subrange(26 * k, 26 * k + 26)
            == spec_enc_cell_pair(left, right)
}

/// The collision of cells `i` and `j` of a plotted piece is recorded:
/// a Z entry binds the even-index cell as left to the odd-index cell
/// as right.
#[verifier::opaque]
pub open spec fn collision_recorded(
    c: Map<Seq<u8>, Seq<u8>>,
    p: crate::piece::PieceView,
    m: PieceMetadata,
    i: int,
    j: int,
) -> bool {
    let el = if i % 2 == 0 {
        i
    } else {
        j
    };
    let od = if i % 2 == 0 {
        j
    } else {
        i
    };
    z_pair_present(
        c,
        CellMetadata { piece_metadata: m, pos: el as u32 },
        CellMetadata { piece_metadata: m, pos: od as u32 },
        cell_scalar(p, el),
        cell_scalar(p, od),
    )
}

/// Every X bucket holds exactly the cells of the first `upto` that
/// fold to it.
pub open spec fn buckets_ok(
    c: Map<Seq<u8>, Seq<u8>>,
    xs: Seq<(u32, BlsScalar)>,
    upto: int,
    m: PieceMetadata,
) -> bool {
    forall|xv: u32|
        #![trigger spec_x_key(xv)]
        ({
            let bkey = spec_x_key(xv);
            let blocks = bucket_blocks(xs, upto, xv, m);
            &&& (c.contains_key(bkey) <==> blocks.len() > 0)
            &&& (c.contains_key(bkey) ==> c[bkey] == crate::codec::spec_enc_blocks(blocks))
        })
}

/// Every Z entry holds whole 26-byte pairs.
pub open spec fn z_lengths_ok(c: Map<Seq<u8>, Seq<u8>>) -> bool {
    forall|k: Seq<u8>|
        (#[trigger] c.contains_key(k)) && k.len() >= 2 && k[0] == 122u8 && k[1] == 47u8 ==> c[
            k
        ].len() % 26 == 0
}

/// Every opposite-tag X collision among the first `upto` cells is
/// recorded.
pub open spec fn pairs_ok(
    c: Map<Seq<u8>, Seq<u8>>,
    p: crate::piece::PieceView,
    m: PieceMetadata,
    farmer: Seq<u8>,
    upto: int,
) -> bool {
    forall|i: int, j: int|
        0 <= i < j < upto && i % 2 != j % 2 && spec_x_of(farmer, cell_scalar(p, i)) == spec_x_of(
            farmer,
            cell_scalar(p, j),
        ) ==> #[trigger] collision_recorded(c, p, m, i, j)
}

impl Piece {
    /// The X value and scalar of every cell of the piece, in flat cell
    /// order.
    #[verifier::loop_isolation(false)]
    pub fn x_values_iterator(&self, farmer_id: &FarmerId) -> (r: Vec<(u32, BlsScalar)>)
        requires
            self.wf(),
            self.segments@.len() * 64 <= u32::MAX,
        ensures
            r@.len() == self.segments@.len() * 64,
            forall|t: int|
                0 <= t < r@.len() ==> (#[trigger] r@[t]).0 == spec_x_of(
                    farmer_id@,
                    self@.segments[t / 64].content.data[t % 64],
                ) && r@[t].1@ == self@.segments[t / 64].content.data[t % 64],
    {
        let mut out: Vec<(u32, BlsScalar)> = Vec::new();
        let n = self.segments.len();
        for s in 0..n
            invariant
                out@.len() == s * 64,
                forall|t: int|
                    0 <= t < out@.len() ==> (#[trigger] out@[t]).0 == spec_x_of(
                        farmer_id@,
                        self@.segments[t / 64].content.data[t % 64],
                    ) && out@[t].1@ == self@.segments[t / 64].content.data[t % 64],
        {
            for j in 0..64usize
                invariant
                    s < n,
                    out@.len() == s * 64 + j,
                    forall|t: int|
                        0 <= t < out@.len() ==> (#[trigger] out@[t]).0 == spec_x_of(
                            farmer_id@,
                            self@.segments[t / 64].content.data[t % 64],
                        ) && out@[t].1@ == self@.segments[t / 64].content.data[t % 64],
            {
                let scalar = self.segments[s].content.data[j].clone();
                let x = calculate_x(farmer_id, &scalar);
                proof {
                    assert((s * 64 + j) / 64 == s as int && (s * 64 + j) % 64 == j as int)
                        by (nonlinear_arith)
                        requires
                            0 <= j < 64 && 0 <= s,
                    ;
                }
                out.push((x, scalar));
            }
        }
        out
    }

    /// Plots the piece: stores it whole, indexes every cell by its X
    /// value, and materialises a Z entry for every opposite-tag
    /// collision found against the already-indexed cells.  Whatever
    /// happens, the piece itself is stored and only plot-index keys are
    /// touched beside it.  On success every X bucket holds what it held
    /// before with this piece's matching cells appended, whatever the
    /// store held.  Into a store that holds no plot indices yet,
    /// plotting always succeeds, the X buckets hold exactly this
    /// piece's cells, and every opposite-tag X collision between two of
    /// its cells is recorded as a Z entry; what a plot mixed with
    /// foreign indices yields depends on those indices' contents.
    #[verifier::loop_isolation(false)]
    pub fn save<D: DasKv>(&self, db: &mut D, farmer_id: &FarmerId) -> (r: Result<(), String>)
        requires
            self.wf(),
            self.segments@.len() * 64 <= u32::MAX,
        ensures
            final(db).contents().contains_key(spec_piece_key(self.metadata)),
            final(db).contents()[spec_piece_key(self.metadata)] == spec_enc_piece(self@),
            forall|k: Seq<u8>|
                k != spec_piece_key(self.metadata) && !plot_index_key(k) ==> (final(db).contents().contains_key(k) == old(db).contents().contains_key(k) && (
                #[trigger] final(db).contents().contains_key(k) ==> final(db).contents()[k] == old(db).contents()[k])),
            r is Ok ==> buckets_appended(
                old(db).contents(),
                final(db).contents(),
                self@,
                farmer_id@,
                (self.segments@.len() * 64) as int,
                self.metadata,
            ),
            plot_index_free(old(db).contents()) ==> ({
                &&& r is Ok
                &&& pairs_ok(
                    final(db).contents(),
                    self@,
                    self.metadata,
                    farmer_id@,
                    (self.segments@.len() * 64) as int,
                )
                &&& (forall|xv: u32|
                    #![trigger spec_x_key(xv)]
                    ({
                        let blocks = bucket_blocks_of(
                            self@,
                            farmer_id@,
                            (self.segments@.len() * 64) as int,
                            xv,
                            self.metadata,
                        );
                        &&& (final(db).contents().contains_key(spec_x_key(xv)) <==> blocks.len()
                            > 0)
                        &&& (final(db).contents().contains_key(spec_x_key(xv)) ==> final(db).contents()[spec_x_key(xv)] == crate::codec::spec_enc_blocks(blocks))
                    }))
            }),
    {
        let ghost m = self.metadata;
        let ghost pk = spec_piece_key(m);
        let ghost base = old(db).contents();
        let ghost clean = plot_index_free(old(db).contents());
        let bytes = self.encode();
        let key = self.key();
        db.set(key.as_slice(), bytes.as_slice());
        let xs = self.x_values_iterator(farmer_id);
        let n = xs.len();
        proof {
            assert forall|xv: u32|
                #![trigger spec_x_key(xv)]
                ({
                    let bkey = spec_x_key(xv);
                    let blocks = bucket_blocks_of(self@, farmer_id@, 0, xv, m);
                    &&& (db.contents().contains_key(bkey) <==> (base.contains_key(bkey)
                        || blocks.len() > 0))
                    &&& (db.contents().contains_key(bkey) ==> db.contents()[bkey]
                        == appended_value(base, bkey, crate::codec::spec_enc_blocks(blocks)))
                }) by {
                assert(spec_x_key(xv)[0] == 120u8 && pk[0] == 112u8);
                assert(spec_x_key(xv) != pk);
                if base.contains_key(spec_x_key(xv)) {
                    assert(base[spec_x_key(xv)] + Seq::<u8>::empty() =~= base[spec_x_key(xv)]);
                }
            }
            if clean {
                assert forall|xv: u32| !(#[trigger] db.contents().contains_key(spec_x_key(xv)))
                    by {
                    assert(plot_index_key(spec_x_key(xv)));
                    assert(spec_x_key(xv)[0] == 120u8 && pk[0] == 112u8);
                }
                assert forall|k: Seq<u8>|
                    (#[trigger] db.contents().contains_key(k)) && k.len() >= 2 && k[0] == 122u8
                        && k[1] == 47u8 implies db.contents()[k].len() % 26 == 0 by {
                    assert(plot_index_key(k));
                    assert(k != pk);
                }
            }
        }
        for index in 0..n
            invariant
                db.contents().contains_key(pk),
                db.contents()[pk] == spec_enc_piece(self@),
                forall|k: Seq<u8>|
                    k != pk && !plot_index_key(k) ==> (db.contents().contains_key(k) == old(db).contents().contains_key(k) && (#[trigger] db.contents().contains_key(k)
                        ==> db.contents()[k] == old(db).contents()[k])),
                buckets_appended(base, db.contents(), self@, farmer_id@, index as int, m),
                clean ==> buckets_ok(db.contents(), xs@, index as int, m),
                clean ==> z_lengths_ok(db.contents()),
                clean ==> pairs_ok(db.contents(), self@, m, farmer_id@, index as int),
        {
            let ghost mid = db.contents();
            match plot_cell(self, db, farmer_id, &xs, index) {
                Ok(()) => {},
                Err(e) => {
                    proof {
                        if clean {
                            assert(false);
                        }
                    }
                    return Err(e);
                },
            }
            proof {
                lemma_buckets_appended_step(
                    base,
                    mid,
                    db.contents(),
                    self@,
                    farmer_id@,
                    index as int,
                    m,
                );
            }
        }
        proof {
            if clean {
                assert forall|xv: u32|
                    #![trigger spec_x_key(xv)]
                    ({
                        let blocks = bucket_blocks_of(self@, farmer_id@, n as int, xv, m);
                        &&& (db.contents().contains_key(spec_x_key(xv)) <==> blocks.len() > 0)
                        &&& (db.contents().contains_key(spec_x_key(xv)) ==> db.contents()[spec_x_key(
                            xv,
                        )] == crate::codec::spec_enc_blocks(blocks))
                    }) by {
                    lemma_bucket_blocks_agree(xs@, self@, farmer_id@, n as int, xv, m);
                }
            }
        }
        Ok(())
    }
}

/// The 13-byte blocks an X bucket holds once the first `upto` cells of
/// a piece are indexed, described over the piece itself.
pub open spec fn bucket_blocks_of(
    p: crate::piece::PieceView,
    farmer: Seq<u8>,
    upto: int,
    xv: u32,
    m: PieceMetadata,
) -> Seq<Seq<u8>>
    decreases upto,
{
    if upto <= 0 {
        Seq::empty()
    } else if spec_x_of(farmer, cell_scalar(p, upto - 1)) == xv {
        bucket_blocks_of(p, farmer, upto - 1, xv, m).push(
            spec_enc_cell_metadata(CellMetadata { piece_metadata: m, pos: (upto - 1) as u32 }),
        )
    } else {
        bucket_blocks_of(p, farmer, upto - 1, xv, m)
    }
}

/// The X-value list of a plotted piece describes the same buckets as
/// the piece itself.
proof fn lemma_bucket_blocks_agree(
    xs: Seq<(u32, BlsScalar)>,
    p: crate::piece::PieceView,
    farmer: Seq<u8>,
    upto: int,
    xv: u32,
    m: PieceMetadata,
)
    requires
        0 <= upto <= xs.len(),
        forall|t: int|
            0 <= t < xs.len() ==> (#[trigger] xs[t]).0 == spec_x_of(farmer, cell_scalar(p, t)),
    ensures
        bucket_blocks(xs, upto, xv, m) == bucket_blocks_of(p, farmer, upto, xv, m),
    decreases upto,
{
    if upto > 0 {
        lemma_bucket_blocks_agree(xs, p, farmer, upto - 1, xv, m);
    }
}

/// Every X bucket of `c` holds whatever `base` held there with the
/// encodings of the piece's first `upto` matching cells appended, and
/// no bucket exists beyond those; the append semantics of plotting,
/// whatever the store held before.
pub open spec fn buckets_appended(
    base: Map<Seq<u8>, Seq<u8>>,
    c: Map<Seq<u8>, Seq<u8>>,
    p: crate::piece::PieceView,
    farmer: Seq<u8>,
    upto: int,
    m: PieceMetadata,
) -> bool {
    forall|xv: u32|
        #![trigger spec_x_key(xv)]
        ({
            let bkey = spec_x_key(xv);
            let blocks = bucket_blocks_of(p, farmer, upto, xv, m);
            &&& (c.contains_key(bkey) <==> (base.contains_key(bkey) || blocks.len() > 0))
            &&& (c.contains_key(bkey) ==> c[bkey] == appended_value(
                base,
                bkey,
                crate::codec::spec_enc_blocks(blocks),
            ))
        })
}

/// Appending one cell's encoding to its bucket advances the append
/// semantics by one cell.
proof fn lemma_buckets_appended_step(
    base: Map<Seq<u8>, Seq<u8>>,
    mid: Map<Seq<u8>, Seq<u8>>,
    after: Map<Seq<u8>, Seq<u8>>,
    p: crate::piece::PieceView,
    farmer: Seq<u8>,
    index: int,
    m: PieceMetadata,
)
    requires
        0 <= index <= u32::MAX,
        buckets_appended(base, mid, p, farmer, index, m),
        forall|xv: u32|
            #![trigger spec_x_key(xv)]
            xv != spec_x_of(farmer, cell_scalar(p, index)) ==> (after.contains_key(spec_x_key(xv))
                == mid.contains_key(spec_x_key(xv)) && (after.contains_key(spec_x_key(xv))
                ==> after[spec_x_key(xv)] == mid[spec_x_key(xv)])),
        after.contains_key(spec_x_key(spec_x_of(farmer, cell_scalar(p, index)))),
        after[spec_x_key(spec_x_of(farmer, cell_scalar(p, index)))] == appended_value(
            mid,
            spec_x_key(spec_x_of(farmer, cell_scalar(p, index))),
            spec_enc_cell_metadata(CellMetadata { piece_metadata: m, pos: index as u32 }),
        ),
    ensures
        buckets_appended(base, after, p, farmer, index + 1, m),
{
    let x = spec_x_of(farmer, cell_scalar(p, index));
    let xk = spec_x_key(x);
    let meta = spec_enc_cell_metadata(CellMetadata { piece_metadata: m, pos: index as u32 });
    assert forall|xv: u32|
        #![trigger spec_x_key(xv)]
        ({
            let bkey = spec_x_key(xv);
            let blocks = bucket_blocks_of(p, farmer, index + 1, xv, m);
            &&& (after.contains_key(bkey) <==> (base.contains_key(bkey) || blocks.len() > 0))
            &&& (after.contains_key(bkey) ==> after[bkey] == appended_value(
                base,
                bkey,
                crate::codec::spec_enc_blocks(blocks),
            ))
        }) by {
        let bkey = spec_x_key(xv);
        let blocks = bucket_blocks_of(p, farmer, index, xv, m);
        if xv == x {
            crate::codec::lemma_enc_blocks_push(blocks, meta);
            if mid.contains_key(xk) {
                if base.contains_key(xk) {
                    assert((base[xk] + crate::codec::spec_enc_blocks(blocks)) + meta =~= base[xk]
                        + (crate::codec::spec_enc_blocks(blocks) + meta));
                } else {
                    assert(crate::codec::spec_enc_blocks(blocks) + meta =~= crate::codec::spec_enc_blocks(
                        bucket_blocks_of(p, farmer, index + 1, xv, m),
                    ));
                }
            } else {
                assert(!base.contains_key(xk) && blocks.len() == 0);
                assert(crate::codec::spec_enc_blocks(blocks) =~= Seq::<u8>::empty());
                assert(Seq::<u8>::empty() + meta =~= meta);
            }
        }
    }
}

/// Plots one cell: reads its X bucket, materialises a Z entry for each
/// opposite-tag match, and appends the cell to the bucket.  Only
/// plot-index keys are touched; in a plot whose indices were built by
/// this module, the step succeeds and advances the bucket and pair
/// invariants.
#[verifier::rlimit(100)]
#[verifier::spinoff_prover]
fn plot_cell<D: DasKv>(
    piece: &Piece,
    db: &mut D,
    farmer_id: &FarmerId,
    xs: &Vec<(u32, BlsScalar)>,
    index: usize,
) -> (r: Result<(), String>)
    requires
        piece.wf(),
        piece.segments@.len() * 64 <= u32::MAX,
        xs@.len() == piece.segments@.len() * 64,
        index < xs@.len(),
        forall|t: int|
            0 <= t < xs@.len() ==> (#[trigger] xs@[t]).0 == spec_x_of(
                farmer_id@,
                cell_scalar(piece@, t),
            ) && xs@[t].1@ == cell_scalar(piece@, t),
        old(db).contents().contains_key(spec_piece_key(piece.metadata)),
        old(db).contents()[spec_piece_key(piece.metadata)] == spec_enc_piece(piece@),
    ensures
        final(db).contents().contains_key(spec_piece_key(piece.metadata)),
        final(db).contents()[spec_piece_key(piece.metadata)] == spec_enc_piece(piece@),
        forall|k: Seq<u8>|
            !plot_index_key(k) ==> (final(db).contents().contains_key(k) == old(db).contents().contains_key(k) && (#[trigger] final(db).contents().contains_key(k)
                ==> final(db).contents()[k] == old(db).contents()[k])),
        forall|xv: u32|
            #![trigger spec_x_key(xv)]
            xv != spec_x_of(farmer_id@, cell_scalar(piece@, index as int)) ==> (final(db).contents().contains_key(spec_x_key(xv)) == old(db).contents().contains_key(
                spec_x_key(xv),
            ) && (final(db).contents().contains_key(spec_x_key(xv)) ==> final(db).contents()[
                spec_x_key(xv)
            ] == old(db).contents()[spec_x_key(xv)])),
        r is Ok ==> final(db).contents().contains_key(
            spec_x_key(spec_x_of(farmer_id@, cell_scalar(piece@, index as int))),
        ),
        r is Ok ==> final(db).contents()[spec_x_key(
            spec_x_of(farmer_id@, cell_scalar(piece@, index as int)),
        )] == appended_value(
            old(db).contents(),
            spec_x_key(spec_x_of(farmer_id@, cell_scalar(piece@, index as int))),
            spec_enc_cell_metadata(
                CellMetadata { piece_metadata: piece.metadata, pos: index as u32 },
            ),
        ),
        (buckets_ok(old(db).contents(), xs@, index as int, piece.metadata) && z_lengths_ok(
            old(db).contents(),
        ) && pairs_ok(old(db).contents(), piece@, piece.metadata, farmer_id@, index as int)) ==> ({
            &&& r is Ok
            &&& buckets_ok(final(db).contents(), xs@, index as int + 1, piece.metadata)
            &&& z_lengths_ok(final(db).contents())
            &&& pairs_ok(
                final(db).contents(),
                piece@,
                piece.metadata,
                farmer_id@,
                index as int + 1,
            )
        }),
{
    let ghost m = piece.metadata;
    let ghost pk = spec_piece_key(m);
    let ghost ok_in = buckets_ok(old(db).contents(), xs@, index as int, m) && z_lengths_ok(
        old(db).contents(),
    ) && pairs_ok(old(db).contents(), piece@, m, farmer_id@, index as int);
    let x = xs[index].0;
    let cell_metadata = CellMetadata { piece_metadata: piece.metadata, pos: index as u32 };
    let xvm = XValueManager { cell_metadata, x };
    proof {
        lemma_bucket_decode(xs@, index as int, x, m);
        lemma_bucket_shape(xs@, index as int, x, m);
    }
    let match_list = match xvm.match_cells(db) {
        Ok(l) => l,
        Err(e) => {
            proof {
                if ok_in {
                    assert(false);
                }
            }
            return Err(e);
        },
    };
    let ghost metas = bucket_metas(xs@, index as int, x, m);
    proof {
        if ok_in && !db.contents().contains_key(spec_x_key(x)) {
            assert(bucket_blocks(xs@, index as int, x, m).len() == 0);
            assert(match_list@ =~= metas);
        }
    }
    let x_pos = YPos::from_u32(index as u32);
    let mn = match_list.len();
    for mi in 0..mn
        invariant
            piece.wf(),
            piece.segments@.len() * 64 <= u32::MAX,
            xs@.len() == piece.segments@.len() * 64,
            index < xs@.len(),
            forall|t: int|
                0 <= t < xs@.len() ==> (#[trigger] xs@[t]).0 == spec_x_of(
                    farmer_id@,
                    cell_scalar(piece@, t),
                ) && xs@[t].1@ == cell_scalar(piece@, t),
            m == piece.metadata,
            pk == spec_piece_key(m),
            x == xs@[index as int].0,
            cell_metadata == (CellMetadata { piece_metadata: m, pos: index as u32 }),
            x_pos == YPos::from_u32_spec(index as u32),
            metas == bucket_metas(xs@, index as int, x, m),
            db.contents().contains_key(pk),
            db.contents()[pk] == spec_enc_piece(piece@),
            mn == match_list@.len(),
            ok_in == (buckets_ok(old(db).contents(), xs@, index as int, m) && z_lengths_ok(
                old(db).contents(),
            ) && pairs_ok(old(db).contents(), piece@, m, farmer_id@, index as int)),
            forall|k: Seq<u8>|
                !plot_index_key(k) ==> (db.contents().contains_key(k) == old(db).contents().contains_key(k) && (#[trigger] db.contents().contains_key(k)
                    ==> db.contents()[k] == old(db).contents()[k])),
            forall|xv: u32|
                #![trigger spec_x_key(xv)]
                db.contents().contains_key(spec_x_key(xv)) == old(db).contents().contains_key(
                    spec_x_key(xv),
                ) && (db.contents().contains_key(spec_x_key(xv)) ==> db.contents()[spec_x_key(xv)]
                    == old(db).contents()[spec_x_key(xv)]),
            ok_in ==> ({
                &&& match_list@ == metas
                &&& buckets_ok(db.contents(), xs@, index as int, m)
                &&& z_lengths_ok(db.contents())
                &&& pairs_ok(db.contents(), piece@, m, farmer_id@, index as int)
                &&& (forall|k: int|
                    0 <= k < mi && ((#[trigger] metas[k]).pos % 2) != ((index as u32) % 2)
                        ==> collision_recorded(
                        db.contents(),
                        piece@,
                        m,
                        metas[k].pos as int,
                        index as int,
                    ))
            }),
    {
        proof {
            lemma_bucket_shape(xs@, index as int, x, m);
        }
        let mc = match_list[mi];
        let mc_pos = YPos::from_u32(mc.pos);
        if x_pos.is_opposite(&mc_pos) {
            let ghost before = db.contents();
            match record_match(piece, db, farmer_id, xs, index, &cell_metadata, &mc) {
                Ok(()) => {},
                Err(e) => {
                    proof {
                        if ok_in {
                            assert(metas[mi as int] == mc);
                            assert(false);
                        }
                    }
                    return Err(e);
                },
            }
            proof {
                if ok_in {
                    assert(metas[mi as int] == mc);
                    assert forall|k: int|
                        0 <= k < mi + 1 && ((#[trigger] metas[k]).pos % 2) != ((index as u32) % 2)
                            implies collision_recorded(
                            db.contents(),
                            piece@,
                            m,
                            metas[k].pos as int,
                            index as int,
                        ) by {
                        if k < mi {
                            assert(collision_recorded(before, piece@, m, metas[k].pos as int,
                                index as int));
                        }
                    }
                }
            }
        }
    }
    let ghost before_x = db.contents();
    xvm.save(db);
    proof {
        assert(plot_index_key(spec_x_key(x)));
        assert(spec_x_key(x)[0] == 120u8 && pk[0] == 112u8);
        assert(spec_x_key(x) != pk);
        lemma_x_keys_injective();
        assert(x == spec_x_of(farmer_id@, cell_scalar(piece@, index as int)));
        assert(appended_value(before_x, spec_x_key(x), spec_enc_cell_metadata(cell_metadata))
            == appended_value(
            old(db).contents(),
            spec_x_key(x),
            spec_enc_cell_metadata(cell_metadata),
        ));
        if ok_in {
            lemma_bucket_update(before_x, db.contents(), xs@, index as int, x, m);
            if before_x.contains_key(spec_x_key(x)) {
                assert(db.contents()[spec_x_key(x)].subrange(
                    0,
                    before_x[spec_x_key(x)].len() as int,
                ) =~= before_x[spec_x_key(x)]);
            }
            lemma_pairs_preserved(before_x, db.contents(), piece@, m, spec_x_key(x));
            assert forall|k: Seq<u8>|
                (#[trigger] db.contents().contains_key(k)) && k.len() >= 2 && k[0] == 122u8 && k[1]
                    == 47u8 implies db.contents()[k].len() % 26 == 0 by {
                assert(k != spec_x_key(x));
                assert(before_x.contains_key(k));
            }
            lemma_pairs_complete(db.contents(), piece@, m, farmer_id@, xs@, index as int);
        }
    }
    Ok(())
}

/// Reads one cell of a stored piece back; for a cell of the piece
/// whose encoding the store holds, the read returns its scalar.
#[verifier::rlimit(100)]
#[verifier::spinoff_prover]
fn fetch_cell<D: DasKv>(piece: &Piece, db: &mut D, mc: &CellMetadata) -> (r: Result<
    Option<BlsScalar>,
    String,
>)
    requires
        piece.wf(),
        piece.segments@.len() * 64 <= u32::MAX,
        old(db).contents().contains_key(spec_piece_key(piece.metadata)),
        old(db).contents()[spec_piece_key(piece.metadata)] == spec_enc_piece(piece@),
    ensures
        final(db).contents() == old(db).contents(),
        (mc.piece_metadata == piece.metadata && mc.pos < piece.segments@.len() * 64) ==> (r
            matches Ok(o) && o matches Some(s) && s@ == cell_scalar(piece@, mc.pos as int)),
{
    proof {
        if mc.piece_metadata == piece.metadata && mc.pos < piece.segments@.len() * 64 {
            lemma_plot_wf_bridge(piece);
            lemma_plot_round_trip(piece@, mc.pos);
            lemma_cell_within(piece, mc.pos as int, (piece.segments@.len() * 64) as int);
        }
    }
    match Piece::get_cell(mc, db) {
        Ok(Some(p)) => Ok(Some(p.0)),
        Ok(None) => Ok(None),
        Err(e) => Err(e),
    }
}

/// Materialises the Z entry binding the current cell and one matched
/// cell of the opposite tag; an absent matched cell binds nothing.
/// Only a Z key is ever written.
#[verifier::rlimit(100)]
#[verifier::spinoff_prover]
fn record_match<D: DasKv>(
    piece: &Piece,
    db: &mut D,
    farmer_id: &FarmerId,
    xs: &Vec<(u32, BlsScalar)>,
    index: usize,
    cell_metadata: &CellMetadata,
    mc: &CellMetadata,
) -> (r: Result<(), String>)
    requires
        piece.wf(),
        piece.segments@.len() * 64 <= u32::MAX,
        xs@.len() == piece.segments@.len() * 64,
        index < xs@.len(),
        forall|t: int|
            0 <= t < xs@.len() ==> (#[trigger] xs@[t]).0 == spec_x_of(
                farmer_id@,
                cell_scalar(piece@, t),
            ) && xs@[t].1@ == cell_scalar(piece@, t),
        cell_metadata == (CellMetadata { piece_metadata: piece.metadata, pos: index as u32 }),
        old(db).contents().contains_key(spec_piece_key(piece.metadata)),
        old(db).contents()[spec_piece_key(piece.metadata)] == spec_enc_piece(piece@),
    ensures
        final(db).contents().contains_key(spec_piece_key(piece.metadata)),
        final(db).contents()[spec_piece_key(piece.metadata)] == spec_enc_piece(piece@),
        forall|k: Seq<u8>|
            !(k.len() >= 2 && k[0] == 122u8 && k[1] == 47u8) ==> (final(db).contents().contains_key(k) == old(db).contents().contains_key(k) && (
            #[trigger] final(db).contents().contains_key(k) ==> final(db).contents()[k] == old(db).contents()[k])),
        (z_lengths_ok(old(db).contents()) && mc.piece_metadata == piece.metadata && mc.pos
            < xs@.len() && mc.pos % 2 != (index as u32) % 2) ==> ({
            &&& r is Ok
            &&& z_lengths_ok(final(db).contents())
            &&& collision_recorded(final(db).contents(), piece@, piece.metadata, mc.pos as int,
                index as int)
            &&& (forall|i: int, j: int|
                collision_recorded(old(db).contents(), piece@, piece.metadata, i, j)
                    ==> #[trigger] collision_recorded(
                    final(db).contents(),
                    piece@,
                    piece.metadata,
                    i,
                    j,
                ))
        }),
{
    let ghost m = piece.metadata;
    let ghost pk = spec_piece_key(m);
    let ghost ok_in = z_lengths_ok(old(db).contents()) && mc.piece_metadata == piece.metadata
        && mc.pos < xs@.len() && mc.pos % 2 != (index as u32) % 2;
    let got = match fetch_cell(piece, db, mc) {
        Ok(o) => o,
        Err(e) => {
            proof {
                if ok_in {
                    assert(false);
                }
            }
            return Err(e);
        },
    };
    let mc_scalar = match got {
        Some(s) => s,
        None => {
            proof {
                if ok_in {
                    assert(false);
                }
            }
            return Ok(());
        },
    };
    proof {
        if ok_in {
            assert(mc_scalar@ == cell_scalar(piece@, mc.pos as int));
            assert(xs@[index as int].1@ == cell_scalar(piece@, index as int));
        }
    }
    let z = if index as u32 % 2 == 0 {
        ZValueManager::new(cell_metadata, mc, &xs[index].1, &mc_scalar)
    } else {
        ZValueManager::new(mc, cell_metadata, &mc_scalar, &xs[index].1)
    };
    let ghost before = db.contents();
    let ghost zk = spec_z_key(z.z@);
    z.save(db);
    proof {
        assert(zk[0] == 122u8 && zk[1] == 47u8);
        assert(zk != pk);
        if ok_in {
            let oldlen: int = if before.contains_key(zk) {
                before[zk].len() as int
            } else {
                0
            };
            let newv = db.contents()[zk];
            assert(newv.len() == oldlen + 26);
            assert(oldlen % 26 == 0);
            let k0 = oldlen / 26;
            assert(26 * k0 == oldlen);
            assert(newv.subrange(26 * k0, 26 * k0 + 26) =~= spec_enc_cell_pair(z.left, z.right));
            if before.contains_key(zk) {
                assert(db.contents()[zk].subrange(0, before[zk].len() as int) =~= before[zk]);
            }
            lemma_pairs_preserved(before, db.contents(), piece@, m, zk);
            assert forall|k: Seq<u8>|
                (#[trigger] db.contents().contains_key(k)) && k.len() >= 2 && k[0] == 122u8 && k[1]
                    == 47u8 implies db.contents()[k].len() % 26 == 0 by {
                if k != zk {
                    assert(before.contains_key(k));
                }
            }
            assert(collision_recorded(db.contents(), piece@, m, mc.pos as int, index as int)) by {
                reveal(collision_recorded);
            }
        }
    }
    Ok(())
}

/// Appending the current cell to its bucket advances the bucket
/// invariant by one cell.
proof fn lemma_bucket_update(
    before: Map<Seq<u8>, Seq<u8>>,
    after: Map<Seq<u8>, Seq<u8>>,
    xs: Seq<(u32, BlsScalar)>,
    index: int,
    x: u32,
    m: PieceMetadata,
)
    requires
        0 <= index < xs.len() <= u32::MAX,
        xs[index].0 == x,
        buckets_ok(before, xs, index, m),
        after == before.insert(
            spec_x_key(x),
            appended_value(
                before,
                spec_x_key(x),
                spec_enc_cell_metadata(CellMetadata { piece_metadata: m, pos: index as u32 }),
            ),
        ),
    ensures
        buckets_ok(after, xs, index + 1, m),
{
    lemma_x_keys_injective();
    assert forall|xv: u32|
        #![trigger spec_x_key(xv)]
        ({
            let bkey = spec_x_key(xv);
            let blocks = bucket_blocks(xs, index + 1, xv, m);
            &&& (after.contains_key(bkey) <==> blocks.len() > 0)
            &&& (after.contains_key(bkey) ==> after[bkey] == crate::codec::spec_enc_blocks(blocks))
        }) by {
        if xv == x {
            crate::codec::lemma_enc_blocks_push(
                bucket_blocks(xs, index, x, m),
                spec_enc_cell_metadata(CellMetadata { piece_metadata: m, pos: index as u32 }),
            );
            if !before.contains_key(spec_x_key(x)) {
                assert(bucket_blocks(xs, index, x, m).len() == 0);
                assert(crate::codec::spec_enc_blocks(bucket_blocks(xs, index, x, m))
                    =~= Seq::<u8>::empty());
                assert(Seq::<u8>::empty() + spec_enc_cell_metadata(
                    CellMetadata { piece_metadata: m, pos: index as u32 },
                ) =~= spec_enc_cell_metadata(
                    CellMetadata { piece_metadata: m, pos: index as u32 },
                ));
            }
        }
    }
}

/// Once every opposite-tag match of the current cell is recorded, the
/// pair invariant advances by one cell.
proof fn lemma_pairs_complete(
    c: Map<Seq<u8>, Seq<u8>>,
    p: crate::piece::PieceView,
    m: PieceMetadata,
    farmer: Seq<u8>,
    xs: Seq<(u32, BlsScalar)>,
    index: int,
)
    requires
        0 <= index < xs.len() <= u32::MAX,
        forall|t: int|
            0 <= t < xs.len() ==> (#[trigger] xs[t]).0 == spec_x_of(farmer, cell_scalar(p, t)),
        pairs_ok(c, p, m, farmer, index),
        forall|k: int|
            0 <= k < bucket_metas(xs, index, xs[index].0, m).len() && ((#[trigger] bucket_metas(
                xs,
                index,
                xs[index].0,
                m,
            )[k]).pos % 2) != ((index as u32) % 2) ==> collision_recorded(
                c,
                p,
                m,
                bucket_metas(xs, index, xs[index].0, m)[k].pos as int,
                index,
            ),
    ensures
        pairs_ok(c, p, m, farmer, index + 1),
{
    let x = xs[index].0;
    lemma_bucket_shape(xs, index, x, m);
    assert forall|i: int, j: int|
        0 <= i < j < index + 1 && i % 2 != j % 2 && spec_x_of(farmer, cell_scalar(p, i))
            == spec_x_of(farmer, cell_scalar(p, j)) implies #[trigger] collision_recorded(
        c,
        p,
        m,
        i,
        j,
    ) by {
        if j == index {
            assert(xs[i].0 == spec_x_of(farmer, cell_scalar(p, i)));
            assert(xs[j].0 == x);
            assert(xs[i].0 == x);
            let metas = bucket_metas(xs, index, x, m);
            assert(metas.contains(CellMetadata { piece_metadata: m, pos: i as u32 }));
            let k = choose|k: int|
                0 <= k < metas.len() && (#[trigger] metas[k]) == CellMetadata {
                    piece_metadata: m,
                    pos: i as u32,
                };
            assert(metas[k].pos == i as u32);
            assert(metas[k].pos % 2 != (index as u32) % 2);
            assert(collision_recorded(c, p, m, metas[k].pos as int, index));
        }
    }
}

/// The views of a well-formed piece satisfy the encoder's shape
/// demands.
pub proof fn lemma_plot_wf_bridge(piece: &Piece)
    requires
        piece.wf(),
        piece.segments@.len() <= u32::MAX,
    ensures
        crate::piece::piece_view_wf(piece@),
{
    assert forall|i: int|
        0 <= i < piece@.segments.len() implies crate::piece::segment_view_wf(
        #[trigger] piece@.segments[i],
    ) by {
        assert(piece.segments@[i].wf());
        assert(piece@.segments[i] == piece.segments@[i]@);
    }
}

/// A flat cell index below the piece's cell count resolves to a scalar.
pub proof fn lemma_cell_within(piece: &Piece, t: int, total: int)
    requires
        piece.wf(),
        total == piece.segments@.len() * 64,
        total <= u32::MAX,
        0 <= t < total,
    ensures
        crate::piece::cell_spec(piece@, t as u32) matches Some(cv) && cv.0 == cell_scalar(
            piece@,
            t,
        ),
{
    assert(0 <= t / 64 < piece.segments@.len() && 0 <= t % 64 < 64) by (nonlinear_arith)
        requires
            0 <= t < total && total == piece.segments@.len() * 64,
    ;
    assert(piece.segments@[t / 64].wf());
    assert(piece@.segments[t / 64] == piece.segments@[t / 64]@);
    assert(piece@.segments[t / 64].content.data.len() == 64);
    assert(t as u32 as int == t);
}

/// Writing one value leaves every recorded collision recorded: a write
/// to a non-Z key cannot touch an entry, and a write to a Z key in this
/// plot's style only appends.
pub proof fn lemma_pairs_preserved(
    before: Map<Seq<u8>, Seq<u8>>,
    after: Map<Seq<u8>, Seq<u8>>,
    p: crate::piece::PieceView,
    m: PieceMetadata,
    wkey: Seq<u8>,
)
    requires
        forall|k: Seq<u8>| k != wkey ==> (#[trigger] after.contains_key(k)) == before.contains_key(
            k,
        ),
        forall|k: Seq<u8>|
            k != wkey && #[trigger] after.contains_key(k) ==> after[k] == before[k],
        after.contains_key(wkey),
        before.contains_key(wkey) ==> (after[wkey].len() >= before[wkey].len()
            && after[wkey].subrange(0, before[wkey].len() as int) == before[wkey]),
    ensures
        forall|i: int, j: int|
            collision_recorded(before, p, m, i, j) ==> #[trigger] collision_recorded(
                after,
                p,
                m,
                i,
                j,
            ),
{
    reveal(collision_recorded);
    assert forall|i: int, j: int| collision_recorded(before, p, m, i, j) implies
        #[trigger] collision_recorded(after, p, m, i, j) by {
        let el = if i % 2 == 0 {
            i
        } else {
            j
        };
        let od = if i % 2 == 0 {
            j
        } else {
            i
        };
        let left = CellMetadata { piece_metadata: m, pos: el as u32 };
        let right = CellMetadata { piece_metadata: m, pos: od as u32 };
        let ls = cell_scalar(p, el);
        let rs = cell_scalar(p, od);
        let zk = spec_z_key(spec_z_of(left, right, ls, rs));
        let k = choose|k: int|
            0 <= k && 26 * k + 26 <= before[zk].len() && (#[trigger] before[zk].subrange(
                26 * k,
                26 * k + 26,
            )) == spec_enc_cell_pair(left, right);
        assert(before.contains_key(zk));
        if zk == wkey {
            assert(after[zk].subrange(26 * k, 26 * k + 26) =~= before[zk].subrange(
                26 * k,
                26 * k + 26,
            ));
        } else {
            assert(after.contains_key(zk));
            assert(after[zk] == before[zk]);
        }
    }
}

/// Distinct bucket indices have distinct keys.
pub proof fn lemma_x_keys_injective()
    ensures
        forall|a: u32, b: u32| a != b ==> #[trigger] spec_x_key(a) != #[trigger] spec_x_key(b),
{
    assert forall|a: u32, b: u32| a != b implies #[trigger] spec_x_key(a) != #[trigger] spec_x_key(
        b,
    ) by {
        crate::codec::lemma_u32_round_trip(a);
        crate::codec::lemma_u32_round_trip(b);
        if spec_x_key(a) == spec_x_key(b) {
            assert(spec_x_key(a).subrange(2, 6) =~= crate::codec::spec_enc_u32(a));
            assert(spec_x_key(b).subrange(2, 6) =~= crate::codec::spec_enc_u32(b));
        }
    }
}

} // verus!
