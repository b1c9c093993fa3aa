//! Farmer reward claims and their on-chain checks.
//!
//! A claim exhibits a pre-cell challenge and two stored cells whose
//! keyed X values collide with opposite left/right tags.  The chain
//! verifies each cell's opening against the recorded commitments,
//! recomputes the claim digest, and applies the difficulty predicates;
//! per block, at most a bounded number of distinct accounts may claim.

use vstd::prelude::*;
use crate::kzg::KZG;
use crate::kzg::KZGCommitment;
use crate::kzg::BlsScalar;
use crate::segment::Segment;
use crate::piece::CellMetadata;
use crate::farmer::FarmerId;
use crate::farmer::blake2b256_of;
use crate::farmer::blake2b_256;
use crate::farmer::calculate_x;
use crate::farmer::spec_x_of;
use crate::CHUNK_COUNT;

verus! {

/// Why a claim was rejected.
#[derive(Debug, Clone, Copy, PartialEq, Eq, Structural)]
pub enum ClaimError {
    InvalidSolution,
    PreCommitNotFound,
    WinCommitNotFound,
    MaxClaimantsReached,
    AlreadyClaimed,
    StorageLimitReached,
    BlockNumberUnderflow,
}

/// One cell exhibited in a claim: where it lives and the segment that
/// carries it.
#[derive(Debug)]
pub struct FarmerCell {
    pub metadata: CellMetadata,
    pub seg: Segment,
}

impl FarmerCell {
    /// The block the cell's piece belongs to.
    pub fn block_number(&self) -> (r: u32)
        ensures
            r == self.metadata.piece_metadata.block_num,
    {
        self.metadata.piece_metadata.block_num
    }

    /// The cell's scalar: its offset inside the exhibited segment.
    /// `None` when the segment does not carry that offset.
    pub fn scalar(&self) -> (r: Option<BlsScalar>)
        ensures
            r is Some <==> (self.metadata.pos as int % 64 < self.seg.content.data@.len()),
            r matches Some(s) ==> s@ == self.seg@.content.data[self.metadata.pos as int % 64],
    {
        let idx = (self.metadata.pos % 64) as usize;
        if idx < self.seg.content.data.len() {
            Some(self.seg.content.data[idx].clone())
        } else {
            None
        }
    }
}

impl Clone for FarmerCell {
    fn clone(&self) -> (r: Self)
        ensures
            r.metadata == self.metadata,
            r.seg@ == self.seg@,
    {
        FarmerCell { metadata: self.metadata, seg: self.seg.clone() }
    }
}

/// The challenge cell supplied by the chain for the previous block.
#[derive(Debug)]
pub struct PreCell {
    pub metadata: CellMetadata,
    pub seg: Segment,
}

impl Clone for PreCell {
    fn clone(&self) -> (r: Self)
        ensures
            r.metadata == self.metadata,
            r.seg@ == self.seg@,
    {
        PreCell { metadata: self.metadata, seg: self.seg.clone() }
    }
}

/// Leading zero bits of a digest, scanned from the front.
pub open spec fn spec_leading_zero_bits(h: Seq<u8>) -> int
    decreases h.len(),
{
    if h.len() == 0 {
        0
    } else if h[0] == 0u8 {
        8 + spec_leading_zero_bits(h.skip(1))
    } else {
        spec_lz_byte(h[0])
    }
}

/// Leading zero bits of one non-zero byte.
pub open spec fn spec_lz_byte(b: u8) -> int {
    if b >= 128 {
        0
    } else if b >= 64 {
        1
    } else if b >= 32 {
        2
    } else if b >= 16 {
        3
    } else if b >= 8 {
        4
    } else if b >= 4 {
        5
    } else if b >= 2 {
        6
    } else if b >= 1 {
        7
    } else {
        8
    }
}

/// Counts the leading zero bits of a digest.  The bound keeps the bit
/// count within `u64`.
#[verifier::loop_isolation(false)]
pub fn leading_zero_bits(h: &[u8]) -> (r: u64)
    requires
        8 * h@.len() <= u64::MAX,
    ensures
        r == spec_leading_zero_bits(h@),
{
    let n = h.len();
    let mut count: u64 = 0;
    assert(h@.skip(0) =~= h@);
    for i in 0..n
        invariant
            count == 8 * i,
            spec_leading_zero_bits(h@) == count + spec_leading_zero_bits(h@.skip(i as int)),
            forall|j: int| 0 <= j < i ==> h@[j] == 0u8,
    {
        proof {
            assert(h@.skip(i as int)[0] == h@[i as int]);
            assert(h@.skip(i as int).skip(1) =~= h@.skip(i as int + 1));
        }
        let b = h[i];
        if b != 0 {
            let lz: u64 = if b >= 128 {
                0
            } else if b >= 64 {
                1
            } else if b >= 32 {
                2
            } else if b >= 16 {
                3
            } else if b >= 8 {
                4
            } else if b >= 4 {
                5
            } else if b >= 2 {
                6
            } else {
                7
            };
            return count + lz;
        }
        count = count + 8;
    }
    proof {
        assert(h@.skip(n as int) =~= Seq::<u8>::empty());
    }
    count
}

/// The claim digest: every public ingredient of the claim, hashed.
pub open spec fn spec_claim_digest(
    pre_block_hash: Seq<u8>,
    farmer: Seq<u8>,
    pre_scalar: Seq<u8>,
    left_scalar: Seq<u8>,
    right_scalar: Seq<u8>,
    left_block_hash: Seq<u8>,
    right_block_hash: Seq<u8>,
) -> Seq<u8> {
    blake2b256_of(
        pre_block_hash + farmer + pre_scalar + left_scalar + right_scalar + left_block_hash
            + right_block_hash,
    )
}

/// A claim witness: the challenge, the two colliding cells, and the
/// farmer they are keyed to.
#[derive(Debug)]
pub struct Solution {
    pub pre_block_hash: Vec<u8>,
    pub farmer_id: FarmerId,
    pub pre_cell: PreCell,
    pub win_left: FarmerCell,
    pub win_right: FarmerCell,
}

/// The conditions of a winning claim that are functions of its public
/// ingredients: tags, collision, and the difficulty predicates.
pub open spec fn spec_solution_structure_ok(
    s: Solution,
    pre_scalar: Seq<u8>,
    left_scalar: Seq<u8>,
    right_scalar: Seq<u8>,
    left_block_hash: Seq<u8>,
    right_block_hash: Seq<u8>,
    pre_cell_leading_zeros: u32,
    sub_target: u32,
) -> bool {
    let digest = spec_claim_digest(
        s.pre_block_hash@,
        s.farmer_id@,
        pre_scalar,
        left_scalar,
        right_scalar,
        left_block_hash,
        right_block_hash,
    );
    &&& s.win_left.metadata.pos % 2 == 0
    &&& s.win_right.metadata.pos % 2 != 0
    &&& spec_x_of(s.farmer_id@, left_scalar) == spec_x_of(s.farmer_id@, right_scalar)
    &&& spec_leading_zero_bits(digest) >= pre_cell_leading_zeros
    &&& crate::codec::spec_dec_u32_val(blake2b256_of(digest).subrange(0, 4)) <= sub_target
}

impl Solution {
    /// Assembles a claim witness.
    pub fn new(
        pre_block_hash: &[u8],
        farmer_id: &FarmerId,
        pre_cell: &PreCell,
        win_left: &FarmerCell,
        win_right: &FarmerCell,
    ) -> (r: Solution)
        ensures
            r.pre_block_hash@ == pre_block_hash@,
            r.farmer_id@ == farmer_id@,
            r.pre_cell.metadata == pre_cell.metadata && r.pre_cell.seg@ == pre_cell.seg@,
            r.win_left.metadata == win_left.metadata && r.win_left.seg@ == win_left.seg@,
            r.win_right.metadata == win_right.metadata && r.win_right.seg@ == win_right.seg@,
    {
        let mut h: Vec<u8> = Vec::new();
        crate::codec::encode_raw(&mut h, pre_block_hash);
        Solution {
            pre_block_hash: h,
            farmer_id: farmer_id.clone(),
            pre_cell: pre_cell.clone(),
            win_left: win_left.clone(),
            win_right: win_right.clone(),
        }
    }

    /// Verifies the claim against the recorded commitments: each cell's
    /// segment must open against the commitment of its piece, the cells
    /// must collide on X with opposite tags, and the difficulty
    /// predicates must hold of the claim digest.  A `true` outcome
    /// implies every condition that is a function of the claim's public
    /// ingredients; the openings themselves are the backend's pairing
    /// checks.
    pub fn verify(
        &self,
        kzg: &KZG,
        pre_commit: &KZGCommitment,
        left_commit: &KZGCommitment,
        right_commit: &KZGCommitment,
        win_left_block_hash: &[u8],
        win_right_block_hash: &[u8],
        pre_cell_leading_zeros: u32,
        sub_target: u32,
    ) -> (r: bool)
        requires
            pre_commit.wf(),
            left_commit.wf(),
            right_commit.wf(),
        ensures
            r ==> (self.pre_cell.metadata.pos as int % 64 < self.pre_cell.seg.content.data@.len()
                && self.win_left.metadata.pos as int % 64 < self.win_left.seg.content.data@.len()
                && self.win_right.metadata.pos as int % 64
                < self.win_right.seg.content.data@.len() && spec_solution_structure_ok(
                *self,
                self.pre_cell.seg@.content.data[self.pre_cell.metadata.pos as int % 64],
                self.win_left.seg@.content.data[self.win_left.metadata.pos as int % 64],
                self.win_right.seg@.content.data[self.win_right.metadata.pos as int % 64],
                win_left_block_hash@,
                win_right_block_hash@,
                pre_cell_leading_zeros,
                sub_target,
            )),
            (self.win_left.metadata.pos % 2 != 0 || self.win_right.metadata.pos % 2 == 0 || (
            self.win_left.metadata.pos as int % 64 < self.win_left.seg.content.data@.len()
                && self.win_right.metadata.pos as int % 64
                < self.win_right.seg.content.data@.len() && spec_x_of(
                self.farmer_id@,
                self.win_left.seg@.content.data[self.win_left.metadata.pos as int % 64],
            ) != spec_x_of(
                self.farmer_id@,
                self.win_right.seg@.content.data[self.win_right.metadata.pos as int % 64],
            ))) ==> r == false,
    {
        if self.win_left.metadata.pos % 2 != 0 {
            return false;
        }
        if self.win_right.metadata.pos % 2 == 0 {
            return false;
        }
        let pre_scalar = match self.pre_scalar() {
            Some(s) => s,
            None => {
                return false;
            },
        };
        let left_scalar = match self.win_left.scalar() {
            Some(s) => s,
            None => {
                return false;
            },
        };
        let right_scalar = match self.win_right.scalar() {
            Some(s) => s,
            None => {
                return false;
            },
        };
        if calculate_x(&self.farmer_id, &left_scalar) != calculate_x(
            &self.farmer_id,
            &right_scalar,
        ) {
            return false;
        }
        let ok_pre = match self.pre_cell.seg.verify(kzg, pre_commit, CHUNK_COUNT) {
            Ok(b) => b,
            Err(_) => {
                return false;
            },
        };
        let ok_left = match self.win_left.seg.verify(kzg, left_commit, CHUNK_COUNT) {
            Ok(b) => b,
            Err(_) => {
                return false;
            },
        };
        let ok_right = match self.win_right.seg.verify(kzg, right_commit, CHUNK_COUNT) {
            Ok(b) => b,
            Err(_) => {
                return false;
            },
        };
        if !(ok_pre && ok_left && ok_right) {
            return false;
        }
        let mut data: Vec<u8> = Vec::new();
        crate::codec::encode_raw(&mut data, self.pre_block_hash.as_slice());
        crate::codec::encode_raw(&mut data, self.farmer_id.0.as_slice());
        crate::codec::encode_raw(&mut data, pre_scalar.bytes.as_slice());
        crate::codec::encode_raw(&mut data, left_scalar.bytes.as_slice());
        crate::codec::encode_raw(&mut data, right_scalar.bytes.as_slice());
        crate::codec::encode_raw(&mut data, win_left_block_hash);
        crate::codec::encode_raw(&mut data, win_right_block_hash);
        assert(data@ =~= self.pre_block_hash@ + self.farmer_id@ + pre_scalar@ + left_scalar@
            + right_scalar@ + win_left_block_hash@ + win_right_block_hash@);
        let digest = blake2b_256(data.as_slice());
        let lz = leading_zero_bits(digest.as_slice());
        if lz < pre_cell_leading_zeros as u64 {
            return false;
        }
        let second = blake2b_256(digest.as_slice());
        let word = match crate::codec::decode_u32(second.as_slice(), 0) {
            Some(p) => p.0,
            None => {
                return false;
            },
        };
        proof {
            assert(second@.subrange(0, 4) == blake2b256_of(digest@).subrange(0, 4));
        }
        word <= sub_target
    }

    /// The challenge cell's scalar.
    fn pre_scalar(&self) -> (r: Option<BlsScalar>)
        ensures
            r is Some <==> (self.pre_cell.metadata.pos as int % 64
                < self.pre_cell.seg.content.data@.len()),
            r matches Some(s) ==> s@ == self.pre_cell.seg@.content.data[self.pre_cell.metadata.pos
                as int % 64],
    {
        let idx = (self.pre_cell.metadata.pos % 64) as usize;
        if idx < self.pre_cell.seg.content.data.len() {
            Some(self.pre_cell.seg.content.data[idx].clone())
        } else {
            None
        }
    }
}

/// The spec-expressible conditions a successful claim by `who`
/// guarantees: the exhibited cells carry their scalars, the tags are a
/// left/right pair, the X values collide under the claimant's key, and
/// the difficulty predicates hold of the claim digest.  The openings
/// against the commitments are the backend's pairing checks and are
/// not a function of these ingredients alone.
pub open spec fn spec_claim_witness_ok(
    who: Seq<u8>,
    pre_block_hash: Seq<u8>,
    pre_cell: PreCell,
    win_left: FarmerCell,
    win_right: FarmerCell,
    left_block_hash: Seq<u8>,
    right_block_hash: Seq<u8>,
    pre_cell_leading_zeros: u32,
    sub_target: u32,
) -> bool {
    let farmer = blake2b256_of(who);
    let pre_scalar = pre_cell.seg@.content.data[pre_cell.metadata.pos as int % 64];
    let left_scalar = win_left.seg@.content.data[win_left.metadata.pos as int % 64];
    let right_scalar = win_right.seg@.content.data[win_right.metadata.pos as int % 64];
    let digest = spec_claim_digest(
        pre_block_hash,
        farmer,
        pre_scalar,
        left_scalar,
        right_scalar,
        left_block_hash,
        right_block_hash,
    );
    &&& pre_cell.metadata.pos as int % 64 < pre_cell.seg.content.data@.len()
    &&& win_left.metadata.pos as int % 64 < win_left.seg.content.data@.len()
    &&& win_right.metadata.pos as int % 64 < win_right.seg.content.data@.len()
    &&& win_left.metadata.pos % 2 == 0
    &&& win_right.metadata.pos % 2 != 0
    &&& spec_x_of(farmer, left_scalar) == spec_x_of(farmer, right_scalar)
    &&& spec_leading_zero_bits(digest) >= pre_cell_leading_zeros
    &&& crate::codec::spec_dec_u32_val(blake2b256_of(digest).subrange(0, 4)) <= sub_target
}

/// Whether `who` already appears among the claimants.
pub open spec fn spec_claimed(claimants: Seq<Vec<u8>>, who: Seq<u8>) -> bool {
    exists|i: int| 0 <= i < claimants.len() && (#[trigger] claimants[i])@ == who
}

/// The chain-side claim check: ordering and errors exactly as the
/// pallet applies them.  On success the claimant is recorded.
#[verifier::loop_isolation(false)]
pub fn check_claim(
    kzg: &KZG,
    claimants: &mut Vec<Vec<u8>>,
    who: &[u8],
    max_claimants: u32,
    now: u32,
    pre_block_hash: &[u8],
    pre_commit: Option<&KZGCommitment>,
    left_commit: Option<&KZGCommitment>,
    right_commit: Option<&KZGCommitment>,
    win_left_block_hash: &[u8],
    win_right_block_hash: &[u8],
    pre_cell: &PreCell,
    win_cell_left: &FarmerCell,
    win_cell_right: &FarmerCell,
    pre_cell_leading_zeros: u32,
    sub_target: u32,
) -> (r: Result<(), ClaimError>)
    requires
        (match pre_commit {
            Some(c) => c.wf(),
            None => true,
        }),
        (match left_commit {
            Some(c) => c.wf(),
            None => true,
        }),
        (match right_commit {
            Some(c) => c.wf(),
            None => true,
        }),
    ensures
        r == Err::<(), ClaimError>(ClaimError::MaxClaimantsReached) <==> old(claimants)@.len()
            >= max_claimants,
        r == Err::<(), ClaimError>(ClaimError::AlreadyClaimed) <==> (old(claimants)@.len()
            < max_claimants && spec_claimed(old(claimants)@, who@)),
        r == Err::<(), ClaimError>(ClaimError::BlockNumberUnderflow) <==> (old(claimants)@.len()
            < max_claimants && !spec_claimed(old(claimants)@, who@) && now == 0),
        r == Err::<(), ClaimError>(ClaimError::PreCommitNotFound) <==> (old(claimants)@.len()
            < max_claimants && !spec_claimed(old(claimants)@, who@) && now != 0 && pre_commit
            is None),
        r == Err::<(), ClaimError>(ClaimError::WinCommitNotFound) <==> (old(claimants)@.len()
            < max_claimants && !spec_claimed(old(claimants)@, who@) && now != 0 && pre_commit
            is Some && (left_commit is None || right_commit is None)),
        r != Err::<(), ClaimError>(ClaimError::StorageLimitReached),
        r is Ok ==> ({
            &&& final(claimants)@.len() == old(claimants)@.len() + 1
            &&& final(claimants)@.last()@ == who@
            &&& (forall|i: int|
                0 <= i < old(claimants)@.len() ==> final(claimants)@[i] == old(claimants)@[i])
        }),
        r is Ok ==> spec_claim_witness_ok(
            who@,
            pre_block_hash@,
            *pre_cell,
            *win_cell_left,
            *win_cell_right,
            win_left_block_hash@,
            win_right_block_hash@,
            pre_cell_leading_zeros,
            sub_target,
        ),
        r == Err::<(), ClaimError>(ClaimError::InvalidSolution) ==> ({
            &&& old(claimants)@.len() < max_claimants
            &&& !spec_claimed(old(claimants)@, who@)
            &&& now != 0
            &&& pre_commit is Some
            &&& left_commit is Some
            &&& right_commit is Some
        }),
        r is Err ==> final(claimants)@ == old(claimants)@,
{
    if claimants.len() >= max_claimants as usize {
        return Err(ClaimError::MaxClaimantsReached);
    }
    let n = claimants.len();
    for i in 0..n
        invariant
            n == claimants@.len(),
            claimants@ == old(claimants)@,
            forall|j: int| 0 <= j < i ==> (#[trigger] claimants@[j])@ != who@,
    {
        if crate::store::bytes_eq(claimants[i].as_slice(), who) {
            return Err(ClaimError::AlreadyClaimed);
        }
    }
    if now == 0 {
        return Err(ClaimError::BlockNumberUnderflow);
    }
    let pre_commit = match pre_commit {
        Some(c) => c,
        None => {
            return Err(ClaimError::PreCommitNotFound);
        },
    };
    let left_commit = match left_commit {
        Some(c) => c,
        None => {
            return Err(ClaimError::WinCommitNotFound);
        },
    };
    let right_commit = match right_commit {
        Some(c) => c,
        None => {
            return Err(ClaimError::WinCommitNotFound);
        },
    };
    let farmer_id = FarmerId::new(who);
    let solution = Solution::new(pre_block_hash, &farmer_id, pre_cell, win_cell_left,
        win_cell_right);
    if !solution.verify(
        kzg,
        pre_commit,
        left_commit,
        right_commit,
        win_left_block_hash,
        win_right_block_hash,
        pre_cell_leading_zeros,
        sub_target,
    ) {
        return Err(ClaimError::InvalidSolution);
    }
    proof {
        assert(solution.farmer_id@ == blake2b256_of(who@));
        assert(solution.pre_block_hash@ == pre_block_hash@);
        assert(solution.pre_cell.metadata == pre_cell.metadata);
        assert(solution.pre_cell.seg@.content.data == pre_cell.seg@.content.data);
        assert(solution.win_left.metadata == win_cell_left.metadata);
        assert(solution.win_left.seg@.content.data == win_cell_left.seg@.content.data);
        assert(solution.win_right.metadata == win_cell_right.metadata);
        assert(solution.win_right.seg@.content.data == win_cell_right.seg@.content.data);
        assert(solution.pre_cell.seg@.content.data.len()
            == solution.pre_cell.seg.content.data@.len());
        assert(pre_cell.seg@.content.data.len() == pre_cell.seg.content.data@.len());
        assert(solution.win_left.seg@.content.data.len()
            == solution.win_left.seg.content.data@.len());
        assert(win_cell_left.seg@.content.data.len() == win_cell_left.seg.content.data@.len());
        assert(solution.win_right.seg@.content.data.len()
            == solution.win_right.seg.content.data@.len());
        assert(win_cell_right.seg@.content.data.len() == win_cell_right.seg.content.data@.len());
        assert(spec_claim_witness_ok(
            who@,
            pre_block_hash@,
            *pre_cell,
            *win_cell_left,
            *win_cell_right,
            win_left_block_hash@,
            win_right_block_hash@,
            pre_cell_leading_zeros,
            sub_target,
        ));
    }
    let mut w: Vec<u8> = Vec::new();
    crate::codec::encode_raw(&mut w, who);
    claimants.push(w);
    Ok(())
}

} // verus!
