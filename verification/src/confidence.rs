//! Availability sampling and the confidence value.
//!
//! A light client draws distinct random positions, asks the network for
//! the segments there, and marks each sample verified exactly once.  The
//! confidence in a blob's availability after `k` verified samples is
//! `1 - base^k`, computed in parts per million; availability is declared
//! once it exceeds the configured threshold.

use vstd::prelude::*;
use crate::kzg::KZGCommitment;
use crate::kzg::Position;
use crate::kzg::KZG;
use crate::segment::Segment;
use crate::store::DasKv;
use crate::SAMPLES_PER_BLOB;
use crate::CHUNK_COUNT;

verus! {

/// One million parts: the fixed-point unit of a confidence fraction.
pub const ONE_PPM: u32 = 1000000;

/// Product of two parts-per-million fractions, rounded to nearest.
pub open spec fn ppm_mul(a: int, b: int) -> int {
    (a * b + 500000) / 1000000
}

/// `base^k` in parts per million, one rounded multiplication per step.
pub open spec fn ppm_pow(base: int, k: nat) -> int
    decreases k,
{
    if k == 0 {
        1000000
    } else {
        ppm_mul(ppm_pow(base, (k - 1) as nat), base)
    }
}

/// A rounded product of fractions stays a fraction and never exceeds
/// its left factor.
pub proof fn lemma_ppm_mul_bounds(a: int, b: int)
    requires
        0 <= a <= 1000000,
        0 <= b <= 1000000,
    ensures
        0 <= ppm_mul(a, b) <= a,
{
    assert(0 <= (a * b + 500000) / 1000000 <= a) by (nonlinear_arith)
        requires
            0 <= a <= 1000000 && 0 <= b <= 1000000,
    ;
}

/// Powers of a fraction stay fractions and never increase with the
/// exponent.
pub proof fn lemma_ppm_pow_bounds(base: int, k: nat)
    requires
        0 <= base <= 1000000,
    ensures
        0 <= ppm_pow(base, k) <= 1000000,
        k >= 1 ==> ppm_pow(base, k) <= ppm_pow(base, (k - 1) as nat),
    decreases k,
{
    if k >= 1 {
        lemma_ppm_pow_bounds(base, (k - 1) as nat);
        lemma_ppm_mul_bounds(ppm_pow(base, (k - 1) as nat), base);
    }
}

/// More verified samples never lower the confidence value: the power
/// shrinks, so `1 - base^k` grows.  This is the monotonicity law of the
/// sampling state machine, whose samples only ever move from pending to
/// verified.
pub proof fn lemma_confidence_monotonic(base: int, k1: nat, k2: nat)
    requires
        0 <= base <= 1000000,
        k1 <= k2,
    ensures
        1000000 - ppm_pow(base, k1) <= 1000000 - ppm_pow(base, k2),
    decreases k2 - k1,
{
    if k1 < k2 {
        lemma_confidence_monotonic(base, k1, (k2 - 1) as nat);
        lemma_ppm_pow_bounds(base, k2);
    }
}

/// Marking samples verified never lowers the verified count: if every
/// sample keeps its position and only gains verification, the count
/// grows or stays.  Together with `lemma_confidence_monotonic` this is
/// the monotonicity of the confidence value along the state machine's
/// only transition.
pub proof fn lemma_count_verified_monotonic(before: Seq<Sample>, after: Seq<Sample>)
    requires
        before.len() == after.len(),
        forall|i: int|
            0 <= i < before.len() ==> ((#[trigger] before[i]).is_availability
                ==> (#[trigger] after[i]).is_availability),
    ensures
        count_verified(before) <= count_verified(after),
    decreases before.len(),
{
    if before.len() > 0 {
        lemma_count_verified_monotonic(before.drop_last(), after.drop_last());
        assert(before.drop_last().len() == after.drop_last().len());
    }
}

/// `1 - base^k` in parts per million.
pub fn calculate_confidence(samples: u32, base_factor_ppm: u32) -> (r: u32)
    requires
        base_factor_ppm <= ONE_PPM,
    ensures
        r == 1000000 - ppm_pow(base_factor_ppm as int, samples as nat),
{
    let mut p: u32 = ONE_PPM;
    proof {
        lemma_ppm_pow_bounds(base_factor_ppm as int, 0);
    }
    for i in 0..samples
        invariant
            base_factor_ppm <= ONE_PPM,
            p == ppm_pow(base_factor_ppm as int, i as nat),
            p <= ONE_PPM,
    {
        proof {
            lemma_ppm_pow_bounds(base_factor_ppm as int, (i + 1) as nat);
        }
        let wide: u64 = (p as u64) * (base_factor_ppm as u64) + 500000;
        p = (wide / 1000000) as u32;
    }
    ONE_PPM - p
}

/// Identifies one confidence record in the store.
#[derive(Debug)]
pub struct ConfidenceId(pub Vec<u8>);

impl Clone for ConfidenceId {
    fn clone(&self) -> (r: Self)
        ensures
            r@ == self@,
    {
        let mut out: Vec<u8> = Vec::new();
        crate::codec::encode_raw(&mut out, self.0.as_slice());
        ConfidenceId(out)
    }
}

impl View for ConfidenceId {
    type V = Seq<u8>;

    open spec fn view(&self) -> Seq<u8> {
        self.0@
    }
}

impl ConfidenceId {
    /// Confidence of a whole block, keyed by the block hash.
    pub fn block_confidence(block_hash: Vec<u8>) -> (r: Self)
        ensures
            r@ == block_hash@,
    {
        ConfidenceId(block_hash)
    }

    /// Confidence of one application's data in a block, keyed by the
    /// application id followed by the block number.
    pub fn app_confidence(block_num: u32, app_id: Vec<u8>) -> (r: Self)
        ensures
            r@ == app_id@ + crate::codec::spec_enc_u32(block_num),
    {
        let mut id = app_id;
        crate::codec::encode_u32(&mut id, block_num);
        ConfidenceId(id)
    }
}

/// One sampled position and whether it has been verified; verification
/// is one-way.
#[derive(Debug, Clone, Copy, PartialEq, Eq, Structural)]
pub struct Sample {
    pub position: Position,
    pub is_availability: bool,
}

impl Sample {
    /// Marks the sample verified.
    pub fn set_success(&mut self)
        ensures
            final(self).position == old(self).position,
            final(self).is_availability,
    {
        self.is_availability = true;
    }

    /// The sample's own storage key: block number, application id in
    /// big-endian, then the position.
    pub fn key(&self, block_num: u32, app_id: u32) -> (r: Vec<u8>)
        ensures
            r@ == crate::codec::spec_enc_u32(block_num) + crate::codec::spec_enc_u32_be(app_id)
                + crate::codec::spec_enc_u32(self.position.x) + crate::codec::spec_enc_u32(
                self.position.y,
            ),
    {
        let mut key: Vec<u8> = Vec::new();
        crate::codec::encode_u32(&mut key, block_num);
        crate::codec::encode_u32_be(&mut key, app_id);
        crate::codec::encode_u32(&mut key, self.position.x);
        crate::codec::encode_u32(&mut key, self.position.y);
        key
    }
}

/// Count of verified samples.
pub open spec fn count_verified(s: Seq<Sample>) -> nat
    decreases s.len(),
{
    if s.len() == 0 {
        0
    } else {
        count_verified(s.drop_last()) + (if s.last().is_availability {
            1nat
        } else {
            0nat
        })
    }
}

/// The belief that a blob is retrievable, built from sample outcomes,
/// with the commitments of the block's rows snapshotted at creation.
#[derive(Debug)]
pub struct Confidence {
    pub samples: Vec<Sample>,
    pub commitments: Vec<KZGCommitment>,
}

impl Confidence {
    /// Positions are distinct, rows within the snapshot.
    pub open spec fn wf(&self) -> bool {
        &&& (forall|i: int, j: int|
            0 <= i < j < self.samples@.len() ==> (#[trigger] self.samples@[i]).position != (
            #[trigger] self.samples@[j]).position)
        &&& (forall|i: int|
            0 <= i < self.samples@.len() ==> (#[trigger] self.samples@[i]).position.y
                < self.commitments@.len())
        &&& (forall|i: int|
            0 <= i < self.commitments@.len() ==> (#[trigger] self.commitments@[i]).wf())
    }

    /// An empty record holding the given commitments.
    pub fn new(commitments: Vec<KZGCommitment>) -> (r: Confidence)
        requires
            forall|i: int| 0 <= i < commitments@.len() ==> (#[trigger] commitments@[i]).wf(),
        ensures
            r.wf(),
            r.samples@.len() == 0,
            r.commitments == commitments,
    {
        Confidence { samples: Vec::new(), commitments }
    }

    /// `1 - base^k` for `k` verified samples, in parts per million.
    pub fn value(&self, base_factor_ppm: u32) -> (r: u32)
        requires
            base_factor_ppm <= ONE_PPM,
            self.samples@.len() <= u32::MAX,
        ensures
            r == 1000000 - ppm_pow(base_factor_ppm as int, count_verified(self.samples@)),
    {
        let mut count: u32 = 0;
        let n = self.samples.len();
        for i in 0..n
            invariant
                n == self.samples@.len() <= u32::MAX,
                count == count_verified(self.samples@.take(i as int)),
                count <= i,
        {
            proof {
                assert(self.samples@.take(i as int + 1).drop_last() =~= self.samples@.take(
                    i as int,
                ));
                assert(self.samples@.take(i as int + 1).last() == self.samples@[i as int]);
            }
            if self.samples[i].is_availability {
                count = count + 1;
            }
        }
        proof {
            assert(self.samples@.take(n as int) =~= self.samples@);
        }
        calculate_confidence(count, base_factor_ppm)
    }

    /// Whether the confidence value exceeds the threshold.
    pub fn exceeds_threshold(&self, base_factor_ppm: u32, threshold_ppm: u32) -> (r: bool)
        requires
            base_factor_ppm <= ONE_PPM,
            self.samples@.len() <= u32::MAX,
        ensures
            r == (1000000 - ppm_pow(base_factor_ppm as int, count_verified(self.samples@))
                > threshold_ppm),
    {
        self.value(base_factor_ppm) > threshold_ppm
    }

    /// Marks the sample at `position` verified, if one exists; every
    /// other sample keeps its state, so the verified count never drops.
    pub fn set_sample_success(&mut self, position: Position)
        ensures
            final(self).commitments == old(self).commitments,
            final(self).samples@.len() == old(self).samples@.len(),
            forall|i: int|
                0 <= i < old(self).samples@.len() ==> {
                    let s0 = old(self).samples@[i];
                    let s1 = #[trigger] final(self).samples@[i];
                    s1.position == s0.position && (s1.is_availability == (s0.is_availability || (
                    s0.position == position)))
                },
            old(self).wf() ==> final(self).wf(),
    {
        let n = self.samples.len();
        for i in 0..n
            invariant
                n == self.samples@.len() == old(self).samples@.len(),
                self.commitments == old(self).commitments,
                forall|j: int|
                    i <= j < n ==> #[trigger] self.samples@[j] == old(self).samples@[j],
                forall|j: int|
                    0 <= j < i ==> {
                        let s0 = old(self).samples@[j];
                        let s1 = #[trigger] self.samples@[j];
                        s1.position == s0.position && (s1.is_availability == (s0.is_availability
                            || (s0.position == position)))
                    },
        {
            if self.samples[i].position.x == position.x && self.samples[i].position.y == position.y
            {
                let mut s = self.samples[i];
                s.set_success();
                self.samples[i] = s;
            }
        }
    }
}

// ---------------------------------------------------------------------
// Wire encoding of a confidence record.
// ---------------------------------------------------------------------

/// Spec-level shape of a confidence record.
pub struct ConfidenceView {
    pub samples: Seq<Sample>,
    pub commitments: Seq<Seq<u8>>,
}

impl View for Confidence {
    type V = ConfidenceView;

    open spec fn view(&self) -> ConfidenceView {
        ConfidenceView {
            samples: self.samples@,
            commitments: self.commitments@.map_values(|c: KZGCommitment| c@),
        }
    }
}

/// Nine bytes of one sample: the position's two coordinates and the
/// verification flag.
pub open spec fn spec_enc_sample(s: Sample) -> Seq<u8> {
    crate::codec::spec_enc_u32(s.position.x) + crate::codec::spec_enc_u32(s.position.y) + seq![
        (if s.is_availability {
            1u8
        } else {
            0u8
        }),
    ]
}

/// The sample read back from a nine-byte block.
pub open spec fn spec_sample_of_block(b: Seq<u8>) -> Sample {
    Sample {
        position: Position {
            x: crate::codec::spec_dec_u32_val(b.subrange(0, 4)),
            y: crate::codec::spec_dec_u32_val(b.subrange(4, 8)),
        },
        is_availability: b[8] == 1u8,
    }
}

/// A block is a valid sample when its flag byte is zero or one.
pub open spec fn spec_sample_block_ok(b: Seq<u8>) -> bool {
    b[8] == 0u8 || b[8] == 1u8
}

pub proof fn lemma_sample_block_round_trip(s: Sample)
    ensures
        spec_enc_sample(s).len() == 9,
        spec_sample_block_ok(spec_enc_sample(s)),
        spec_sample_of_block(spec_enc_sample(s)) == s,
{
    let b = spec_enc_sample(s);
    crate::codec::lemma_u32_round_trip(s.position.x);
    crate::codec::lemma_u32_round_trip(s.position.y);
    assert(b.subrange(0, 4) =~= crate::codec::spec_enc_u32(s.position.x));
    assert(b.subrange(4, 8) =~= crate::codec::spec_enc_u32(s.position.y));
}

/// The record's encoding: a compact count and the samples as nine-byte
/// blocks, then a compact count and the commitments as 48-byte blocks.
pub open spec fn spec_enc_confidence(c: ConfidenceView) -> Seq<u8> {
    crate::codec::spec_enc_compact(c.samples.len() as u32) + crate::codec::spec_enc_blocks(
        c.samples.map_values(|s: Sample| spec_enc_sample(s)),
    ) + crate::codec::spec_enc_compact(c.commitments.len() as u32)
        + crate::codec::spec_enc_blocks(c.commitments)
}

/// Spec-level decoder of a confidence record.
pub open spec fn spec_dec_confidence(s: Seq<u8>) -> Option<(ConfidenceView, int)> {
    match crate::codec::spec_dec_compact(s) {
        Some((n1, u1)) => match crate::codec::spec_dec_blocks(s.skip(u1), n1 as nat, 9) {
            Some((blocks, u2)) => {
                if forall|i: int|
                    0 <= i < blocks.len() ==> spec_sample_block_ok(#[trigger] blocks[i]) {
                    let samples = blocks.map_values(|b: Seq<u8>| spec_sample_of_block(b));
                    let s2 = s.skip(u1 + u2);
                    match crate::codec::spec_dec_compact(s2) {
                        Some((n2, u3)) => match crate::codec::spec_dec_blocks(
                            s2.skip(u3),
                            n2 as nat,
                            48,
                        ) {
                            Some((comms, u4)) => Some(
                                (ConfidenceView { samples, commitments: comms }, u1 + u2 + u3 + u4),
                            ),
                            None => None,
                        },
                        None => None,
                    }
                } else {
                    None
                }
            },
            None => None,
        },
        None => None,
    }
}

/// Decoding an encoded record yields the record back.
#[verifier::rlimit(50)]
pub proof fn lemma_confidence_round_trip(c: ConfidenceView, rest: Seq<u8>)
    requires
        c.samples.len() <= u32::MAX,
        c.commitments.len() <= u32::MAX,
        forall|i: int| 0 <= i < c.commitments.len() ==> (#[trigger] c.commitments[i]).len() == 48,
    ensures
        spec_dec_confidence(spec_enc_confidence(c) + rest) == Some(
            (c, spec_enc_confidence(c).len() as int),
        ),
{
    let sample_blocks = c.samples.map_values(|s: Sample| spec_enc_sample(s));
    let e1 = crate::codec::spec_enc_compact(c.samples.len() as u32);
    let e2 = crate::codec::spec_enc_blocks(sample_blocks);
    let e3 = crate::codec::spec_enc_compact(c.commitments.len() as u32);
    let e4 = crate::codec::spec_enc_blocks(c.commitments);
    let whole = spec_enc_confidence(c) + rest;
    assert(whole =~= e1 + (e2 + (e3 + (e4 + rest))));
    crate::codec::lemma_compact_round_trip(c.samples.len() as u32, e2 + (e3 + (e4 + rest)));
    let u1 = e1.len() as int;
    assert(whole.skip(u1) =~= e2 + (e3 + (e4 + rest)));
    assert forall|i: int| 0 <= i < sample_blocks.len() implies (#[trigger] sample_blocks[i]).len()
        == 9 by {
        lemma_sample_block_round_trip(c.samples[i]);
    }
    crate::codec::lemma_dec_enc_blocks(sample_blocks, e3 + (e4 + rest), 9);
    let u2 = e2.len() as int;
    assert(e2.len() == sample_blocks.len() * 9);
    assert forall|i: int| 0 <= i < sample_blocks.len() implies spec_sample_block_ok(
        #[trigger] sample_blocks[i],
    ) by {
        lemma_sample_block_round_trip(c.samples[i]);
    }
    assert(sample_blocks.map_values(|b: Seq<u8>| spec_sample_of_block(b)) =~= c.samples) by {
        assert forall|i: int| 0 <= i < c.samples.len() implies spec_sample_of_block(
            #[trigger] sample_blocks[i],
        ) == c.samples[i] by {
            lemma_sample_block_round_trip(c.samples[i]);
        }
    }
    assert(whole.skip(u1 + u2) =~= e3 + (e4 + rest));
    crate::codec::lemma_compact_round_trip(c.commitments.len() as u32, e4 + rest);
    let u3 = e3.len() as int;
    assert(whole.skip(u1 + u2).skip(u3) =~= e4 + rest);
    crate::codec::lemma_dec_enc_blocks(c.commitments, rest, 48);
    assert(spec_enc_confidence(c).len() == u1 + u2 + u3 + e4.len());
}

impl Confidence {
    /// The record's wire bytes.
    pub fn encode(&self) -> (r: Vec<u8>)
        requires
            self.samples@.len() <= u32::MAX,
            self.commitments@.len() <= u32::MAX,
    ensures
            r@ == spec_enc_confidence(self@),
    {
        let mut out: Vec<u8> = Vec::new();
        crate::codec::encode_compact(&mut out, self.samples.len() as u32);
        let mut sample_blocks: Vec<Vec<u8>> = Vec::new();
        let n = self.samples.len();
        for i in 0..n
            invariant
                n == self.samples@.len(),
                sample_blocks@.len() == i,
                forall|j: int|
                    0 <= j < i ==> (#[trigger] sample_blocks@[j])@ == spec_enc_sample(
                        self.samples@[j],
                    ),
        {
            let s = self.samples[i];
            let mut block: Vec<u8> = Vec::new();
            crate::codec::encode_u32(&mut block, s.position.x);
            crate::codec::encode_u32(&mut block, s.position.y);
            crate::codec::encode_bool(&mut block, s.is_availability);
            assert(block@ =~= spec_enc_sample(self.samples@[i as int]));
            sample_blocks.push(block);
        }
        proof {
            assert(sample_blocks@.map_values(|b: Vec<u8>| b@) =~= self@.samples.map_values(
                |s: Sample| spec_enc_sample(s),
            ));
        }
        crate::codec::encode_raw_blocks(&mut out, &sample_blocks);
        crate::codec::encode_compact(&mut out, self.commitments.len() as u32);
        let mut comm_blocks: Vec<Vec<u8>> = Vec::new();
        let m = self.commitments.len();
        for i in 0..m
            invariant
                m == self.commitments@.len(),
                comm_blocks@.len() == i,
                forall|j: int|
                    0 <= j < i ==> (#[trigger] comm_blocks@[j])@ == self.commitments@[j]@,
        {
            comm_blocks.push(self.commitments[i].to_bytes());
        }
        proof {
            assert(comm_blocks@.map_values(|b: Vec<u8>| b@) =~= self@.commitments);
        }
        crate::codec::encode_raw_blocks(&mut out, &comm_blocks);
        assert(out@ =~= spec_enc_confidence(self@));
        out
    }

    /// Reads a record back from wire bytes.
    #[verifier::rlimit(50)]
    #[verifier::loop_isolation(false)]
    pub fn decode(bytes: &[u8]) -> (r: Option<Confidence>)
        ensures
            ({
                let d = spec_dec_confidence(bytes@);
                &&& (d is Some <==> r is Some)
                &&& (d matches Some(p) ==> r matches Some(c) && c@ == p.0)
            }),
    {
        let ghost d = spec_dec_confidence(bytes@);
        proof {
            assert(bytes@.skip(0) =~= bytes@);
        }
        let (n1, u1) = match crate::codec::decode_compact(bytes, 0) {
            Some(p) => p,
            None => {
                return None;
            },
        };
        let blocks = match crate::codec::decode_raw_blocks(bytes, u1, n1 as usize, 9) {
            Some(p) => p,
            None => {
                return None;
            },
        };
        let (sample_blocks, u2) = blocks;
        proof {
            crate::codec::lemma_dec_blocks_shape(bytes@.skip(u1 as int), n1 as nat, 9);
        }
        let mut samples: Vec<Sample> = Vec::new();
        let ghost block_views = sample_blocks@.map_values(|b: Vec<u8>| b@);
        let sn = sample_blocks.len();
        for i in 0..sn
            invariant
                sn == sample_blocks@.len(),
                block_views == sample_blocks@.map_values(|b: Vec<u8>| b@),
                forall|j: int| 0 <= j < sn ==> (#[trigger] block_views[j]).len() == 9,
                samples@.len() == i,
                forall|j: int| 0 <= j < i ==> spec_sample_block_ok(#[trigger] block_views[j]),
                forall|j: int|
                    0 <= j < i ==> #[trigger] samples@[j] == spec_sample_of_block(block_views[j]),
        {
            let b = &sample_blocks[i];
            proof {
                assert(b@ == block_views[i as int]);
                assert(b@.len() == 9);
            }
            let x = match crate::codec::decode_u32(b.as_slice(), 0) {
                Some(p) => p.0,
                None => {
                    return None;
                },
            };
            let y = match crate::codec::decode_u32(b.as_slice(), 4) {
                Some(p) => p.0,
                None => {
                    return None;
                },
            };
            let flag = b.as_slice()[8];
            if flag != 0 && flag != 1 {
                proof {
                    assert(!spec_sample_block_ok(block_views[i as int]));
                }
                return None;
            }
            proof {
                assert(block_views[i as int].subrange(0, 4) =~= b@.subrange(0, 4));
                assert(block_views[i as int].subrange(4, 8) =~= b@.subrange(4, 8));
            }
            samples.push(
                Sample { position: Position { x, y }, is_availability: flag == 1 },
            );
        }
        proof {
            assert(samples@ =~= block_views.map_values(|b: Seq<u8>| spec_sample_of_block(b)));
            assert(bytes@.skip(u1 as int).skip(u2 as int - u1 as int) =~= bytes@.skip(u2 as int));
        }
        let (n2, u3) = match crate::codec::decode_compact(bytes, u2) {
            Some(p) => p,
            None => {
                return None;
            },
        };
        proof {
            assert(bytes@.skip(u2 as int).skip(u3 as int - u2 as int) =~= bytes@.skip(u3 as int));
        }
        let comms = match crate::codec::decode_raw_blocks(bytes, u3, n2 as usize, 48) {
            Some(p) => p,
            None => {
                return None;
            },
        };
        let (comm_blocks, _u4) = comms;
        let mut commitments: Vec<KZGCommitment> = Vec::new();
        let cn = comm_blocks.len();
        for i in 0..cn
            invariant
                cn == comm_blocks@.len(),
                commitments@.len() == i,
                forall|j: int|
                    0 <= j < i ==> (#[trigger] commitments@[j])@ == comm_blocks@[j]@,
        {
            let mut cb: Vec<u8> = Vec::new();
            crate::codec::encode_raw(&mut cb, comm_blocks[i].as_slice());
            commitments.push(KZGCommitment { bytes: cb });
        }
        let c = Confidence { samples, commitments };
        proof {
            assert(c@.commitments =~= comm_blocks@.map_values(|b: Vec<u8>| b@));
        }
        Some(c)
    }

    /// Writes the record under `id`.
    pub fn save<D: DasKv>(&self, id: &ConfidenceId, db: &mut D)
        requires
            self.samples@.len() <= u32::MAX,
            self.commitments@.len() <= u32::MAX,
        ensures
            final(db).contents() == old(db).contents().insert(id@, spec_enc_confidence(self@)),
    {
        let bytes = self.encode();
        db.set(id.0.as_slice(), bytes.as_slice());
    }

    /// Reads the record under `id`; `None` when absent or malformed.
    pub fn get<D: DasKv>(id: &ConfidenceId, db: &mut D) -> (r: Option<Confidence>)
        ensures
            final(db).contents() == old(db).contents(),
            ({
                let c = old(db).contents();
                &&& (!c.contains_key(id@) ==> r is None)
                &&& (c.contains_key(id@) ==> ({
                    let d = spec_dec_confidence(c[id@]);
                    &&& (d is Some <==> r is Some)
                    &&& (d matches Some(p) ==> r matches Some(conf) && conf@ == p.0)
                }))
            }),
    {
        match db.get(id.0.as_slice()) {
            Some(bytes) => Confidence::decode(bytes.as_slice()),
            None => None,
        }
    }

    /// Deletes the record under `id`.
    pub fn remove<D: DasKv>(&self, id: &ConfidenceId, db: &mut D)
        ensures
            final(db).contents() == old(db).contents().remove(id@),
    {
        db.remove(id.0.as_slice());
    }

    /// Checks one received segment against the commitment snapshot.  A
    /// position on a row outside the snapshot is not an error: the
    /// sample simply reports unavailable; a malformed segment is.
    pub fn verify_sample(&self, position: Position, segment: &Segment) -> (r: Result<bool, String>)
        requires
            self.wf(),
        ensures
            position.y >= self.commitments@.len() ==> (r matches Ok(b) && b == false),
            (position.y < self.commitments@.len() && !(segment.wf() && segment.position.x
                < CHUNK_COUNT)) ==> r is Err,
    {
        let kzg = KZG::default_embedded();
        if position.y as usize >= self.commitments.len() {
            return Ok(false);
        }
        let commitment = &self.commitments[position.y as usize];
        segment.verify(&kzg, commitment, CHUNK_COUNT)
    }
}

// ---------------------------------------------------------------------
// Random sampling.
// ---------------------------------------------------------------------

/// Relies on rand::Rng::gen_range: a draw below `bound`; nothing more is
/// assumed of the outcome.
#[verifier::external_body]
fn random_below(bound: u32) -> (r: u32)
    requires
        bound >= 1,
    ensures
        r < bound,
{
    rand::Rng::gen_range(&mut rand::thread_rng(), 0..bound)
}

/// Count of `false` entries.
pub open spec fn count_false(s: Seq<bool>) -> int
    decreases s.len(),
{
    if s.len() == 0 {
        0
    } else {
        count_false(s.drop_last()) + (if s.last() {
            0int
        } else {
            1int
        })
    }
}

proof fn lemma_count_false_update(s: Seq<bool>, j: int)
    requires
        0 <= j < s.len(),
        !s[j],
    ensures
        count_false(s.update(j, true)) == count_false(s) - 1,
    decreases s.len(),
{
    if j == s.len() - 1 {
        assert(s.update(j, true).drop_last() =~= s.drop_last());
    } else {
        assert(s.update(j, true).drop_last() =~= s.drop_last().update(j, true));
        lemma_count_false_update(s.drop_last(), j);
    }
}

/// The flat index of a position in the sample grid.
pub open spec fn flat_of(p: Position) -> int {
    p.y * SAMPLES_PER_BLOB + p.x
}

/// Types that can (re)draw their sample positions.
pub trait ConfidenceSample: Sized {
    /// How many distinct positions are available.
    spec fn sample_space(&self) -> int;

    /// What a completed draw of `n` samples guarantees.
    spec fn sampled_ok(&self, prior: &Self, n: usize) -> bool;

    /// Replaces the samples by `n` fresh, distinct, unverified
    /// positions.
    fn set_sample(&mut self, n: usize)
        requires
            1 <= old(self).sample_space() <= u32::MAX,
            n <= old(self).sample_space(),
        ensures
            final(self).sampled_ok(old(self), n),
    ;
}

impl ConfidenceSample for Confidence {
    open spec fn sample_space(&self) -> int {
        SAMPLES_PER_BLOB * self.commitments@.len()
    }

    open spec fn sampled_ok(&self, prior: &Self, n: usize) -> bool {
        &&& self.commitments == prior.commitments
        &&& self.samples@.len() == n
        &&& (forall|i: int|
            0 <= i < self.samples@.len() ==> !(#[trigger] self.samples@[i]).is_availability)
        &&& (forall|i: int|
            0 <= i < self.samples@.len() ==> (#[trigger] self.samples@[i]).position.x
                < SAMPLES_PER_BLOB && self.samples@[i].position.y < self.commitments@.len())
        &&& (forall|i: int, j: int|
            0 <= i < j < self.samples@.len() ==> (#[trigger] self.samples@[i]).position != (
            #[trigger] self.samples@[j]).position)
    }

    #[verifier::loop_isolation(false)]
    fn set_sample(&mut self, n: usize) {
        let total: usize = SAMPLES_PER_BLOB * self.commitments.len();
        let mut chosen: Vec<bool> = Vec::new();
        for s in 0..total
            invariant
                chosen@.len() == s,
                count_false(chosen@) == s,
                forall|j: int| 0 <= j < s ==> !(#[trigger] chosen@[j]),
        {
            let ghost prev = chosen@;
            chosen.push(false);
            proof {
                assert(chosen@.drop_last() =~= prev);
            }
        }
        let mut samples: Vec<Sample> = Vec::new();
        for i in 0..n
            invariant
                chosen@.len() == total,
                samples@.len() == i,
                count_false(chosen@) == total - i,
                forall|t: int|
                    0 <= t < i ==> ({
                        let p = (#[trigger] samples@[t]).position;
                        &&& !samples@[t].is_availability
                        &&& p.x < SAMPLES_PER_BLOB
                        &&& p.y < self.commitments@.len()
                        &&& 0 <= flat_of(p) < total
                        &&& chosen@[flat_of(p)]
                    }),
                forall|t1: int, t2: int|
                    0 <= t1 < t2 < i ==> (#[trigger] samples@[t1]).position != (
                    #[trigger] samples@[t2]).position,
        {
            let k = random_below((total - i) as u32) as usize;
            let mut picked: usize = total;
            let mut rank: usize = k;
            for c in 0..total
                invariant
                    chosen@.len() == total,
                    picked == total || (picked < total && !chosen@[picked as int]),
                    picked == total ==> rank <= k && count_false(chosen@.take(c as int)) == k
                        - rank,
            {
                proof {
                    assert(chosen@.take(c as int + 1).drop_last() =~= chosen@.take(c as int));
                    assert(chosen@.take(c as int + 1).last() == chosen@[c as int]);
                }
                if picked == total && !chosen[c] {
                    if rank == 0 {
                        picked = c;
                    } else {
                        rank = rank - 1;
                    }
                }
            }
            proof {
                if picked == total {
                    assert(chosen@.take(total as int) =~= chosen@);
                    assert(count_false(chosen@) == k - rank);
                    assert(false);
                }
            }
            let xv = (picked % SAMPLES_PER_BLOB) as u32;
            let yv = (picked / SAMPLES_PER_BLOB) as u32;
            proof {
                assert(yv < self.commitments@.len() && flat_of(
                    Position { x: xv, y: yv },
                ) == picked as int) by (nonlinear_arith)
                    requires
                        picked < total && total == SAMPLES_PER_BLOB * self.commitments@.len()
                            && xv == picked % SAMPLES_PER_BLOB && yv == picked / SAMPLES_PER_BLOB
                            && SAMPLES_PER_BLOB == 32,
                ;
                lemma_count_false_update(chosen@, picked as int);
            }
            let ghost chosen_before = chosen@;
            chosen[picked] = true;
            samples.push(Sample { position: Position { x: xv, y: yv }, is_availability: false });
            proof {
                assert forall|t1: int, t2: int| 0 <= t1 < t2 < i + 1 implies (
                #[trigger] samples@[t1]).position != (#[trigger] samples@[t2]).position by {
                    if t2 == i as int {
                        assert(chosen_before[flat_of(samples@[t1].position)]);
                        assert(!chosen_before[flat_of(samples@[t2].position)]);
                        let p1 = samples@[t1].position;
                        let p2 = samples@[t2].position;
                        assert(p1 != p2) by (nonlinear_arith)
                            requires
                                flat_of(p1) != flat_of(p2) && flat_of(p1) == p1.y * SAMPLES_PER_BLOB
                                    + p1.x && flat_of(p2) == p2.y * SAMPLES_PER_BLOB + p2.x
                                    && SAMPLES_PER_BLOB == 32,
                        ;
                    }
                }
            }
        }
        self.samples = samples;
    }
}

} // verus!
