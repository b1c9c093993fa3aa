//! Sidecars: the off-chain bundle tying blob bytes to their on-chain
//! metadata.
//!
//! A sidecar is created when a blob transaction is observed, filled
//! when the bytes arrive over the network, and marked according to the
//! outcome of the batch proof check.  It is identified by the hash of
//! the data it describes.

use vstd::prelude::*;
use crate::kzg::Blob;
use crate::kzg::KZG;
use crate::kzg::KZGCommitment;
use crate::kzg::KZGProof;
use crate::farmer::blake2b256_of;
use crate::farmer::blake2b_256;
use crate::store::DasKv;
use crate::BYTES_PER_BLOB;

verus! {

/// Outcome recorded on a sidecar after verification.
#[derive(Debug, Clone, Copy, PartialEq, Eq, Structural)]
pub enum SidecarStatus {
    Success,
    Failed,
}

/// The on-chain metadata of one blob transaction.
#[derive(Debug)]
pub struct SidecarMetadata {
    pub data_len: u32,
    pub blobs_hash: Vec<u8>,
    pub commitments: Vec<KZGCommitment>,
    pub proofs: Vec<KZGProof>,
}

/// Spec-level shape of sidecar metadata.
pub struct SidecarMetadataView {
    pub data_len: u32,
    pub blobs_hash: Seq<u8>,
    pub commitments: Seq<Seq<u8>>,
    pub proofs: Seq<Seq<u8>>,
}

impl View for SidecarMetadata {
    type V = SidecarMetadataView;

    open spec fn view(&self) -> SidecarMetadataView {
        SidecarMetadataView {
            data_len: self.data_len,
            blobs_hash: self.blobs_hash@,
            commitments: self.commitments@.map_values(|c: KZGCommitment| c@),
            proofs: self.proofs@.map_values(|p: KZGProof| p@),
        }
    }
}

impl SidecarMetadata {
    pub open spec fn wf(&self) -> bool {
        &&& self.blobs_hash@.len() == 32
        &&& (forall|i: int|
            0 <= i < self.commitments@.len() ==> (#[trigger] self.commitments@[i]).wf())
        &&& (forall|i: int| 0 <= i < self.proofs@.len() ==> (#[trigger] self.proofs@[i]).wf())
    }

    /// The identifier of the data this metadata describes: the hash of
    /// the bytes.
    pub fn calculate_id(data: &[u8]) -> (r: Vec<u8>)
        ensures
            r@ == blake2b256_of(data@),
            r@.len() == 32,
    {
        blake2b_256(data)
    }

    /// The sidecar's identifier.
    pub fn id(&self) -> (r: Vec<u8>)
        ensures
            r@ == self.blobs_hash@,
    {
        let mut out: Vec<u8> = Vec::new();
        crate::codec::encode_raw(&mut out, self.blobs_hash.as_slice());
        out
    }

    /// Checks `data` against this metadata: the length and hash must
    /// match, the bytes must chunk into canonical blobs pairing up with
    /// the commitments and proofs; the boolean outcome is then the
    /// backend's batch check.
    pub fn verify_bytes(&self, data: &[u8]) -> (r: Result<bool, String>)
        requires
            self.wf(),
        ensures
            !(self.data_len == data@.len() && blake2b256_of(data@) == self.blobs_hash@) ==> (r
                matches Ok(b) && b == false),
            (self.data_len == data@.len() && blake2b256_of(data@) == self.blobs_hash@ && !(
            data@.len() % 32 == 0 && crate::kzg::all_lanes_in_field(data@))) ==> r is Err,
    {
        if data.len() != self.data_len as usize {
            return Ok(false);
        }
        let id = SidecarMetadata::calculate_id(data);
        if !crate::store::bytes_eq(id.as_slice(), self.blobs_hash.as_slice()) {
            return Ok(false);
        }
        let blobs = match bytes_to_blobs(data) {
            Ok(bs) => bs,
            Err(e) => {
                return Err(e);
            },
        };
        let kzg = KZG::default_embedded();
        kzg.verify_blobs_proof_batch(&self.commitments, &self.proofs, &blobs)
    }
}

impl Clone for SidecarMetadata {
    fn clone(&self) -> (r: Self)
        ensures
            r@ == self@,
            r.data_len == self.data_len,
            r.blobs_hash@ == self.blobs_hash@,
            r.commitments@.len() == self.commitments@.len(),
            forall|i: int|
                0 <= i < self.commitments@.len() ==> (#[trigger] r.commitments@[i])@
                    == self.commitments@[i]@,
            r.proofs@.len() == self.proofs@.len(),
            forall|i: int|
                0 <= i < self.proofs@.len() ==> (#[trigger] r.proofs@[i])@ == self.proofs@[i]@,
            self.wf() ==> r.wf(),
    {
        let mut hash: Vec<u8> = Vec::new();
        crate::codec::encode_raw(&mut hash, self.blobs_hash.as_slice());
        let mut commitments: Vec<KZGCommitment> = Vec::new();
        let n = self.commitments.len();
        for i in 0..n
            invariant
                n == self.commitments@.len(),
                commitments@.len() == i,
                forall|j: int|
                    0 <= j < i ==> (#[trigger] commitments@[j])@ == self.commitments@[j]@,
        {
            commitments.push(self.commitments[i].clone());
        }
        let mut proofs: Vec<KZGProof> = Vec::new();
        let m = self.proofs.len();
        for i in 0..m
            invariant
                m == self.proofs@.len(),
                proofs@.len() == i,
                forall|j: int| 0 <= j < i ==> (#[trigger] proofs@[j])@ == self.proofs@[j]@,
        {
            proofs.push(self.proofs[i].clone());
        }
        let r = SidecarMetadata { data_len: self.data_len, blobs_hash: hash, commitments, proofs };
        assert(r@.commitments =~= self@.commitments);
        assert(r@.proofs =~= self@.proofs);
        r
    }
}

/// Splits bytes into full blobs, zero-padding the last.  It succeeds
/// exactly when the bytes are a whole number of scalar lanes and every
/// lane is canonical.
#[verifier::rlimit(60)]
#[verifier::loop_isolation(false)]
pub fn bytes_to_blobs(data: &[u8]) -> (r: Result<Vec<Blob>, String>)
    ensures
        r is Ok <==> (data@.len() % 32 == 0 && crate::kzg::all_lanes_in_field(data@)),
        r matches Ok(bs) ==> bs@.len() == (data@.len() + BYTES_PER_BLOB - 1) / (
        BYTES_PER_BLOB as int) && forall|i: int| 0 <= i < bs@.len() ==> (#[trigger] bs@[i]).wf(),
{
    let mut blobs: Vec<Blob> = Vec::new();
    let len = data.len();
    if len % 32 != 0 {
        return Err("blob data must be a whole number of scalars".to_string());
    }
    let full = len / BYTES_PER_BLOB;
    let ghost total = (len + BYTES_PER_BLOB - 1) as int / (BYTES_PER_BLOB as int);
    proof {
        assert(total == full as int + (if len as int % BYTES_PER_BLOB as int == 0 {
            0int
        } else {
            1int
        })) by (nonlinear_arith)
            requires
                full == len as int / BYTES_PER_BLOB as int && total == (len + BYTES_PER_BLOB
                    - 1) as int / (BYTES_PER_BLOB as int) && BYTES_PER_BLOB == 131072 && len
                    <= usize::MAX,
        ;
    }
    for b in 0..full
        invariant
            blobs@.len() == b,
            forall|i: int| 0 <= i < b ==> (#[trigger] blobs@[i]).wf(),
            forall|k: int|
                0 <= k < 4096 * b ==> crate::kzg::scalar_in_field(
                    #[trigger] data@.subrange(32 * k, 32 * k + 32),
                ),
    {
        proof {
            assert(BYTES_PER_BLOB * b + BYTES_PER_BLOB <= len) by (nonlinear_arith)
                requires
                    b < full && full == len as int / BYTES_PER_BLOB as int && BYTES_PER_BLOB
                        == 131072,
            ;
        }
        let chunk = vstd::slice::slice_subrange(
            data,
            BYTES_PER_BLOB * b,
            BYTES_PER_BLOB * b + BYTES_PER_BLOB,
        );
        match Blob::try_from_bytes(chunk) {
            Ok(blob) => {
                blobs.push(blob);
                proof {
                    assert forall|k: int|
                        0 <= k < 4096 * (b + 1) implies crate::kzg::scalar_in_field(
                        #[trigger] data@.subrange(32 * k, 32 * k + 32),
                    ) by {
                        if k >= 4096 * b as int {
                            let j = k - 4096 * b;
                            assert(0 <= j < chunk@.len() / 32);
                            crate::kzg::lemma_lane_in_field(chunk@, j);
                            lemma_chunk_lane(data@, chunk@, (BYTES_PER_BLOB * b) as int, j);
                            assert(32 * k == 131072 * b + 32 * j);
                        }
                    }
                }
            },
            Err(e) => {
                proof {
                    let j = choose|j: int|
                        0 <= j < chunk@.len() / 32 && !crate::kzg::scalar_in_field(
                            #[trigger] chunk@.subrange(32 * j, 32 * j + 32),
                        );
                    lemma_chunk_lane(data@, chunk@, (BYTES_PER_BLOB * b) as int, j);
                    assert(32 * (4096 * b + j) == 131072 * b + 32 * j);
                    assert(4096 * b + j < data@.len() / 32) by (nonlinear_arith)
                        requires
                            0 <= j < 4096 && BYTES_PER_BLOB * (b + 1) <= data@.len()
                                && BYTES_PER_BLOB == 131072,
                    ;
                    crate::kzg::lemma_lane_not_in_field(data@, 4096 * b + j);
                }
                return Err(e);
            },
        }
    }
    if len % BYTES_PER_BLOB != 0 {
        let chunk = vstd::slice::slice_subrange(data, BYTES_PER_BLOB * full, len);
        proof {
            assert(BYTES_PER_BLOB * full <= len && len - BYTES_PER_BLOB * full < BYTES_PER_BLOB
                && (len - BYTES_PER_BLOB * full) % 32 == 0) by (nonlinear_arith)
                requires
                    full == len as int / BYTES_PER_BLOB as int && len as int % BYTES_PER_BLOB as int
                        != 0 && len as int % 32 == 0 && BYTES_PER_BLOB == 131072,
            ;
        }
        match Blob::try_from_bytes_pad(chunk) {
            Ok(blob) => {
                blobs.push(blob);
                proof {
                    assert forall|k: int|
                        0 <= k < data@.len() / 32 implies crate::kzg::scalar_in_field(
                        #[trigger] data@.subrange(32 * k, 32 * k + 32),
                    ) by {
                        if k >= 4096 * full as int {
                            let j = k - 4096 * full;
                            assert(data@.len() == 32 * (data@.len() / 32));
                            assert(chunk@.len() == 32 * ((data@.len() / 32) - 4096 * full));
                            assert(chunk@.len() / 32 == data@.len() / 32 - 4096 * full);
                            assert(0 <= j < chunk@.len() / 32);
                            crate::kzg::lemma_lane_in_field(chunk@, j);
                            lemma_chunk_lane(data@, chunk@, (BYTES_PER_BLOB * full) as int, j);
                            assert(32 * k == 131072 * full + 32 * j);
                        }
                    }
                }
            },
            Err(e) => {
                proof {
                    let j = choose|j: int|
                        0 <= j < chunk@.len() / 32 && !crate::kzg::scalar_in_field(
                            #[trigger] chunk@.subrange(32 * j, 32 * j + 32),
                        );
                    lemma_chunk_lane(data@, chunk@, (BYTES_PER_BLOB * full) as int, j);
                    assert(32 * (4096 * full + j) == 131072 * full + 32 * j);
                    assert(4096 * full + j < data@.len() / 32) by (nonlinear_arith)
                        requires
                            0 <= j < chunk@.len() / 32 && chunk@.len() == data@.len() - 131072
                                * full && data@.len() % 32 == 0,
                    ;
                    crate::kzg::lemma_lane_not_in_field(data@, 4096 * full + j);
                }
                return Err(e);
            },
        }
    } else {
        proof {
            assert(4096 * full == len as int / 32) by (nonlinear_arith)
                requires
                    full == len as int / BYTES_PER_BLOB as int && len as int % BYTES_PER_BLOB as int
                        == 0 && BYTES_PER_BLOB == 131072,
            ;
        }
    }
    Ok(blobs)
}

/// Lane `j` of a chunk cut at offset `off` is the corresponding lane
/// of the whole.
proof fn lemma_chunk_lane(data: Seq<u8>, chunk: Seq<u8>, off: int, j: int)
    requires
        0 <= off <= data.len(),
        chunk == data.subrange(off, off + chunk.len()),
        off + chunk.len() <= data.len(),
        0 <= j < chunk.len() / 32,
    ensures
        chunk.subrange(32 * j, 32 * j + 32) == data.subrange(off + 32 * j, off + 32 * j + 32),
{
    assert(32 * j + 32 <= chunk.len());
    assert(chunk.subrange(32 * j, 32 * j + 32) =~= data.subrange(
        off + 32 * j,
        off + 32 * j + 32,
    ));
}

/// The off-chain bundle: metadata, optionally the bytes themselves,
/// and the verification status.
#[derive(Debug)]
pub struct Sidecar {
    pub blobs: Option<Vec<u8>>,
    pub metadata: SidecarMetadata,
    pub status: Option<SidecarStatus>,
}

/// Spec-level shape of a sidecar.
pub struct SidecarView {
    pub blobs: Option<Seq<u8>>,
    pub metadata: SidecarMetadataView,
    pub status: Option<SidecarStatus>,
}

impl View for Sidecar {
    type V = SidecarView;

    open spec fn view(&self) -> SidecarView {
        SidecarView {
            blobs: match self.blobs {
                Some(ref b) => Some(b@),
                None => None,
            },
            metadata: self.metadata@,
            status: self.status,
        }
    }
}

impl Sidecar {
    pub fn id(&self) -> (r: Vec<u8>)
        ensures
            r@ == self.metadata.blobs_hash@,
    {
        self.metadata.id()
    }
}

/// The sidecar's wire bytes: the status tag first, then the metadata,
/// then optionally the data bytes.
pub open spec fn spec_enc_sidecar(v: SidecarView) -> Seq<u8> {
    seq![
        (match v.status {
            None => 0u8,
            Some(SidecarStatus::Success) => 1u8,
            Some(SidecarStatus::Failed) => 2u8,
        }),
    ] + crate::codec::spec_enc_u32(v.metadata.data_len) + v.metadata.blobs_hash
        + crate::codec::spec_enc_compact(v.metadata.commitments.len() as u32)
        + crate::codec::spec_enc_blocks(v.metadata.commitments) + crate::codec::spec_enc_compact(
        v.metadata.proofs.len() as u32,
    ) + crate::codec::spec_enc_blocks(v.metadata.proofs) + (match v.blobs {
        None => seq![0u8],
        Some(b) => seq![1u8] + crate::codec::spec_enc_compact(b.len() as u32) + b,
    })
}

/// Spec-level decoder of the metadata part.
pub open spec fn spec_dec_sidecar_meta(s: Seq<u8>) -> Option<(SidecarMetadataView, int)> {
    if s.len() < 36 {
        None
    } else {
        let data_len = crate::codec::spec_dec_u32_val(s.subrange(0, 4));
        let blobs_hash = s.subrange(4, 36);
        match crate::codec::spec_dec_compact(s.skip(36)) {
            Some((nc, u1)) => match crate::codec::spec_dec_blocks(s.skip(36 + u1), nc as nat, 48) {
                Some((comms, u2)) => {
                    let s2 = s.skip(36 + u1 + u2);
                    match crate::codec::spec_dec_compact(s2) {
                        Some((np, u3)) => match crate::codec::spec_dec_blocks(
                            s2.skip(u3),
                            np as nat,
                            48,
                        ) {
                            Some((proofs, u4)) => Some(
                                (
                                    SidecarMetadataView {
                                        data_len,
                                        blobs_hash,
                                        commitments: comms,
                                        proofs,
                                    },
                                    36 + u1 + u2 + u3 + u4,
                                ),
                            ),
                            None => None,
                        },
                        None => None,
                    }
                },
                None => None,
            },
            None => None,
        }
    }
}

/// Spec-level decoder of a sidecar.
pub open spec fn spec_dec_sidecar(s: Seq<u8>) -> Option<SidecarView> {
    if s.len() < 1 {
        None
    } else if s[0] == 0u8 || s[0] == 1u8 || s[0] == 2u8 {
        let status = if s[0] == 0u8 {
            None
        } else if s[0] == 1u8 {
            Some(SidecarStatus::Success)
        } else {
            Some(SidecarStatus::Failed)
        };
        match spec_dec_sidecar_meta(s.skip(1)) {
            Some((m, u)) => {
                let s3 = s.skip(1 + u);
                if s3.len() < 1 {
                    None
                } else if s3[0] == 0u8 {
                    Some(SidecarView { blobs: None, metadata: m, status })
                } else if s3[0] == 1u8 {
                    match crate::codec::spec_dec_compact(s3.skip(1)) {
                        Some((bl, u5)) => {
                            if s3.len() >= 1 + u5 + bl {
                                Some(
                                    SidecarView {
                                        blobs: Some(s3.subrange(1 + u5, 1 + u5 + bl)),
                                        metadata: m,
                                        status,
                                    },
                                )
                            } else {
                                None
                            }
                        },
                        None => None,
                    }
                } else {
                    None
                }
            },
            None => None,
        }
    } else {
        None
    }
}

/// The storage key of the sidecar with identifier `id`.
pub open spec fn spec_sidecar_key(id: Seq<u8>) -> Seq<u8> {
    seq![115u8, 105u8, 100u8, 101u8, 99u8, 97u8, 114u8, 47u8] + id
}

impl Sidecar {
    pub open spec fn wf(&self) -> bool {
        &&& self.metadata.wf()
        &&& self.metadata.commitments@.len() <= u32::MAX
        &&& self.metadata.proofs@.len() <= u32::MAX
        &&& (match self.blobs {
            Some(ref b) => b@.len() <= u32::MAX,
            None => true,
        })
    }

    /// The sidecar's wire bytes.
    pub fn encode(&self) -> (r: Vec<u8>)
        requires
            self.wf(),
        ensures
            r@ == spec_enc_sidecar(self@),
    {
        let mut out: Vec<u8> = Vec::new();
        match self.status {
            None => out.push(0u8),
            Some(SidecarStatus::Success) => out.push(1u8),
            Some(SidecarStatus::Failed) => out.push(2u8),
        }
        crate::codec::encode_u32(&mut out, self.metadata.data_len);
        crate::codec::encode_raw(&mut out, self.metadata.blobs_hash.as_slice());
        crate::codec::encode_compact(&mut out, self.metadata.commitments.len() as u32);
        let mut comm_blocks: Vec<Vec<u8>> = Vec::new();
        let n = self.metadata.commitments.len();
        for i in 0..n
            invariant
                n == self.metadata.commitments@.len(),
                comm_blocks@.len() == i,
                forall|j: int|
                    0 <= j < i ==> (#[trigger] comm_blocks@[j])@ == self.metadata.commitments@[j]@,
        {
            comm_blocks.push(self.metadata.commitments[i].to_bytes());
        }
        proof {
            assert(comm_blocks@.map_values(|b: Vec<u8>| b@) =~= self@.metadata.commitments);
        }
        crate::codec::encode_raw_blocks(&mut out, &comm_blocks);
        crate::codec::encode_compact(&mut out, self.metadata.proofs.len() as u32);
        let mut proof_blocks: Vec<Vec<u8>> = Vec::new();
        let m = self.metadata.proofs.len();
        for i in 0..m
            invariant
                m == self.metadata.proofs@.len(),
                proof_blocks@.len() == i,
                forall|j: int|
                    0 <= j < i ==> (#[trigger] proof_blocks@[j])@ == self.metadata.proofs@[j]@,
        {
            proof_blocks.push(self.metadata.proofs[i].to_bytes());
        }
        proof {
            assert(proof_blocks@.map_values(|b: Vec<u8>| b@) =~= self@.metadata.proofs);
        }
        crate::codec::encode_raw_blocks(&mut out, &proof_blocks);
        match self.blobs {
            None => out.push(0u8),
            Some(ref b) => {
                out.push(1u8);
                crate::codec::encode_compact(&mut out, b.len() as u32);
                crate::codec::encode_raw(&mut out, b.as_slice());
            },
        }
        assert(out@ =~= spec_enc_sidecar(self@));
        out
    }

    /// Reads a sidecar back from wire bytes.
    #[verifier::rlimit(60)]
    #[verifier::loop_isolation(false)]
    pub fn decode(bytes: &[u8]) -> (r: Option<Sidecar>)
        ensures
            ({
                let d = spec_dec_sidecar(bytes@);
                &&& (d is Some <==> r is Some)
                &&& (d matches Some(v) ==> r matches Some(sc) && sc@ == v)
            }),
    {
        if bytes.len() < 1 {
            return None;
        }
        let tag = bytes[0];
        if tag != 0 && tag != 1 && tag != 2 {
            return None;
        }
        let status = if tag == 0 {
            None
        } else if tag == 1 {
            Some(SidecarStatus::Success)
        } else {
            Some(SidecarStatus::Failed)
        };
        let (metadata, u) = match decode_sidecar_meta(bytes, 1) {
            Some(p) => p,
            None => {
                return None;
            },
        };
        let ghost s3 = bytes@.skip(u as int);
        proof {
            assert(bytes@.skip(1).skip(u as int - 1) =~= s3);
        }
        if u >= bytes.len() {
            proof {
                assert(s3.len() < 1);
            }
            return None;
        }
        let btag = bytes[u];
        proof {
            assert(s3[0] == bytes@[u as int]);
        }
        let blobs: Option<Vec<u8>> = if btag == 0 {
            None
        } else if btag == 1 {
            proof {
                assert(s3.skip(1) =~= bytes@.skip(u as int + 1));
            }
            let (bl, u5) = match crate::codec::decode_compact(bytes, u + 1) {
                Some(p) => p,
                None => {
                    return None;
                },
            };
            match crate::codec::decode_raw(bytes, u5, bl as usize) {
                Some(p) => {
                    proof {
                        assert(s3.subrange(
                            1 + (u5 as int - (u as int + 1)),
                            1 + (u5 as int - (u as int + 1)) + bl as int,
                        ) =~= bytes@.subrange(u5 as int, u5 as int + bl as int));
                    }
                    Some(p.0)
                },
                None => {
                    proof {
                        assert(s3.len() < 1 + (u5 as int - (u as int + 1)) + bl as int);
                    }
                    return None;
                },
            }
        } else {
            return None;
        };
        Some(Sidecar { blobs, metadata, status })
    }

    /// Writes the sidecar under its key.
    pub fn save_to_local<D: DasKv>(&self, db: &mut D)
        requires
            self.wf(),
        ensures
            final(db).contents() == old(db).contents().insert(
                spec_sidecar_key(self.metadata.blobs_hash@),
                spec_enc_sidecar(self@),
            ),
    {
        let mut key: Vec<u8> = Vec::new();
        key.push(115u8);
        key.push(105u8);
        key.push(100u8);
        key.push(101u8);
        key.push(99u8);
        key.push(97u8);
        key.push(114u8);
        key.push(47u8);
        crate::codec::encode_raw(&mut key, self.metadata.blobs_hash.as_slice());
        assert(key@ =~= spec_sidecar_key(self.metadata.blobs_hash@));
        let bytes = self.encode();
        db.set(key.as_slice(), bytes.as_slice());
    }

    /// Reads the sidecar stored under `id`; `None` when absent or
    /// malformed.
    pub fn from_local<D: DasKv>(id: &[u8], db: &mut D) -> (r: Option<Sidecar>)
        ensures
            final(db).contents() == old(db).contents(),
            ({
                let c = old(db).contents();
                let key = spec_sidecar_key(id@);
                &&& (!c.contains_key(key) ==> r is None)
                &&& (c.contains_key(key) ==> ({
                    let d = spec_dec_sidecar(c[key]);
                    &&& (d is Some <==> r is Some)
                    &&& (d matches Some(v) ==> r matches Some(sc) && sc@ == v)
                }))
            }),
    {
        let mut key: Vec<u8> = Vec::new();
        key.push(115u8);
        key.push(105u8);
        key.push(100u8);
        key.push(101u8);
        key.push(99u8);
        key.push(97u8);
        key.push(114u8);
        key.push(47u8);
        crate::codec::encode_raw(&mut key, id);
        assert(key@ =~= spec_sidecar_key(id@));
        match db.get(key.as_slice()) {
            Some(bytes) => Sidecar::decode(bytes.as_slice()),
            None => None,
        }
    }
}

/// Reads the metadata part at `pos`.
#[verifier::rlimit(60)]
#[verifier::loop_isolation(false)]
fn decode_sidecar_meta(bytes: &[u8], pos: usize) -> (r: Option<(SidecarMetadata, usize)>)
    requires
        pos <= bytes@.len(),
    ensures
        ({
            let d = spec_dec_sidecar_meta(bytes@.skip(pos as int));
            &&& (d is Some <==> r is Some)
            &&& (d matches Some(p) ==> r matches Some(q) && q.0@ == p.0 && q.1 == pos + p.1 && pos
                < q.1 <= bytes@.len())
        }),
{
    let ghost tail = bytes@.skip(pos as int);
    if bytes.len() - pos < 36 {
        return None;
    }
    let data_len = match crate::codec::decode_u32(bytes, pos) {
        Some(p) => p.0,
        None => {
            return None;
        },
    };
    let blobs_hash = match crate::codec::decode_raw(bytes, pos + 4, 32) {
        Some(p) => p.0,
        None => {
            return None;
        },
    };
    proof {
        assert(tail.subrange(0, 4) =~= bytes@.subrange(pos as int, pos as int + 4));
        assert(tail.subrange(4, 36) =~= bytes@.subrange(pos as int + 4, pos as int + 36));
        assert(tail.skip(36) =~= bytes@.skip(pos as int + 36));
    }
    let (nc, u1) = match crate::codec::decode_compact(bytes, pos + 36) {
        Some(p) => p,
        None => {
            return None;
        },
    };
    proof {
        assert(tail.skip(36 + (u1 as int - (pos as int + 36))) =~= bytes@.skip(u1 as int));
    }
    let (comm_blocks, u2) = match crate::codec::decode_raw_blocks(bytes, u1, nc as usize, 48) {
        Some(p) => p,
        None => {
            return None;
        },
    };
    proof {
        crate::codec::lemma_dec_blocks_shape(bytes@.skip(u1 as int), nc as nat, 48);
        assert(tail.skip(36 + (u1 as int - (pos as int + 36)) + (u2 as int - u1 as int))
            =~= bytes@.skip(u2 as int));
    }
    let (np, u3) = match crate::codec::decode_compact(bytes, u2) {
        Some(p) => p,
        None => {
            return None;
        },
    };
    proof {
        assert(bytes@.skip(u2 as int).skip(u3 as int - u2 as int) =~= bytes@.skip(u3 as int));
    }
    let (proof_blocks, u4) = match crate::codec::decode_raw_blocks(bytes, u3, np as usize, 48) {
        Some(p) => p,
        None => {
            return None;
        },
    };
    proof {
        crate::codec::lemma_dec_blocks_shape(bytes@.skip(u3 as int), np as nat, 48);
    }
    let mut commitments: Vec<KZGCommitment> = Vec::new();
    let cn = comm_blocks.len();
    for i in 0..cn
        invariant
            cn == comm_blocks@.len(),
            commitments@.len() == i,
            forall|j: int| 0 <= j < i ==> (#[trigger] commitments@[j])@ == comm_blocks@[j]@,
    {
        let mut cb: Vec<u8> = Vec::new();
        crate::codec::encode_raw(&mut cb, comm_blocks[i].as_slice());
        commitments.push(KZGCommitment { bytes: cb });
    }
    let mut proofs: Vec<KZGProof> = Vec::new();
    let pn = proof_blocks.len();
    for i in 0..pn
        invariant
            pn == proof_blocks@.len(),
            proofs@.len() == i,
            forall|j: int| 0 <= j < i ==> (#[trigger] proofs@[j])@ == proof_blocks@[j]@,
    {
        let mut pb: Vec<u8> = Vec::new();
        crate::codec::encode_raw(&mut pb, proof_blocks[i].as_slice());
        proofs.push(KZGProof { bytes: pb });
    }
    let m = SidecarMetadata { data_len, blobs_hash, commitments, proofs };
    proof {
        assert(m@.commitments =~= comm_blocks@.map_values(|b: Vec<u8>| b@));
        assert(m@.proofs =~= proof_blocks@.map_values(|b: Vec<u8>| b@));
    }
    Some((m, u4))
}

/// What the transaction-pool listener does for one observed blob
/// transaction: when no sidecar exists yet, a fresh one is stored and
/// the bytes are fetched; when one exists with no status yet, only the
/// fetch happens; a settled sidecar needs nothing.  Returns whether to
/// ask the network for the bytes.
pub fn process_tx_metadata<D: DasKv>(metadata: &SidecarMetadata, db: &mut D) -> (r: bool)
    requires
        metadata.wf(),
        metadata.commitments@.len() <= u32::MAX,
        metadata.proofs@.len() <= u32::MAX,
    ensures
        ({
            let c = old(db).contents();
            let key = spec_sidecar_key(metadata.blobs_hash@);
            let fresh = SidecarView { blobs: None, metadata: metadata@, status: None };
            &&& ((c.contains_key(key) && spec_dec_sidecar(c[key]) is Some) ==> ({
                &&& final(db).contents() == c
                &&& r == (spec_dec_sidecar(c[key])->Some_0.status is None)
            }))
            &&& (!(c.contains_key(key) && spec_dec_sidecar(c[key]) is Some) ==> ({
                &&& final(db).contents() == c.insert(key, spec_enc_sidecar(fresh))
                &&& r == true
            }))
        }),
{
    let id = metadata.id();
    match Sidecar::from_local(id.as_slice(), db) {
        Some(sidecar) => sidecar.status.is_none(),
        None => {
            let fresh = Sidecar { blobs: None, metadata: metadata.clone(), status: None };
            assert(fresh@ == (SidecarView { blobs: None, metadata: metadata@, status: None }));
            fresh.save_to_local(db);
            true
        },
    }
}

/// The network key under which a sidecar's bytes are published: the
/// sidecar id itself, which is already a fixed-length hash of the data.
pub fn kademlia_key_from_sidecar_id(id: &[u8]) -> (r: Vec<u8>)
    ensures
        r@ == id@,
{
    let mut out: Vec<u8> = Vec::new();
    crate::codec::encode_raw(&mut out, id);
    out
}

} // verus!
