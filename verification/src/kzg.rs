//! Scalars, blobs, commitments and proofs, modelled as canonical bytes,
//! together with the trusted wrappers around the `c-kzg` backend.
//!
//! A scalar is 32 bytes holding a big-endian field element of the
//! BLS12-381 scalar field; a commitment or proof is a 48-byte compressed
//! G1 point.  Canonicity of a scalar is decided here, in verified code,
//! by comparing the bytes against the field modulus: for equal-length
//! strings, big-endian lexicographic order coincides with numeric order.

use vstd::prelude::*;
use std::sync::Arc;
use crate::BYTES_PER_BLOB;
use crate::BYTES_PER_FIELD_ELEMENT;
use crate::FIELD_ELEMENTS_PER_BLOB;

verus! {

/// Bytes of one commitment or proof: a compressed G1 point.
pub const BYTES_PER_G1_POINT: usize = 48;

/// Lexicographic strict order on equal-length byte strings; on
/// big-endian encodings of equal width this is exactly numeric order.
pub open spec fn bytes_lt(s: Seq<u8>, t: Seq<u8>) -> bool
    decreases s.len(),
{
    if s.len() == 0 || t.len() == 0 {
        false
    } else if s[0] < t[0] {
        true
    } else if s[0] > t[0] {
        false
    } else {
        bytes_lt(s.skip(1), t.skip(1))
    }
}

/// Big-endian bytes of the BLS12-381 scalar field modulus.
pub open spec fn bls_modulus_bytes() -> Seq<u8> {
    seq![
        0x73u8, 0xedu8, 0xa7u8, 0x53u8, 0x29u8, 0x9du8, 0x7du8, 0x48u8,
        0x33u8, 0x39u8, 0xd8u8, 0x08u8, 0x09u8, 0xa1u8, 0xd8u8, 0x05u8,
        0x53u8, 0xbdu8, 0xa4u8, 0x02u8, 0xffu8, 0xfeu8, 0x5bu8, 0xfeu8,
        0xffu8, 0xffu8, 0xffu8, 0xffu8, 0x00u8, 0x00u8, 0x00u8, 0x01u8,
    ]
}

/// A 32-byte string is an in-field scalar when its big-endian value is
/// below the field modulus.
pub open spec fn scalar_in_field(s: Seq<u8>) -> bool {
    s.len() == BYTES_PER_FIELD_ELEMENT && bytes_lt(s, bls_modulus_bytes())
}

/// The all-zero scalar.
pub open spec fn zero_scalar_bytes() -> Seq<u8> {
    Seq::new(BYTES_PER_FIELD_ELEMENT as nat, |i: int| 0u8)
}

pub proof fn lemma_zero_scalar_in_field()
    ensures
        scalar_in_field(zero_scalar_bytes()),
{
    reveal_with_fuel(bytes_lt, 2);
    assert(zero_scalar_bytes()[0] == 0u8);
    assert(bls_modulus_bytes()[0] == 0x73u8);
}

/// The modulus bytes as a vector.
fn bls_modulus_vec() -> (v: Vec<u8>)
    ensures
        v@ == bls_modulus_bytes(),
{
    let v: Vec<u8> = vec![
        0x73u8, 0xedu8, 0xa7u8, 0x53u8, 0x29u8, 0x9du8, 0x7du8, 0x48u8,
        0x33u8, 0x39u8, 0xd8u8, 0x08u8, 0x09u8, 0xa1u8, 0xd8u8, 0x05u8,
        0x53u8, 0xbdu8, 0xa4u8, 0x02u8, 0xffu8, 0xfeu8, 0x5bu8, 0xfeu8,
        0xffu8, 0xffu8, 0xffu8, 0xffu8, 0x00u8, 0x00u8, 0x00u8, 0x01u8,
    ];
    assert(v@ =~= bls_modulus_bytes());
    v
}

/// Decides whether 32 bytes hold an in-field big-endian scalar.
pub fn check_scalar_in_field(s: &[u8]) -> (r: bool)
    ensures
        r == scalar_in_field(s@),
{
    if s.len() != 32 {
        return false;
    }
    let m = bls_modulus_vec();
    let mut i: usize = 0;
    assert(s@.skip(0) =~= s@);
    assert(m@.skip(0) =~= m@);
    loop
        invariant
            0 <= i <= 32,
            s@.len() == 32,
            m@ == bls_modulus_bytes(),
            bytes_lt(s@, m@) == bytes_lt(s@.skip(i as int), m@.skip(i as int)),
        decreases 32 - i,
    {
        if i == 32 {
            return false;
        }
        assert(s@.skip(i as int)[0] == s@[i as int]);
        assert(m@.skip(i as int)[0] == m@[i as int]);
        if s[i] < m[i] {
            return true;
        }
        if s[i] > m[i] {
            return false;
        }
        assert(s@.skip(i as int).skip(1) =~= s@.skip(i as int + 1));
        assert(m@.skip(i as int).skip(1) =~= m@.skip(i as int + 1));
        i = i + 1;
    }
}

/// One scalar of the BLS12-381 field, held as its canonical bytes.
#[derive(Debug)]
pub struct BlsScalar {
    pub bytes: Vec<u8>,
}

impl Clone for BlsScalar {
    fn clone(&self) -> (r: Self)
        ensures
            r@ == self@,
    {
        BlsScalar { bytes: self.to_bytes() }
    }
}

impl View for BlsScalar {
    type V = Seq<u8>;

    open spec fn view(&self) -> Seq<u8> {
        self.bytes@
    }
}

impl BlsScalar {
    /// Structurally well-formed: exactly 32 bytes.
    pub open spec fn wf(&self) -> bool {
        self@.len() == BYTES_PER_FIELD_ELEMENT
    }

    /// Well-formed and canonical.
    pub open spec fn in_field(&self) -> bool {
        scalar_in_field(self@)
    }

    /// The zero scalar.
    pub fn zero() -> (r: BlsScalar)
        ensures
            r@ == zero_scalar_bytes(),
            r.in_field(),
    {
        let mut bytes: Vec<u8> = Vec::new();
        for i in 0..32usize
            invariant
                bytes@ =~= zero_scalar_bytes().take(i as int),
        {
            bytes.push(0u8);
            assert(bytes@ =~= zero_scalar_bytes().take(i as int + 1));
        }
        assert(bytes@ =~= zero_scalar_bytes());
        proof {
            lemma_zero_scalar_in_field();
        }
        BlsScalar { bytes }
    }

    /// Accepts exactly 32 canonical bytes.
    pub fn try_from_bytes(bytes: &[u8]) -> (r: Result<BlsScalar, String>)
        ensures
            r is Ok <==> scalar_in_field(bytes@),
            r matches Ok(s) ==> s@ == bytes@ && s.in_field(),
    {
        if check_scalar_in_field(bytes) {
            let mut out: Vec<u8> = Vec::new();
            crate::codec::encode_raw(&mut out, bytes);
            Ok(BlsScalar { bytes: out })
        } else {
            Err("scalar bytes are not a canonical field element".to_string())
        }
    }

    /// The canonical bytes of the scalar.
    pub fn to_bytes(&self) -> (r: Vec<u8>)
        ensures
            r@ == self@,
    {
        let mut out: Vec<u8> = Vec::new();
        crate::codec::encode_raw(&mut out, self.bytes.as_slice());
        out
    }

    /// Builds a scalar from at most 31 bytes, left-padded with zeroes;
    /// such a value is always below the modulus.
    pub fn from_safe_bytes(value: &[u8]) -> (r: BlsScalar)
        requires
            value@.len() <= 31,
        ensures
            r.in_field(),
            r@ == Seq::new((32 - value@.len()) as nat, |i: int| 0u8) + value@,
    {
        let pad: usize = 32 - value.len();
        let mut bytes: Vec<u8> = Vec::new();
        for i in 0..pad
            invariant
                pad == 32 - value@.len(),
                bytes@ =~= Seq::new(i as nat, |j: int| 0u8),
        {
            bytes.push(0u8);
            assert(bytes@ =~= Seq::new(i as nat + 1, |j: int| 0u8));
        }
        crate::codec::encode_raw(&mut bytes, value);
        proof {
            lemma_zero_scalar_in_field();
            assert(bytes@[0] == 0u8);
            assert(bls_modulus_bytes()[0] == 0x73u8);
            reveal_with_fuel(bytes_lt, 2);
        }
        BlsScalar { bytes }
    }
}

/// A KZG commitment: 48 bytes of a compressed G1 point.
#[derive(Debug)]
pub struct KZGCommitment {
    pub bytes: Vec<u8>,
}

impl View for KZGCommitment {
    type V = Seq<u8>;

    open spec fn view(&self) -> Seq<u8> {
        self.bytes@
    }
}

impl KZGCommitment {
    pub open spec fn wf(&self) -> bool {
        self@.len() == BYTES_PER_G1_POINT
    }

    pub fn try_from_bytes(bytes: &[u8]) -> (r: Result<KZGCommitment, String>)
        ensures
            r is Ok <==> bytes@.len() == BYTES_PER_G1_POINT,
            r matches Ok(c) ==> c@ == bytes@ && c.wf(),
    {
        if bytes.len() == 48 {
            let mut out: Vec<u8> = Vec::new();
            crate::codec::encode_raw(&mut out, bytes);
            Ok(KZGCommitment { bytes: out })
        } else {
            Err("a commitment holds exactly 48 bytes".to_string())
        }
    }

    pub fn to_bytes(&self) -> (r: Vec<u8>)
        ensures
            r@ == self@,
    {
        let mut out: Vec<u8> = Vec::new();
        crate::codec::encode_raw(&mut out, self.bytes.as_slice());
        out
    }
}

impl Clone for KZGCommitment {
    fn clone(&self) -> (r: Self)
        ensures
            r@ == self@,
    {
        KZGCommitment { bytes: self.to_bytes() }
    }
}

/// A KZG opening proof: 48 bytes of a compressed G1 point.
#[derive(Debug)]
pub struct KZGProof {
    pub bytes: Vec<u8>,
}

impl View for KZGProof {
    type V = Seq<u8>;

    open spec fn view(&self) -> Seq<u8> {
        self.bytes@
    }
}

impl KZGProof {
    pub open spec fn wf(&self) -> bool {
        self@.len() == BYTES_PER_G1_POINT
    }

    pub fn try_from_bytes(bytes: &[u8]) -> (r: Result<KZGProof, String>)
        ensures
            r is Ok <==> bytes@.len() == BYTES_PER_G1_POINT,
            r matches Ok(p) ==> p@ == bytes@ && p.wf(),
    {
        if bytes.len() == 48 {
            let mut out: Vec<u8> = Vec::new();
            crate::codec::encode_raw(&mut out, bytes);
            Ok(KZGProof { bytes: out })
        } else {
            Err("a proof holds exactly 48 bytes".to_string())
        }
    }

    pub fn to_bytes(&self) -> (r: Vec<u8>)
        ensures
            r@ == self@,
    {
        let mut out: Vec<u8> = Vec::new();
        crate::codec::encode_raw(&mut out, self.bytes.as_slice());
        out
    }
}

impl Clone for KZGProof {
    fn clone(&self) -> (r: Self)
        ensures
            r@ == self@,
    {
        KZGProof { bytes: self.to_bytes() }
    }
}

/// An unsigned position inside the segment grid: `y` selects the row
/// (one blob and its commitment), `x` the column.
#[derive(Debug, Clone, Copy, PartialEq, Eq, Structural)]
pub struct Position {
    pub x: u32,
    pub y: u32,
}

/// One scalar cell of a blob together with its position.
#[derive(Debug)]
pub struct Cell {
    pub data: BlsScalar,
    pub position: Position,
}

impl Clone for Cell {
    fn clone(&self) -> (r: Self)
        ensures
            r.data@ == self.data@ && r.position == self.position,
    {
        Cell { data: self.data.clone(), position: self.position }
    }
}

/// In-field scalar at every 32-byte lane of `s`.
pub open spec fn all_lanes_in_field(s: Seq<u8>) -> bool {
    forall|i: int|
        0 <= i < s.len() / 32 ==> scalar_in_field(#[trigger] s.subrange(32 * i, 32 * i + 32))
}

/// Instantiates lane canonicity at one index.
pub proof fn lemma_lane_in_field(s: Seq<u8>, i: int)
    requires
        all_lanes_in_field(s),
        0 <= i < s.len() / 32,
    ensures
        scalar_in_field(s.subrange(32 * i, 32 * i + 32)),
{
}

/// One bad lane refutes lane canonicity of the whole.
pub proof fn lemma_lane_not_in_field(s: Seq<u8>, i: int)
    requires
        0 <= i < s.len() / 32,
        !scalar_in_field(s.subrange(32 * i, 32 * i + 32)),
    ensures
        !all_lanes_in_field(s),
{
}

/// One blob: `FIELD_ELEMENTS_PER_BLOB` canonical scalars, held as one
/// contiguous byte string in the backend's evaluation order.
#[derive(Debug)]
pub struct Blob {
    pub bytes: Vec<u8>,
}

impl View for Blob {
    type V = Seq<u8>;

    open spec fn view(&self) -> Seq<u8> {
        self.bytes@
    }
}

impl Clone for Blob {
    fn clone(&self) -> (r: Self)
        ensures
            r@ == self@,
    {
        Blob { bytes: self.to_bytes() }
    }
}

/// Checks every 32-byte lane of `bytes` for canonicity.
fn check_lanes(bytes: &[u8]) -> (r: bool)
    requires
        bytes@.len() % 32 == 0,
    ensures
        r == all_lanes_in_field(bytes@),
{
    let len = bytes.len();
    let n = len / 32;
    for i in 0..n
        invariant
            len == bytes@.len(),
            n == len / 32,
            len % 32 == 0,
            forall|j: int|
                0 <= j < i ==> scalar_in_field(#[trigger] bytes@.subrange(32 * j, 32 * j + 32)),
    {
        assert(32 * i + 32 <= len);
        let lane = vstd::slice::slice_subrange(bytes, 32 * i, 32 * i + 32);
        if !check_scalar_in_field(lane) {
            return false;
        }
    }
    true
}

impl Blob {
    /// Exactly `FIELD_ELEMENTS_PER_BLOB` canonical scalars.
    pub open spec fn wf(&self) -> bool {
        &&& self@.len() == BYTES_PER_BLOB
        &&& all_lanes_in_field(self@)
    }

    /// Scalar lane `i` of the blob.
    pub open spec fn lane(&self, i: int) -> Seq<u8> {
        self@.subrange(32 * i, 32 * i + 32)
    }

    /// Accepts exactly `BYTES_PER_BLOB` bytes whose every lane is a
    /// canonical scalar; the blob then holds exactly those bytes.
    pub fn try_from_bytes(bytes: &[u8]) -> (r: Result<Blob, String>)
        ensures
            r is Ok <==> bytes@.len() == BYTES_PER_BLOB && all_lanes_in_field(bytes@),
            r matches Ok(b) ==> b@ == bytes@ && b.wf(),
    {
        if bytes.len() != BYTES_PER_BLOB {
            return Err("blob bytes must have exactly the full blob length".to_string());
        }
        if !check_lanes(bytes) {
            return Err("blob holds a non-canonical scalar".to_string());
        }
        let mut out: Vec<u8> = Vec::new();
        crate::codec::encode_raw(&mut out, bytes);
        Ok(Blob { bytes: out })
    }

    /// Accepts up to `BYTES_PER_BLOB` bytes, a whole number of scalar
    /// lanes, and zero-pads to the full blob length.
    pub fn try_from_bytes_pad(bytes: &[u8]) -> (r: Result<Blob, String>)
        ensures
            r is Ok <==> bytes@.len() <= BYTES_PER_BLOB && bytes@.len() % 32 == 0
                && all_lanes_in_field(bytes@),
            r matches Ok(b) ==> b.wf() && b@ == bytes@ + Seq::new(
                (BYTES_PER_BLOB - bytes@.len()) as nat,
                |i: int| 0u8,
            ),
    {
        if bytes.len() > BYTES_PER_BLOB {
            return Err("blob bytes exceed the full blob length".to_string());
        }
        if bytes.len() % 32 != 0 {
            return Err("blob bytes must be a whole number of scalars".to_string());
        }
        if !check_lanes(bytes) {
            return Err("blob holds a non-canonical scalar".to_string());
        }
        let mut out: Vec<u8> = Vec::new();
        crate::codec::encode_raw(&mut out, bytes);
        let pad = BYTES_PER_BLOB - bytes.len();
        for i in 0..pad
            invariant
                pad == BYTES_PER_BLOB - bytes@.len(),
                out@ =~= bytes@ + Seq::new(i as nat, |j: int| 0u8),
        {
            out.push(0u8);
            assert(out@ =~= bytes@ + Seq::new(i as nat + 1, |j: int| 0u8));
        }
        let b = Blob { bytes: out };
        proof {
            lemma_zero_scalar_in_field();
            assert forall|i: int| 0 <= i < BYTES_PER_BLOB / 32 implies scalar_in_field(
                #[trigger] b@.subrange(32 * i, 32 * i + 32),
            ) by {
                if 32 * i + 32 <= bytes@.len() {
                    assert(b@.subrange(32 * i, 32 * i + 32) =~= bytes@.subrange(
                        32 * i,
                        32 * i + 32,
                    ));
                } else {
                    assert(b@.subrange(32 * i, 32 * i + 32) =~= zero_scalar_bytes());
                }
            }
        }
        Ok(b)
    }

    /// The blob's bytes.
    pub fn to_bytes(&self) -> (r: Vec<u8>)
        ensures
            r@ == self@,
    {
        let mut out: Vec<u8> = Vec::new();
        crate::codec::encode_raw(&mut out, self.bytes.as_slice());
        out
    }

    /// Commits to the blob under the given trusted setup; a
    /// well-formed blob always commits.
    pub fn commit(&self, kzg: &KZG) -> (r: Result<KZGCommitment, String>)
        requires
            self.wf(),
        ensures
            r is Ok,
            r matches Ok(c) ==> c.wf(),
    {
        match commit_blob_raw(&kzg.ks, self.bytes.as_slice()) {
            Ok(bytes) => Ok(KZGCommitment { bytes }),
            Err(e) => Err(e),
        }
    }
}

/// A polynomial in coefficient form; at least one coefficient.
#[derive(Debug)]
pub struct Polynomial {
    pub coeffs: Vec<BlsScalar>,
}

/// Length of a coefficient sequence once trailing zero coefficients are
/// trimmed, never below one.
pub open spec fn spec_norm_len(s: Seq<BlsScalar>) -> int
    decreases s.len(),
{
    if s.len() <= 1 {
        s.len() as int
    } else if s.last()@ == zero_scalar_bytes() {
        spec_norm_len(s.drop_last())
    } else {
        s.len() as int
    }
}

/// Decides whether a scalar is zero.
pub fn scalar_is_zero(s: &BlsScalar) -> (r: bool)
    ensures
        r == (s@ == zero_scalar_bytes()),
{
    let n = s.bytes.len();
    if n != 32 {
        proof {
            assert(zero_scalar_bytes().len() == 32);
        }
        return false;
    }
    for i in 0..n
        invariant
            n == s@.len() == 32,
            forall|j: int| 0 <= j < i ==> s@[j] == 0u8,
    {
        if s.bytes[i] != 0u8 {
            assert(s@[i as int] != 0u8);
            assert(s@ != zero_scalar_bytes());
            return false;
        }
    }
    assert(s@ =~= zero_scalar_bytes());
    true
}

impl Polynomial {
    /// At least one coefficient.
    pub open spec fn wf(&self) -> bool {
        self.coeffs@.len() >= 1
    }

    /// A zero polynomial of `size` coefficients.
    pub fn new(size: usize) -> (r: Polynomial)
        requires
            size >= 1,
        ensures
            r.coeffs@.len() == size,
            forall|i: int| 0 <= i < size ==> #[trigger] r.coeffs@[i]@ == zero_scalar_bytes(),
            r.wf(),
    {
        let mut coeffs: Vec<BlsScalar> = Vec::new();
        for i in 0..size
            invariant
                coeffs@.len() == i,
                forall|j: int| 0 <= j < i ==> #[trigger] coeffs@[j]@ == zero_scalar_bytes(),
        {
            coeffs.push(BlsScalar::zero());
        }
        Polynomial { coeffs }
    }

    /// Trims trailing zero coefficients while keeping at least one.
    pub fn normalize(&mut self)
        requires
            old(self).wf(),
        ensures
            final(self).coeffs@ == old(self).coeffs@.take(spec_norm_len(old(self).coeffs@)),
            final(self).wf(),
    {
        let ghost s = self.coeffs@;
        let mut k = self.coeffs.len();
        assert(s.take(k as int) =~= s);
        loop
            invariant
                1 <= k <= s.len(),
                s == self.coeffs@,
                spec_norm_len(s) == spec_norm_len(s.take(k as int)),
            ensures
                spec_norm_len(s) == k,
            decreases k,
        {
            if k <= 1 {
                break;
            }
            if !scalar_is_zero(&self.coeffs[k - 1]) {
                assert(s.take(k as int).last() == s[k as int - 1]);
                break;
            }
            assert(s.take(k as int).last()@ == zero_scalar_bytes());
            assert(s.take(k as int).drop_last() =~= s.take(k as int - 1));
            k = k - 1;
        }
        self.coeffs.truncate(k);
        assert(self.coeffs@ == s.subrange(0, k as int));
        assert(s.subrange(0, k as int) =~= s.take(k as int));
    }

    /// The coefficients as scalars.
    pub fn to_bls_scalars(&self) -> (r: &Vec<BlsScalar>)
        ensures
            r == &self.coeffs,
    {
        &self.coeffs
    }
}

// ---------------------------------------------------------------------
// Trusted boundary: the `c-kzg` backend.
// ---------------------------------------------------------------------

#[verifier::external_type_specification]
#[verifier::external_body]
pub struct ExKzgSettings(c_kzg::KzgSettings);

/// The 128 cells of the twice-extended blob, in the backend's
/// bit-reversed evaluation order, as byte strings of 64 scalars each.
/// The cells are a function of the blob alone: they are evaluations of
/// the blob's polynomial, and the roots of unity at which they are taken
/// are fixed by the field, not by the trusted setup.
pub uninterp spec fn cells_of(blob: Seq<u8>) -> Seq<Seq<u8>>;

/// Relies on c_kzg::ethereum_kzg_settings_arc: the trusted setup that
/// ships embedded in the backend.
#[verifier::external_body]
fn embedded_settings() -> Arc<c_kzg::KzgSettings> {
    c_kzg::ethereum_kzg_settings_arc(0)
}

/// Whether three point-byte arrays form a loadable trusted setup:
/// the right counts of well-formed, pairing-consistent points.  A
/// function of the bytes alone; allocation failure is left aside.
pub uninterp spec fn settings_bytes_ok(
    g1_monomial: Seq<u8>,
    g1_lagrange: Seq<u8>,
    g2_monomial: Seq<u8>,
) -> bool;

/// Relies on c_kzg::KzgSettings::load_trusted_setup: builds a setup from
/// monomial G1, Lagrange G1 and monomial G2 point bytes; it succeeds
/// exactly on loadable setups, and checks the point counts itself.
#[verifier::external_body]
fn load_settings_raw(g1_monomial: &[u8], g1_lagrange: &[u8], g2_monomial: &[u8]) -> (r: Result<
    c_kzg::KzgSettings,
    String,
>)
    ensures
        r is Ok <==> settings_bytes_ok(g1_monomial@, g1_lagrange@, g2_monomial@),
        !(g1_monomial@.len() == 48 * FIELD_ELEMENTS_PER_BLOB && g1_lagrange@.len() == 48
            * FIELD_ELEMENTS_PER_BLOB && g2_monomial@.len() == 96 * 65) ==> r is Err,
{
    c_kzg::KzgSettings::load_trusted_setup(g1_monomial, g1_lagrange, g2_monomial, 0).map_err(
        |e| e.to_string(),
    )
}

/// Relies on c_kzg::KzgSettings::blob_to_kzg_commitment: the KZG
/// commitment to the blob's polynomial, a 48-byte compressed G1 point.
/// A canonical blob always commits; allocation failure is left aside.
#[verifier::external_body]
fn commit_blob_raw(ks: &Arc<c_kzg::KzgSettings>, blob_bytes: &[u8]) -> (r: Result<Vec<u8>, String>)
    requires
        blob_bytes@.len() == BYTES_PER_BLOB,
    ensures
        r matches Ok(c) ==> c@.len() == BYTES_PER_G1_POINT,
        all_lanes_in_field(blob_bytes@) ==> r is Ok,
{
    let blob = c_kzg::Blob::from_bytes(blob_bytes).map_err(|e| e.to_string())?;
    let c = ks.blob_to_kzg_commitment(&blob).map_err(|e| e.to_string())?;
    Ok(c.to_bytes().into_inner().to_vec())
}

/// Relies on c_kzg::KzgSettings::compute_cells_and_kzg_proofs: the cells
/// of the extended blob and one multi-opening proof per cell.  Per the
/// backend's cell layout the first 64 cells carry the blob's own bytes:
/// in bit-reversed evaluation order over the doubled domain, the
/// even-indexed (original) evaluation points sort into the first half,
/// in the blob's own bit-reversed order.
#[verifier::external_body]
pub(crate) fn compute_cells_raw(ks: &Arc<c_kzg::KzgSettings>, blob_bytes: &[u8]) -> (r: Result<
    (Vec<Vec<u8>>, Vec<Vec<u8>>),
    String,
>)
    requires
        blob_bytes@.len() == BYTES_PER_BLOB,
    ensures
        r matches Ok(p) ==> ({
            &&& p.0@.map_values(|c: Vec<u8>| c@) == cells_of(blob_bytes@)
            &&& p.0@.len() == crate::CHUNK_COUNT
            &&& (forall|i: int|
                0 <= i < crate::CHUNK_COUNT ==> (#[trigger] p.0@[i])@.len()
                    == crate::BYTES_PER_SEGMENT)
            &&& (forall|i: int|
                0 <= i < crate::CHUNK_COUNT / 2 ==> (#[trigger] p.0@[i])@ == blob_bytes@.subrange(
                    crate::BYTES_PER_SEGMENT * i,
                    crate::BYTES_PER_SEGMENT * (i + 1),
                ))
            &&& p.1@.len() == crate::CHUNK_COUNT
            &&& (forall|i: int|
                0 <= i < crate::CHUNK_COUNT ==> (#[trigger] p.1@[i])@.len() == BYTES_PER_G1_POINT)
        }),
        all_lanes_in_field(blob_bytes@) ==> r is Ok,
{
    let blob = c_kzg::Blob::from_bytes(blob_bytes).map_err(|e| e.to_string())?;
    let (cells, proofs) = ks.compute_cells_and_kzg_proofs(&blob).map_err(|e| e.to_string())?;
    Ok((
        cells.iter().map(|c| c.to_bytes().to_vec()).collect(),
        proofs.iter().map(|p| p.to_bytes().into_inner().to_vec()).collect(),
    ))
}

/// Half or more of an extension's cells, at strictly ascending
/// in-range indices, all agreeing with the extension of the blob `b`.
pub open spec fn cells_consistent_with(b: Seq<u8>, idxs: Seq<u64>, cells: Seq<Seq<u8>>) -> bool {
    &&& b.len() == BYTES_PER_BLOB
    &&& cells_of(b).len() == crate::CHUNK_COUNT
    &&& (forall|i: int|
        0 <= i < crate::CHUNK_COUNT ==> (#[trigger] cells_of(b)[i]).len()
            == crate::BYTES_PER_SEGMENT)
    &&& idxs.len() == cells.len()
    &&& idxs.len() >= crate::CHUNK_COUNT / 2
    &&& (forall|i: int, j: int|
        0 <= i < j < idxs.len() ==> (#[trigger] idxs[i]) < (#[trigger] idxs[j]))
    &&& (forall|i: int|
        0 <= i < idxs.len() ==> (#[trigger] idxs[i]) < crate::CHUNK_COUNT && cells[i] == cells_of(
            b,
        )[idxs[i] as int])
}

/// Relies on c_kzg::KzgSettings::recover_cells_and_kzg_proofs: rebuilds
/// all 128 cells of an extended blob from any half or more of them.
/// Like the cells themselves, recovery is a function of the given
/// cells and indices alone: the roots of unity it interpolates over
/// are fixed by the field, not the loaded setup.  The backend demands
/// the indices in strictly ascending order; given so, in range and
/// covering at least half the extension, cells agreeing with the
/// extension of some blob always recover exactly that extension;
/// allocation failure is left aside.
#[verifier::external_body]
pub(crate) fn recover_cells_raw(
    ks: &Arc<c_kzg::KzgSettings>,
    cell_indices: &Vec<u64>,
    cells: &Vec<Vec<u8>>,
) -> (r: Result<Vec<Vec<u8>>, String>)
    requires
        cell_indices@.len() == cells@.len(),
        forall|i: int|
            0 <= i < cells@.len() ==> (#[trigger] cells@[i])@.len() == crate::BYTES_PER_SEGMENT,
    ensures
        r matches Ok(rec) ==> ({
            &&& rec@.len() == crate::CHUNK_COUNT
            &&& (forall|i: int|
                0 <= i < crate::CHUNK_COUNT ==> (#[trigger] rec@[i])@.len()
                    == crate::BYTES_PER_SEGMENT)
        }),
        r is Ok || (forall|b: Seq<u8>|
            #![trigger cells_of(b)]
            !cells_consistent_with(b, cell_indices@, cells@.map_values(|c: Vec<u8>| c@))),
        r matches Ok(rec) ==> (forall|b: Seq<u8>|
            #![trigger cells_of(b)]
            cells_consistent_with(b, cell_indices@, cells@.map_values(|c: Vec<u8>| c@))
                ==> rec@.map_values(|c: Vec<u8>| c@) == cells_of(b)),
{
    let cs: Result<Vec<c_kzg::Cell>, _> =
        cells.iter().map(|c| c_kzg::Cell::from_bytes(c)).collect();
    let cs = cs.map_err(|e| e.to_string())?;
    let (rec, _proofs) =
        ks.recover_cells_and_kzg_proofs(cell_indices, &cs).map_err(|e| e.to_string())?;
    Ok(rec.iter().map(|c| c.to_bytes().to_vec()).collect())
}

/// Relies on c_kzg::KzgSettings::verify_cell_kzg_proof_batch, called
/// with a single cell: checks one cell's multi-opening proof against the
/// commitment of its row.
#[verifier::external_body]
pub(crate) fn verify_cell_raw(
    ks: &Arc<c_kzg::KzgSettings>,
    commitment: &[u8],
    cell_index: u64,
    cell: &[u8],
    proof: &[u8],
) -> (r: Result<bool, String>)
    requires
        commitment@.len() == BYTES_PER_G1_POINT,
        cell@.len() == crate::BYTES_PER_SEGMENT,
        proof@.len() == BYTES_PER_G1_POINT,
{
    let c = c_kzg::Bytes48::from_bytes(commitment).map_err(|e| e.to_string())?;
    let cl = c_kzg::Cell::from_bytes(cell).map_err(|e| e.to_string())?;
    let p = c_kzg::Bytes48::from_bytes(proof).map_err(|e| e.to_string())?;
    ks.verify_cell_kzg_proof_batch(&[c], &[cell_index], &[cl], &[p]).map_err(|e| e.to_string())
}

/// Relies on c_kzg::KzgSettings::compute_kzg_proof: an opening proof of
/// the blob's polynomial at the point `z`, together with the claimed
/// evaluation, which is returned as a canonical scalar.
#[verifier::external_body]
fn compute_proof_raw(ks: &Arc<c_kzg::KzgSettings>, blob_bytes: &[u8], z: &[u8]) -> (r: Result<
    (Vec<u8>, Vec<u8>),
    String,
>)
    requires
        blob_bytes@.len() == BYTES_PER_BLOB,
        z@.len() == crate::BYTES_PER_FIELD_ELEMENT,
    ensures
        r matches Ok(p) ==> p.0@.len() == BYTES_PER_G1_POINT && scalar_in_field(p.1@),
        (all_lanes_in_field(blob_bytes@) && scalar_in_field(z@)) ==> r is Ok,
{
    let blob = c_kzg::Blob::from_bytes(blob_bytes).map_err(|e| e.to_string())?;
    let zb = c_kzg::Bytes32::from_bytes(z).map_err(|e| e.to_string())?;
    let (proof, y) = ks.compute_kzg_proof(&blob, &zb).map_err(|e| e.to_string())?;
    Ok((proof.to_bytes().into_inner().to_vec(), y.as_ref().to_vec()))
}

/// Relies on c_kzg::KzgSettings::verify_kzg_proof: checks a single
/// opening of the committed polynomial at point `z` with value `y`.
#[verifier::external_body]
fn verify_proof_raw(
    ks: &Arc<c_kzg::KzgSettings>,
    commitment: &[u8],
    z: &[u8],
    y: &[u8],
    proof: &[u8],
) -> (r: Result<bool, String>)
    requires
        commitment@.len() == BYTES_PER_G1_POINT,
        z@.len() == crate::BYTES_PER_FIELD_ELEMENT,
        y@.len() == crate::BYTES_PER_FIELD_ELEMENT,
        proof@.len() == BYTES_PER_G1_POINT,
{
    let c = c_kzg::Bytes48::from_bytes(commitment).map_err(|e| e.to_string())?;
    let zb = c_kzg::Bytes32::from_bytes(z).map_err(|e| e.to_string())?;
    let yb = c_kzg::Bytes32::from_bytes(y).map_err(|e| e.to_string())?;
    let p = c_kzg::Bytes48::from_bytes(proof).map_err(|e| e.to_string())?;
    ks.verify_kzg_proof(&c, &zb, &yb, &p).map_err(|e| e.to_string())
}

/// Relies on c_kzg::KzgSettings::compute_blob_kzg_proof: a proof that
/// the whole blob matches the commitment.
#[verifier::external_body]
fn compute_blob_proof_raw(
    ks: &Arc<c_kzg::KzgSettings>,
    blob_bytes: &[u8],
    commitment: &[u8],
) -> (r: Result<Vec<u8>, String>)
    requires
        blob_bytes@.len() == BYTES_PER_BLOB,
        commitment@.len() == BYTES_PER_G1_POINT,
    ensures
        r matches Ok(p) ==> p@.len() == BYTES_PER_G1_POINT,
{
    let blob = c_kzg::Blob::from_bytes(blob_bytes).map_err(|e| e.to_string())?;
    let c = c_kzg::Bytes48::from_bytes(commitment).map_err(|e| e.to_string())?;
    let p = ks.compute_blob_kzg_proof(&blob, &c).map_err(|e| e.to_string())?;
    Ok(p.to_bytes().into_inner().to_vec())
}

/// Relies on c_kzg::KzgSettings::verify_blob_kzg_proof: checks a whole
/// blob against its commitment and blob proof.
#[verifier::external_body]
fn verify_blob_proof_raw(
    ks: &Arc<c_kzg::KzgSettings>,
    blob_bytes: &[u8],
    commitment: &[u8],
    proof: &[u8],
) -> (r: Result<bool, String>)
    requires
        blob_bytes@.len() == BYTES_PER_BLOB,
        commitment@.len() == BYTES_PER_G1_POINT,
        proof@.len() == BYTES_PER_G1_POINT,
{
    let blob = c_kzg::Blob::from_bytes(blob_bytes).map_err(|e| e.to_string())?;
    let c = c_kzg::Bytes48::from_bytes(commitment).map_err(|e| e.to_string())?;
    let p = c_kzg::Bytes48::from_bytes(proof).map_err(|e| e.to_string())?;
    ks.verify_blob_kzg_proof(&blob, &c, &p).map_err(|e| e.to_string())
}

/// Relies on c_kzg::KzgSettings::verify_blob_kzg_proof_batch: checks a
/// batch of blobs against their commitments and blob proofs in one
/// pairing.  The byte-length conversions cannot fail on well-formed
/// inputs, which the preconditions demand.
#[verifier::external_body]
fn verify_blob_batch_raw(
    ks: &Arc<c_kzg::KzgSettings>,
    blobs: &Vec<Blob>,
    commitments: &Vec<KZGCommitment>,
    proofs: &Vec<KZGProof>,
) -> (r: Result<bool, String>)
    requires
        blobs@.len() == commitments@.len() == proofs@.len(),
        forall|i: int| 0 <= i < blobs@.len() ==> (#[trigger] blobs@[i]).wf(),
        forall|i: int| 0 <= i < commitments@.len() ==> (#[trigger] commitments@[i]).wf(),
        forall|i: int| 0 <= i < proofs@.len() ==> (#[trigger] proofs@[i]).wf(),
{
    let bs: Vec<c_kzg::Blob> =
        blobs.iter().map(|b| c_kzg::Blob::from_bytes(&b.bytes).unwrap()).collect();
    let cs: Vec<c_kzg::Bytes48> =
        commitments.iter().map(|c| c_kzg::Bytes48::from_bytes(&c.bytes).unwrap()).collect();
    let ps: Vec<c_kzg::Bytes48> =
        proofs.iter().map(|p| c_kzg::Bytes48::from_bytes(&p.bytes).unwrap()).collect();
    ks.verify_blob_kzg_proof_batch(&bs, &cs, &ps).map_err(|e| e.to_string())
}

// ---------------------------------------------------------------------
// The verified handle around the trusted setup.
// ---------------------------------------------------------------------

/// Handle on a process-wide immutable trusted setup, shared by
/// reference count; the 2 MB payload is never cloned.
pub struct KZG {
    pub ks: Arc<c_kzg::KzgSettings>,
}

impl Clone for KZG {
    fn clone(&self) -> (r: Self)
        ensures
            r.ks == self.ks,
    {
        KZG { ks: Arc::clone(&self.ks) }
    }
}

impl KZG {
    /// Wraps an already-loaded trusted setup.
    pub fn new(kzg_settings: c_kzg::KzgSettings) -> (r: Self) {
        KZG { ks: Arc::new(kzg_settings) }
    }

    /// The setup embedded in the backend.
    pub fn default_embedded() -> (r: Self) {
        KZG { ks: embedded_settings() }
    }

    /// Number of evaluation points of the extended domain.
    pub fn max_width(&self) -> (r: usize)
        ensures
            r == 2 * FIELD_ELEMENTS_PER_BLOB,
    {
        2 * FIELD_ELEMENTS_PER_BLOB
    }

    /// Commits to a blob; same as `Blob::commit`.
    pub fn commit(&self, blob: &Blob) -> (r: Result<KZGCommitment, String>)
        requires
            blob.wf(),
        ensures
            r is Ok,
            r matches Ok(c) ==> c.wf(),
    {
        blob.commit(self)
    }

    /// All multi-opening proofs of the blob's extended cells; a
    /// well-formed blob always yields them.
    pub fn all_proofs(&self, blob: &Blob) -> (r: Result<Vec<KZGProof>, String>)
        requires
            blob.wf(),
        ensures
            r is Ok,
            r matches Ok(ps) ==> ps@.len() == crate::CHUNK_COUNT && forall|i: int|
                0 <= i < ps@.len() ==> (#[trigger] ps@[i]).wf(),
    {
        let (_cells, proof_bytes) = match compute_cells_raw(&self.ks, self.blob_slice(blob)) {
            Ok(p) => p,
            Err(e) => {
                return Err(e);
            },
        };
        let mut proofs: Vec<KZGProof> = Vec::new();
        let n = proof_bytes.len();
        for i in 0..n
            invariant
                n == proof_bytes@.len() == crate::CHUNK_COUNT,
                proofs@.len() == i,
                forall|j: int|
                    0 <= j < proof_bytes@.len() ==> (#[trigger] proof_bytes@[j])@.len()
                        == BYTES_PER_G1_POINT,
                forall|j: int| 0 <= j < i ==> (#[trigger] proofs@[j]).wf(),
        {
            let mut out: Vec<u8> = Vec::new();
            crate::codec::encode_raw(&mut out, proof_bytes[i].as_slice());
            proofs.push(KZGProof { bytes: out });
        }
        Ok(proofs)
    }

    /// Checks the multi-opening proof of one cell of the extended blob.
    /// `i` is the cell's column, `count` the number of cells per
    /// extended blob, and `values` the cell's scalars.
    pub fn check_proof_multi(
        &self,
        commitment: &KZGCommitment,
        i: u32,
        count: usize,
        values: &Vec<u8>,
        proof: &KZGProof,
    ) -> (r: Result<bool, String>)
        requires
            commitment.wf(),
            proof.wf(),
        ensures
            !(i < crate::CHUNK_COUNT && count == crate::CHUNK_COUNT && values@.len()
                == crate::BYTES_PER_SEGMENT) ==> r is Err,
    {
        if !(count == crate::CHUNK_COUNT) {
            return Err("cell count does not match the extended blob".to_string());
        }
        if !((i as usize) < crate::CHUNK_COUNT) {
            return Err("cell column out of range".to_string());
        }
        if values.len() != crate::BYTES_PER_SEGMENT {
            return Err("cell values must hold a full segment".to_string());
        }
        verify_cell_raw(
            &self.ks,
            commitment.bytes.as_slice(),
            i as u64,
            values.as_slice(),
            proof.bytes.as_slice(),
        )
    }

    /// Opens the blob's polynomial at the point `z`; returns the proof
    /// and the evaluation.
    pub fn compute_proof(&self, blob: &Blob, z: &BlsScalar) -> (r: Result<
        (KZGProof, BlsScalar),
        String,
    >)
        requires
            blob.wf(),
            z.wf(),
        ensures
            z.in_field() ==> r is Ok,
            r matches Ok(p) ==> p.0.wf() && p.1.in_field(),
    {
        match compute_proof_raw(&self.ks, self.blob_slice(blob), z.bytes.as_slice()) {
            Ok((proof, y)) => Ok((KZGProof { bytes: proof }, BlsScalar { bytes: y })),
            Err(e) => Err(e),
        }
    }

    /// Checks a single opening `(z, y)` against the commitment.
    pub fn verify(
        &self,
        commitment: &KZGCommitment,
        z: &BlsScalar,
        y: &BlsScalar,
        proof: &KZGProof,
    ) -> (r: Result<bool, String>)
        requires
            commitment.wf(),
            z.wf(),
            y.wf(),
            proof.wf(),
    {
        verify_proof_raw(
            &self.ks,
            commitment.bytes.as_slice(),
            z.bytes.as_slice(),
            y.bytes.as_slice(),
            proof.bytes.as_slice(),
        )
    }

    /// Proof that a whole blob matches its commitment.
    pub fn compute_blob_proof(&self, blob: &Blob, commitment: &KZGCommitment) -> (r: Result<
        KZGProof,
        String,
    >)
        requires
            blob.wf(),
            commitment.wf(),
        ensures
            r matches Ok(p) ==> p.wf(),
    {
        match compute_blob_proof_raw(&self.ks, self.blob_slice(blob), commitment.bytes.as_slice()) {
            Ok(p) => Ok(KZGProof { bytes: p }),
            Err(e) => Err(e),
        }
    }

    /// Checks a whole blob against its commitment and blob proof.
    pub fn verify_blob_proof(
        &self,
        blob: &Blob,
        commitment: &KZGCommitment,
        proof: &KZGProof,
    ) -> (r: Result<bool, String>)
        requires
            blob.wf(),
            commitment.wf(),
            proof.wf(),
    {
        verify_blob_proof_raw(
            &self.ks,
            self.blob_slice(blob),
            commitment.bytes.as_slice(),
            proof.bytes.as_slice(),
        )
    }

    /// Checks a batch of blobs against commitments and blob proofs; the
    /// three lists must pair up, else an error is returned.
    pub fn verify_blobs_proof_batch(
        &self,
        commitments: &Vec<KZGCommitment>,
        proofs: &Vec<KZGProof>,
        blobs: &Vec<Blob>,
    ) -> (r: Result<bool, String>)
        requires
            forall|i: int| 0 <= i < blobs@.len() ==> (#[trigger] blobs@[i]).wf(),
            forall|i: int| 0 <= i < commitments@.len() ==> (#[trigger] commitments@[i]).wf(),
            forall|i: int| 0 <= i < proofs@.len() ==> (#[trigger] proofs@[i]).wf(),
        ensures
            !(blobs@.len() == commitments@.len() && blobs@.len() == proofs@.len()) ==> r is Err,
    {
        if blobs.len() != commitments.len() || blobs.len() != proofs.len() {
            return Err("blobs, commitments and proofs must pair up".to_string());
        }
        verify_blob_batch_raw(&self.ks, blobs, commitments, proofs)
    }

    /// The blob's bytes as a slice; a small verified accessor shared by
    /// the wrapper calls above.
    fn blob_slice<'a>(&self, blob: &'a Blob) -> (r: &'a [u8])
        ensures
            r@ == blob@,
    {
        blob.bytes.as_slice()
    }
}

/// Builds a trusted setup from raw point bytes: `g1_monomial` and
/// `g1_lagrange` hold 4096 48-byte G1 points each, `g2_monomial` holds
/// 65 96-byte G2 points.  It succeeds exactly when the bytes form a
/// loadable setup; wrong lengths are rejected here, the curve checks
/// are the backend's.
pub fn bytes_to_kzg_settings(
    g1_monomial: &[u8],
    g1_lagrange: &[u8],
    g2_monomial: &[u8],
) -> (r: Result<c_kzg::KzgSettings, String>)
    ensures
        r is Ok <==> settings_bytes_ok(g1_monomial@, g1_lagrange@, g2_monomial@),
        !(g1_monomial@.len() == 48 * FIELD_ELEMENTS_PER_BLOB && g1_lagrange@.len() == 48
            * FIELD_ELEMENTS_PER_BLOB && g2_monomial@.len() == 96 * 65) ==> r is Err,
{
    load_settings_raw(g1_monomial, g1_lagrange, g2_monomial)
}

/// The embedded trusted setup, shared by reference count.
pub fn embedded_kzg_settings() -> (r: Arc<c_kzg::KzgSettings>) {
    embedded_settings()
}

pub proof fn lemma_norm_len_bounds(s: Seq<BlsScalar>)
    ensures
        0 <= spec_norm_len(s) <= s.len(),
        s.len() >= 1 ==> spec_norm_len(s) >= 1,
        spec_norm_len(s) < s.len() ==> spec_norm_len(s.drop_last()) == spec_norm_len(s),
    decreases s.len(),
{
    if s.len() > 1 {
        lemma_norm_len_bounds(s.drop_last());
    }
}

} // verus!
