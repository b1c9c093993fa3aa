//! Verified core of a data-availability layer.
//!
//! Application data is packed into KZG-committed blobs, extended by a factor
//! of two with Reed-Solomon coding, and served as fixed-size segments, each
//! carrying its own multi-opening proof.  Light clients sample random
//! segments and aggregate the outcomes into a confidence value; storage
//! farmers plot historical segments and prove retention by exhibiting pairs
//! of stored cells whose keyed hashes collide.
//!
//! All cryptographic kernels are delegated to the `c-kzg` library behind
//! narrow trusted wrappers; everything around them - byte handling, the
//! wire encoding, the sampling state machine, the plot indices and the
//! claim rules - is verified.

use vstd::prelude::*;

pub mod codec;
pub mod kzg;
pub mod segment;
pub mod store;
pub mod confidence;
pub mod piece;
pub mod farmer;
pub mod claim;
pub mod sidecar;
pub mod rpc;

verus! {

/// Bytes in one canonical scalar of the BLS12-381 scalar field.
pub const BYTES_PER_FIELD_ELEMENT: usize = 32;

/// Scalars in one blob, fixed by the trusted setup of the KZG backend.
pub const FIELD_ELEMENTS_PER_BLOB: usize = 4096;

/// Bytes in one blob.
pub const BYTES_PER_BLOB: usize = 131072;

/// Scalars in one segment (one cell of the extended blob).
pub const SEGMENT_LENGTH: usize = 64;

/// Segments per extended (2x) blob; also the chunk count of the
/// multi-proof openings.
pub const CHUNK_COUNT: usize = 128;

/// Sample positions available per blob on the x axis.
pub const SAMPLES_PER_BLOB: usize = 32;

/// Bytes in one segment.
pub const BYTES_PER_SEGMENT: usize = 2048;

/// Confidence threshold, in parts per million: availability is declared
/// once the confidence value exceeds this fraction.
pub const AVAILABILITY_THRESHOLD_PPM: u32 = 800000;

} // verus!
