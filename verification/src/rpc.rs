//! The decision core of the blob-submission endpoint.
//!
//! The asynchronous shell around it decodes the extrinsic, asks the
//! runtime for the transaction's blob parameters, submits to the pool
//! and publishes the bytes to the network; everything it decides is
//! decided here: whether the data matches the declared parameters, and
//! what status the caller is told afterwards.  A transaction that was
//! accepted but whose bytes could not be published is a success with an
//! error note, never a hard error: the chain side is already committed.

use vstd::prelude::*;
use crate::farmer::blake2b256_of;
use crate::sidecar::SidecarMetadata;

verus! {

/// Why a blob submission was rejected before reaching the pool.
#[derive(Debug, Clone, Copy, PartialEq, Eq, Structural)]
pub enum DasRpcError {
    DecodingExtrinsicFailed,
    DecodingTransactionMetadataFailed,
    FetchTransactionMetadataFailed,
    InvalidTransactionFormat,
    DataLengthOrHashError,
    TransactionPushFailed,
}

/// The status returned for a submitted blob transaction.
#[derive(Debug)]
pub struct BlobTxSatus {
    pub tx_hash: Vec<u8>,
    pub err: Option<String>,
}

/// Accepts the data exactly when its length and hash match what the
/// transaction declares.
pub fn validate_blob_tx_params(data: &[u8], data_len: u32, data_hash: &[u8]) -> (r: Result<
    (),
    DasRpcError,
>)
    ensures
        r is Ok <==> (data_len == data@.len() && blake2b256_of(data@) == data_hash@),
        r is Err ==> r == Err::<(), DasRpcError>(DasRpcError::DataLengthOrHashError),
{
    if data.len() != data_len as usize {
        return Err(DasRpcError::DataLengthOrHashError);
    }
    let id = SidecarMetadata::calculate_id(data);
    if !crate::store::bytes_eq(id.as_slice(), data_hash) {
        return Err(DasRpcError::DataLengthOrHashError);
    }
    Ok(())
}

/// Builds the response once the transaction is in the pool: a
/// verification failure or a failed network publication is reported in
/// `err` beside the accepted transaction hash.
pub fn build_blob_tx_status(
    tx_hash: &[u8],
    verify_outcome: Result<bool, String>,
    dht_put_ok: bool,
) -> (r: BlobTxSatus)
    ensures
        r.tx_hash@ == tx_hash@,
        ({
            match verify_outcome {
                Ok(true) => {
                    if dht_put_ok {
                        r.err is None
                    } else {
                        r.err matches Some(m) && m@ == "Failed to put data to DHT network."@
                    }
                },
                Ok(false) => r.err matches Some(m) && m@
                    == "Data verification failed. Please check your data and try again."@,
                Err(e) => r.err matches Some(m) && m@ == e@,
            }
        }),
{
    let mut h: Vec<u8> = Vec::new();
    crate::codec::encode_raw(&mut h, tx_hash);
    match verify_outcome {
        Ok(true) => {
            if dht_put_ok {
                BlobTxSatus { tx_hash: h, err: None }
            } else {
                BlobTxSatus { tx_hash: h, err: Some("Failed to put data to DHT network.".to_string()) }
            }
        },
        Ok(false) => BlobTxSatus {
            tx_hash: h,
            err: Some("Data verification failed. Please check your data and try again.".to_string()),
        },
        Err(e) => BlobTxSatus { tx_hash: h, err: Some(e) },
    }
}

} // verus!
