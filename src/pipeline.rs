use vstd::prelude::*;

use crate::crypto::{base64_of, encode_base64};
use crate::error::VerifyError;

verus! {

/// The byte the placeholder decryption XORs every byte with.
pub const PLACEHOLDER_KEY: u8 = 0xAA;

/// The outcome of one verification request.
#[derive(Debug, Clone)]
pub struct VerificationResponse {
    pub blob_id: String,
    pub quality_score: u8,
    pub is_valid: bool,
    /// Base64 text of the serialized attestation envelope; empty when attestation failed.
    pub attestation: String,
    pub timestamp_ms: u64,
    pub nitro_enclave: bool,
}

/// Placeholder decryption: XORs each byte with a fixed key. It never fails, and applying it
/// twice gives the input back.
pub fn decrypt_placeholder(ciphertext: &[u8]) -> (r: Result<Vec<u8>, VerifyError>)
    ensures
        r matches Ok(p) && p@.len() == ciphertext@.len() && forall|i: int|
            0 <= i < ciphertext@.len() ==> #[trigger] p@[i] == ciphertext@[i] ^ PLACEHOLDER_KEY,
{
    let mut out: Vec<u8> = Vec::new();
    let mut i: usize = 0;
    while i < ciphertext.len()
        invariant
            i <= ciphertext@.len(),
            out@.len() == i,
            forall|j: int| 0 <= j < i ==> #[trigger] out@[j] == ciphertext@[j] ^ PLACEHOLDER_KEY,
        decreases ciphertext@.len() - i,
    {
        out.push(ciphertext[i] ^ PLACEHOLDER_KEY);
        i = i + 1;
    }
    Ok(out)
}

/// Assembles the response. A failed attestation leaves the attestation field empty and
/// does not fail the request.
pub fn assemble_response(
    blob_id: String,
    quality_score: u8,
    min_quality_threshold: u8,
    attestation: Result<Vec<u8>, VerifyError>,
    timestamp_ms: u64,
    nitro_enclave: bool,
) -> (r: VerificationResponse)
    requires
        attestation matches Ok(b) ==> b@.len() <= 0x3fff_ffff_ffff_ffff,
    ensures
        r.blob_id@ == blob_id@,
        r.quality_score == quality_score,
        r.is_valid == (quality_score >= min_quality_threshold),
        attestation matches Ok(b) ==> r.attestation@ == base64_of(b@),
        attestation is Err ==> r.attestation@.len() == 0,
        r.timestamp_ms == timestamp_ms,
        r.nitro_enclave == nitro_enclave,
{
    let encoded = match attestation {
        Ok(bytes) => encode_base64(&bytes),
        Err(_) => String::new(),
    };
    VerificationResponse {
        blob_id,
        quality_score,
        is_valid: quality_score >= min_quality_threshold,
        attestation: encoded,
        timestamp_ms,
        nitro_enclave,
    }
}

} // verus!
