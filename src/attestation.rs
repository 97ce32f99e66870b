use vstd::prelude::*;

use crate::crypto::{
    base64_of,
    ed25519_public_key,
    ed25519_public_of,
    ed25519_sign,
    ed25519_signature_of,
    encode_base64,
    sha256,
    sha256_of,
};
use crate::error::VerifyError;
use vstd::string::StringSliceAdditionalSpecFns;

verus! {

/// Tag of an envelope carrying a hardware attestation document.
pub const FORMAT_NSM: &'static str = "nsm-document-v1";

/// Tag of an envelope carrying an Ed25519 signature.
pub const FORMAT_ED25519: &'static str = "ed25519-v1";

/// Secret text the signing seed is derived from when none is configured.
pub const DEFAULT_SEED_SOURCE: &'static str = "zkdatavault-dev-seed";

/// Number of characters of the placeholder environment measurement.
pub const MEASUREMENT_LEN: usize = 90;

/// The placeholder environment measurement: a string of zero digits.
pub open spec fn measurement_spec() -> Seq<char> {
    Seq::new(MEASUREMENT_LEN as nat, |i: int| '0')
}

/// The payload that is measured or signed.
#[derive(Debug, Clone)]
pub struct AttestationData {
    pub blob_id: String,
    pub quality_score: u8,
    pub timestamp: u64,
    pub enclave_measurement: String,
}

/// A self-describing attestation: the payload with either a hardware document or an
/// Ed25519 signature and public key, all base64 text.
#[derive(Debug, Clone)]
pub struct AttestationEnvelope {
    pub format: String,
    pub data: AttestationData,
    pub signature_b64: Option<String>,
    pub public_key_b64: Option<String>,
    pub nsm_document_b64: Option<String>,
}

/// What one of the two signers produced for a payload.
#[derive(Debug, Clone)]
pub enum SignerOutput {
    /// The enclave driver's attestation document.
    Hardware { document: Vec<u8> },
    /// An Ed25519 signature over the serialized payload, with the public key.
    Software { signature: Vec<u8>, public_key: Vec<u8> },
}

/// The placeholder for the enclave's measurement register.
pub fn get_enclave_measurement() -> (r: String)
    ensures
        r@ == measurement_spec(),
{
    let mut r = String::new();
    let mut i: usize = 0;
    while i < MEASUREMENT_LEN
        invariant
            i <= MEASUREMENT_LEN,
            r@ == Seq::new(i as nat, |j: int| '0'),
        decreases MEASUREMENT_LEN - i,
    {
        r.append("0");
        proof {
            reveal_strlit("0");
        }
        i = i + 1;
        assert(r@ =~= Seq::new(i as nat, |j: int| '0'));
    }
    r
}

impl AttestationData {
    /// The payload for `blob_id` with `quality_score`, stamped at `timestamp` (ms since the
    /// epoch) and carrying the placeholder measurement.
    pub fn new(blob_id: &str, quality_score: u8, timestamp: u64) -> (r: AttestationData)
        ensures
            r.blob_id@ == blob_id@,
            r.quality_score == quality_score,
            r.timestamp == timestamp,
            r.enclave_measurement@ == measurement_spec(),
    {
        AttestationData {
            blob_id: blob_id.to_owned(),
            quality_score,
            timestamp,
            enclave_measurement: get_enclave_measurement(),
        }
    }
}

/// The text whose digest is the signing seed: the configured secret, else the default.
pub open spec fn seed_source_bytes(source: Option<&str>) -> Seq<u8> {
    match source {
        Some(s) => s.spec_bytes(),
        None => DEFAULT_SEED_SOURCE.spec_bytes(),
    }
}

/// The 32-byte signing seed: the SHA-256 digest of the configured secret text.
pub fn signing_seed(source: Option<&str>) -> (r: Vec<u8>)
    ensures
        r@ == sha256_of(seed_source_bytes(source)),
        r@.len() == 32,
{
    match source {
        Some(s) => sha256(s.as_bytes()),
        None => sha256(DEFAULT_SEED_SOURCE.as_bytes()),
    }
}

/// Signs the serialized payload with the key derived from the 32-byte `seed`.
pub fn sign_software(seed: &[u8], message: &[u8]) -> (r: Result<SignerOutput, VerifyError>)
    requires
        seed@.len() == 32,
    ensures
        r matches Ok(SignerOutput::Software { signature, public_key }) && signature@
            == ed25519_signature_of(seed@, message@) && public_key@ == ed25519_public_of(seed@),
{
    match (ed25519_sign(seed, message), ed25519_public_key(seed)) {
        (Some(signature), Some(public_key)) => Ok(SignerOutput::Software { signature, public_key }),
        _ => Err(VerifyError::AttestationUnavailable),
    }
}

/// Wraps a payload and its signer's output into an envelope tagged by the signer's kind.
pub fn build_envelope(data: AttestationData, signer: SignerOutput) -> (r: AttestationEnvelope)
    requires
        match signer {
            SignerOutput::Hardware { document } => document@.len() <= 0x3fff_ffff_ffff_ffff,
            SignerOutput::Software { signature, public_key } => signature@.len()
                <= 0x3fff_ffff_ffff_ffff && public_key@.len() <= 0x3fff_ffff_ffff_ffff,
        },
    ensures
        r.data == data,
        match signer {
            SignerOutput::Hardware { document } => {
                &&& r.format@ == FORMAT_NSM@
                &&& r.nsm_document_b64 matches Some(d) && d@ == base64_of(document@)
                &&& r.signature_b64 is None
                &&& r.public_key_b64 is None
            },
            SignerOutput::Software { signature, public_key } => {
                &&& r.format@ == FORMAT_ED25519@
                &&& r.signature_b64 matches Some(s) && s@ == base64_of(signature@)
                &&& r.public_key_b64 matches Some(k) && k@ == base64_of(public_key@)
                &&& r.nsm_document_b64 is None
            },
        },
{
    match signer {
        SignerOutput::Hardware { document } => AttestationEnvelope {
            format: FORMAT_NSM.to_owned(),
            data,
            signature_b64: None,
            public_key_b64: None,
            nsm_document_b64: Some(encode_base64(&document)),
        },
        SignerOutput::Software { signature, public_key } => AttestationEnvelope {
            format: FORMAT_ED25519.to_owned(),
            data,
            signature_b64: Some(encode_base64(&signature)),
            public_key_b64: Some(encode_base64(&public_key)),
            nsm_document_b64: None,
        },
    }
}

} // verus!
