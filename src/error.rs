use vstd::prelude::*;

verus! {

/// The failures a verification request can meet.
#[derive(Debug, Clone, PartialEq, Eq)]
pub enum VerifyError {
    /// The request body was missing a field or was not valid JSON.
    RequestMalformed,
    /// The aggregator kept answering with a non-success status.
    UpstreamUnavailable { status: u16, attempts: u32, body: String },
    /// The decryption stage refused the ciphertext.
    DecryptionFailed,
    /// The plaintext was empty, so no quality score exists.
    ValidationFailed,
    /// Neither the hardware driver nor the software signer produced an attestation.
    AttestationUnavailable,
}

} // verus!
