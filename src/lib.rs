//! Verification pipeline for remotely stored data blobs: retrieval policy,
//! quality scoring, attestation envelopes and response assembly.

pub mod attestation;
pub mod crypto;
pub mod error;
pub mod pipeline;
pub mod quality;
pub mod retrieval;
