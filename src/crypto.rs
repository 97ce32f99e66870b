use vstd::prelude::*;

use base64::Engine;
use ed25519_dalek::Signer;
use sha2::Digest;

verus! {

/// The SHA-256 digest of a byte string.
pub uninterp spec fn sha256_of(data: Seq<u8>) -> Seq<u8>;

/// The Ed25519 public key belonging to a 32-byte secret seed.
pub uninterp spec fn ed25519_public_of(seed: Seq<u8>) -> Seq<u8>;

/// The Ed25519 signature of `message` under the key with the 32-byte secret seed `seed`.
pub uninterp spec fn ed25519_signature_of(seed: Seq<u8>, message: Seq<u8>) -> Seq<u8>;

/// The standard, padded base64 text of a byte string.
pub uninterp spec fn base64_of(data: Seq<u8>) -> Seq<char>;

/// Relies on sha2's `Sha256::digest`: a 32-byte digest that depends on the input alone.
#[verifier::external_body]
pub(crate) fn sha256(data: &[u8]) -> (r: Vec<u8>)
    ensures
        r@ == sha256_of(data@),
        r@.len() == 32,
{
    sha2::Sha256::digest(data).to_vec()
}

/// Relies on ed25519-dalek's `SecretKey::from_bytes`, which refuses exactly the inputs that
/// are not 32 bytes long, and on `PublicKey::from(&SecretKey)`, a 32-byte key.
#[verifier::external_body]
pub(crate) fn ed25519_public_key(seed: &[u8]) -> (r: Option<Vec<u8>>)
    ensures
        r is Some <==> seed@.len() == 32,
        r matches Some(k) ==> k@ == ed25519_public_of(seed@) && k@.len() == 32,
{
    match ed25519_dalek::SecretKey::from_bytes(seed) {
        Ok(secret) => Some(ed25519_dalek::PublicKey::from(&secret).to_bytes().to_vec()),
        Err(_) => None,
    }
}

/// Relies on ed25519-dalek's `SecretKey::from_bytes` (refuses all but 32-byte inputs) and on
/// `Keypair::sign`, which never fails and gives a 64-byte signature.
#[verifier::external_body]
pub(crate) fn ed25519_sign(seed: &[u8], message: &[u8]) -> (r: Option<Vec<u8>>)
    ensures
        r is Some <==> seed@.len() == 32,
        r matches Some(s) ==> s@ == ed25519_signature_of(seed@, message@) && s@.len() == 64,
{
    match ed25519_dalek::SecretKey::from_bytes(seed) {
        Ok(secret) => {
            let public = ed25519_dalek::PublicKey::from(&secret);
            let pair = ed25519_dalek::Keypair { secret, public };
            Some(pair.sign(message).to_bytes().to_vec())
        },
        Err(_) => None,
    }
}

/// Relies on base64's `STANDARD.encode`: padded standard-alphabet text, empty for an empty
/// input. It panics only when the output length overflows `usize`.
#[verifier::external_body]
pub(crate) fn encode_base64(data: &[u8]) -> (r: String)
    requires
        data@.len() <= 0x3fff_ffff_ffff_ffff,
    ensures
        r@ == base64_of(data@),
        data@.len() == 0 ==> r@.len() == 0,
{
    base64::engine::general_purpose::STANDARD.encode(data)
}

} // verus!
