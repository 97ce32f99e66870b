use base64::Engine;
use ed25519_dalek::Verifier;
use nautilus::attestation::{
    build_envelope, get_enclave_measurement, sign_software, signing_seed, AttestationData,
    SignerOutput, DEFAULT_SEED_SOURCE, FORMAT_ED25519, FORMAT_NSM,
};

fn hex(bytes: &[u8]) -> String {
    bytes.iter().map(|b| format!("{:02x}", b)).collect()
}

#[test]
fn measurement_placeholder() {
    let m = get_enclave_measurement();
    assert_eq!(m.len(), 90);
    assert!(m.chars().all(|c| c == '0'));
}

#[test]
fn payload_keeps_its_fields() {
    let d = AttestationData::new("blob-7", 42, 1_700_000_000_123);
    assert_eq!(d.blob_id, "blob-7");
    assert_eq!(d.quality_score, 42);
    assert_eq!(d.timestamp, 1_700_000_000_123);
    assert_eq!(d.enclave_measurement, get_enclave_measurement());
}

#[test]
fn seed_is_sha256_of_source() {
    assert_eq!(
        hex(&signing_seed(Some(""))),
        "e3b0c44298fc1c149afbf4c8996fb92427ae41e4649b934ca495991b7852b855"
    );
    assert_eq!(
        hex(&signing_seed(None)),
        "dc36d5221111c4548592c9691ca60da5272760009e6f185443585875c04fe5f1"
    );
    assert_eq!(signing_seed(None), signing_seed(Some(DEFAULT_SEED_SOURCE)));
}

#[test]
fn software_signature_verifies() {
    let seed = signing_seed(None);
    let message = b"{\"blob_id\":\"mock\"}";
    let out = sign_software(&seed, message).unwrap();
    match out {
        SignerOutput::Software { signature, public_key } => {
            assert_eq!(signature.len(), 64);
            assert_eq!(public_key.len(), 32);
            let pk = ed25519_dalek::PublicKey::from_bytes(&public_key).unwrap();
            let sig = ed25519_dalek::Signature::try_from(&signature[..]).unwrap();
            assert!(pk.verify(message, &sig).is_ok());
            assert!(pk.verify(b"other", &sig).is_err());
        }
        SignerOutput::Hardware { .. } => panic!("expected a software signature"),
    }
}

#[test]
fn software_envelope_carries_payload() {
    let data = AttestationData::new("mock", 41, 99);
    let env = build_envelope(
        data,
        SignerOutput::Software { signature: vec![1, 2, 3], public_key: vec![0xff] },
    );
    assert_eq!(env.format, FORMAT_ED25519);
    assert_eq!(env.format, "ed25519-v1");
    assert_eq!(env.data.blob_id, "mock");
    assert_eq!(env.data.quality_score, 41);
    assert_eq!(env.data.timestamp, 99);
    assert_eq!(env.signature_b64.as_deref(), Some("AQID"));
    assert_eq!(env.public_key_b64.as_deref(), Some("/w=="));
    assert_eq!(env.nsm_document_b64, None);
}

#[test]
fn hardware_envelope_carries_document() {
    let data = AttestationData::new("test_1", 7, 5);
    let env = build_envelope(data, SignerOutput::Hardware { document: b"hello".to_vec() });
    assert_eq!(env.format, FORMAT_NSM);
    assert_eq!(env.format, "nsm-document-v1");
    assert_eq!(env.nsm_document_b64.as_deref(), Some("aGVsbG8="));
    let doc = base64::engine::general_purpose::STANDARD
        .decode(env.nsm_document_b64.unwrap())
        .unwrap();
    assert_eq!(doc, b"hello");
    assert_eq!(env.signature_b64, None);
    assert_eq!(env.public_key_b64, None);
    assert_eq!(env.data.blob_id, "test_1");
}
