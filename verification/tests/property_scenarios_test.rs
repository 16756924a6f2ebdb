use mo_key_service_core::adapters::{ClockAdapter, EntropyAdapter, StorageAdapter};
use mo_key_service_core::cbor::{cbor_bytes, cbor_map};
use mo_key_service_core::ciphersuite::{generate_device_signing_keypair, hybrid_sign, hybrid_verify, SignerKeys};
use mo_key_service_core::crypto::{aead_decrypt, aead_encrypt, KdfParams};
use mo_key_service_core::formats::{encode_key_envelope_v1, encode_scope_state_v1, KeyEnvelopeV1, ScopeStateV1};
use mo_key_service_core::key_service::{KeyService, KeyServiceConfig, KeyServiceError};
use mo_key_service_core::session::{HandleEntry, Session};
use mo_key_service_core::types::{
    AeadId, DeviceId, KemCiphersuiteId, KeyHandle, ScopeEpoch, ScopeId, SessionAssurance,
    SessionId, SessionKind, SigCiphersuiteId, UserId,
};
use std::collections::HashMap;

#[derive(Default)]
struct MemStorage {
    data: HashMap<(String, String), Vec<u8>>,
}

impl StorageAdapter for MemStorage {
    fn get(&mut self, namespace: &str, key: &str) -> Result<Option<Vec<u8>>, String> {
        Ok(self.data.get(&(namespace.to_string(), key.to_string())).cloned())
    }

    fn put(&mut self, namespace: &str, key: &str, value: &[u8]) -> Result<(), String> {
        self.data
            .insert((namespace.to_string(), key.to_string()), value.to_vec());
        Ok(())
    }

    fn list_since(
        &mut self,
        namespace: &str,
        cursor: &str,
        _limit: usize,
    ) -> Result<(Vec<(String, Vec<u8>)>, String), String> {
        let mut out = Vec::new();
        for ((ns, key), value) in self.data.iter() {
            if ns == namespace && key.as_str() >= cursor {
                out.push((key.clone(), value.clone()));
            }
        }
        out.sort_by(|a, b| a.0.cmp(&b.0));
        Ok((out, "".to_string()))
    }
}

struct FixedClock {
    now: u64,
}

impl ClockAdapter for FixedClock {
    fn now_ms(&mut self) -> u64 {
        self.now
    }
}

struct OsEntropy;

impl EntropyAdapter for OsEntropy {
    fn random_bytes(&mut self, len: usize) -> Vec<u8> {
        mo_key_service_core::crypto::random_bytes(len).expect("entropy")
    }
}

fn small_kdf() -> KdfParams {
    KdfParams {
        id: "kdf-1".to_string(),
        salt: vec![5u8; 16],
        memory_kib: 64,
        iterations: 1,
        parallelism: 1,
    }
}

#[test]
fn create_unlock_step_up_change_passphrase() {
    let mut ks = KeyService::new(
        MemStorage::default(),
        FixedClock { now: 1_000 },
        OsEntropy,
        KeyServiceConfig::default(),
    );
    ks.create_new_vault(UserId("user-1".to_string()), b"pass", small_kdf())
        .expect("create vault");
    let unlock = ks.unlock_passphrase(b"pass").expect("unlock");
    assert_eq!(unlock.kind, SessionKind::Normal);
    let step_up = ks
        .step_up(&unlock.session_id, b"pass")
        .expect("step up");
    assert!(step_up.expires_at_ms <= step_up.issued_at_ms + 60_000);
    ks.change_passphrase(&unlock.session_id, b"pass2")
        .expect("change passphrase");
    ks.unlock_passphrase(b"pass2").expect("unlock with new passphrase");
}

#[test]
fn change_passphrase_locks_out_old_passphrase() {
    let mut ks = KeyService::new(
        MemStorage::default(),
        FixedClock { now: 1_000 },
        OsEntropy,
        KeyServiceConfig::default(),
    );
    ks.create_new_vault(UserId("user-1".to_string()), b"pass", small_kdf())
        .expect("create vault");
    let unlock = ks.unlock_passphrase(b"pass").expect("unlock");
    ks.step_up(&unlock.session_id, b"pass").expect("step up");
    ks.change_passphrase(&unlock.session_id, b"pass2")
        .expect("change passphrase");
    let old = ks.unlock_passphrase(b"pass").unwrap_err();
    assert!(matches!(old, KeyServiceError::CryptoError(_)));
}

#[test]
fn aead_round_trip_and_tamper_rejection() {
    let key = vec![7u8; 32];
    let nonce = vec![9u8; 12];
    let aad = b"binding";
    let pt = b"plaintext bytes";
    let ct = aead_encrypt(&key, aad, pt, &nonce).expect("encrypt");
    let back = aead_decrypt(&key, aad, &nonce, &ct).expect("decrypt");
    assert_eq!(back, pt);
    let mut bad_ct = ct.clone();
    bad_ct[0] ^= 1;
    assert!(aead_decrypt(&key, aad, &nonce, &bad_ct).is_err());
    let mut bad_key = key.clone();
    bad_key[0] ^= 1;
    assert!(aead_decrypt(&bad_key, aad, &nonce, &ct).is_err());
    let mut bad_nonce = nonce.clone();
    bad_nonce[0] ^= 1;
    assert!(aead_decrypt(&key, aad, &bad_nonce, &ct).is_err());
    assert!(aead_decrypt(&key, b"other", &nonce, &ct).is_err());
}

#[test]
fn hybrid_signature_needs_both_components() {
    let kp = generate_device_signing_keypair().expect("keypair");
    let msg = b"signed bytes";
    let sig = hybrid_sign(msg, &kp).expect("sign");
    let signer = SignerKeys {
        sig_suite: SigCiphersuiteId::HybridSig1,
        ed25519_pub: kp.ed25519_pub.clone(),
        mldsa_pub: kp.mldsa_pub.clone(),
    };
    assert!(hybrid_verify(msg, &sig, &signer));
    assert!(!hybrid_verify(b"other bytes", &sig, &signer));
    let other = generate_device_signing_keypair().expect("keypair");
    let wrong_ed = SignerKeys {
        sig_suite: SigCiphersuiteId::HybridSig1,
        ed25519_pub: other.ed25519_pub.clone(),
        mldsa_pub: kp.mldsa_pub.clone(),
    };
    assert!(!hybrid_verify(msg, &sig, &wrong_ed));
    let wrong_ml = SignerKeys {
        sig_suite: SigCiphersuiteId::HybridSig1,
        ed25519_pub: kp.ed25519_pub.clone(),
        mldsa_pub: other.mldsa_pub.clone(),
    };
    assert!(!hybrid_verify(msg, &sig, &wrong_ml));
    let mut bad_sig = sig.clone();
    let last = bad_sig.len() - 1;
    bad_sig[last] ^= 1;
    assert!(!hybrid_verify(msg, &bad_sig, &signer));
}

#[test]
fn untrusted_signer_is_rejected() {
    let mut ks = KeyService::new(
        MemStorage::default(),
        FixedClock { now: 1_000 },
        OsEntropy,
        KeyServiceConfig::default(),
    );
    ks.create_new_vault(UserId("user-1".to_string()), b"pass", small_kdf())
        .expect("create vault");
    let unlock = ks.unlock_passphrase(b"pass").expect("unlock");

    let trusted = generate_device_signing_keypair().expect("trusted");
    let scope_id = ScopeId("scope-1".to_string());
    let mut scope_state = ScopeStateV1 {
        v: 1,
        scope_id: scope_id.clone(),
        scope_state_seq: 1,
        prev_hash: vec![0u8; 32],
        scope_epoch: 1,
        kind: 0,
        payload: cbor_map(vec![
            (1, cbor_bytes(&trusted.ed25519_pub)),
            (2, cbor_bytes(&trusted.mldsa_pub)),
        ]),
        signer_device_id: DeviceId("device-1".to_string()),
        sig_suite: SigCiphersuiteId::HybridSig1,
        signature: Vec::new(),
    };
    let to_sign = scope_state.to_be_signed_bytes().unwrap();
    scope_state.signature = hybrid_sign(&to_sign, &trusted).unwrap();
    let bytes = encode_scope_state_v1(&scope_state).unwrap();
    let ingest = ks
        .ingest_scope_state(&unlock.session_id, &bytes, None)
        .expect("ingest scope state");

    // An envelope claiming a device that never joined the roster.
    let stranger = generate_device_signing_keypair().expect("stranger");
    let mut envelope = KeyEnvelopeV1 {
        v: 1,
        envelope_id: "env-1".to_string(),
        scope_id: scope_id.clone(),
        scope_epoch: ScopeEpoch(1),
        recipient_user_id: UserId("user-1".to_string()),
        scope_state_ref: hex::decode(&ingest.scope_state_ref).expect("ref"),
        kem: KemCiphersuiteId::HybridKem1,
        aead: AeadId::Aead1,
        enc: vec![0x66; 32],
        nonce: vec![0x77; 12],
        wrapped_scope_key: vec![0x88; 32],
        signer_device_id: DeviceId("device-unknown".to_string()),
        sig_suite: SigCiphersuiteId::HybridSig1,
        signature: Vec::new(),
    recipient_uk_pub_fingerprint: None,
    };
    let env_to_sign = envelope.to_be_signed_bytes().unwrap();
    envelope.signature = hybrid_sign(&env_to_sign, &stranger).unwrap();
    let env_bytes = encode_key_envelope_v1(&envelope).unwrap();
    let err = ks
        .ingest_key_envelope(&unlock.session_id, &env_bytes)
        .unwrap_err();
    assert!(matches!(err, KeyServiceError::UntrustedSigner));
}

#[test]
fn handle_table_evicts_oldest_first() {
    let mut session = Session::new(
        SessionId("sid".to_string()),
        0,
        1_000,
        SessionKind::Normal,
        SessionAssurance::Passphrase,
        vec![0u8; 32],
    );
    session.max_handles = 2;
    let mut handles: Vec<KeyHandle> = Vec::new();
    for epoch in 0..4u64 {
        let entry = HandleEntry::ScopeKey {
            scope_id: ScopeId("scope".to_string()),
            scope_epoch: ScopeEpoch(epoch),
            key: vec![epoch as u8; 32],
        };
        handles.push(session.insert_handle(entry).expect("insert"));
        assert!(session.handles.len() <= 2);
    }
    // The two oldest are gone, in insertion order; the two newest remain.
    assert!(session.get_handle(&handles[0]).is_none());
    assert!(session.get_handle(&handles[1]).is_none());
    assert!(session.get_handle(&handles[2]).is_some());
    assert!(session.get_handle(&handles[3]).is_some());
}
