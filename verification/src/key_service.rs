//! The key service: vault lifecycle, sessions and step-up, ingestion of
//! signed scope states, envelopes and grants, handle-based encryption, and
//! export/import. Every cryptographic or format failure fails closed.

use vstd::prelude::*;
use vstd::string::StringExecFns;
use vstd::utf8::encode_utf8;
use crate::aad::{
    aad_key_envelope_wrap_v1, aad_keyvault_keywrap_v1, aad_resource_grant_wrap_v1,
    aad_webauthn_prf_wrap_v1,
};
use crate::adapters::{ClockAdapter, EntropyAdapter, StorageAdapter};
use crate::cbor::{
    as_map, bytes_eq, cbor_array, cbor_canon, cbor_enc, cbor_text, decode_canonical_value,
    is_canonical, lemma_canon_list_build, req_bytes, view_list, CborLimits, CborVal, CborValue,
    clone_bytes,
};
use crate::ciphersuite::{
    derive_hybrid_kem_wrap_key, generate_device_signing_keypair, generate_user_keypair,
    hybrid_sig_ok, hybrid_sign, hybrid_verify, two_bytes_val, HybridKemRecipient, SignerKeys,
};
use crate::crypto::{
    aead_decrypt, aead_encrypt, aead_open_of, aead_seal_of, derive_kek, hkdf_sha256, sha256_bytes,
    KdfParams,
};
use crate::error::{CoreError, CoreResult};
use crate::formats::{
    decode_keyvault_header_v1, decode_keyvault_record_container_v1, decode_resource_grant_v1,
    decode_scope_state_v1, encode_keyvault_header_v1, encode_keyvault_record_container_v1,
    encode_keyvault_snapshot_v1, scope_state_ref_of, KeyEnvelopeV1, KeyVaultHeaderV1,
    KeyVaultRecordContainerV1, KeyVaultSnapshotV1, ResourceGrantV1, ScopeStateV1,
};
use crate::hash::{hex_encode, hex_of, sha256_of};
use crate::keyvault::{
    make_store_device_signing_key_record, make_store_resource_key_record,
    make_store_scope_key_record, make_store_user_key_record, KeyVaultMaterialized, KeyVaultState,
};
use crate::session::{
    manager_lookup, session_wf, HandleEntry, Session, SessionManager,
};
use crate::types::{
    str_eq, AeadId, DeviceId, KeyHandle, ResourceId, ResourceKeyId, ScopeEpoch, ScopeId,
    SessionAssurance, SessionId, SessionKind, SigCiphersuiteId, UserId,
};

verus! {

/// The closed set of service errors. Every cryptographic failure collapses
/// to the opaque crypto error.
#[derive(Debug)]
pub enum KeyServiceError {
    StorageError(String),
    InvalidCbor(String),
    InvalidFormat(String),
    CryptoError(String),
    SessionInvalid,
    StepUpRequired,
    UntrustedSigner,
    UnknownScope,
    UnknownHandle,
    ResourceKeyMissing,
    ScopeKeyMissing,
    FingerprintMismatch,
}

/// Maps a codec, format, crypto, or entropy fault to a service error.
fn from_core(err: CoreError) -> (r: KeyServiceError)
    ensures
        err is Cbor <==> r is InvalidCbor,
        err is Format <==> r is InvalidFormat,
        (err is Crypto || err is Entropy) <==> r is CryptoError,
{
    match err {
        CoreError::Cbor(msg) => KeyServiceError::InvalidCbor(msg),
        CoreError::Format(msg) => KeyServiceError::InvalidFormat(msg),
        CoreError::Crypto(msg) => KeyServiceError::CryptoError(msg),
        CoreError::Entropy(msg) => KeyServiceError::CryptoError(msg),
    }
}

/// Session and decoding policy.
pub struct KeyServicePolicy {
    pub normal_session_ttl_ms: u64,
    pub step_up_session_ttl_ms: u64,
    pub max_handles_per_session: usize,
    pub max_cbor_bytes: usize,
    pub max_cbor_depth: usize,
    pub max_cbor_items: usize,
}

impl KeyServicePolicy {
    /// The default policy: five-minute sessions, one-minute step-up, 256
    /// handles, and the default codec limits.
    pub fn standard() -> (r: KeyServicePolicy)
        ensures
            r.normal_session_ttl_ms == 300000,
            r.step_up_session_ttl_ms == 60000,
            r.max_handles_per_session == 256,
            r.max_cbor_bytes == 0x100000,
            r.max_cbor_depth == 64,
            r.max_cbor_items == 4096,
    {
        KeyServicePolicy {
            normal_session_ttl_ms: 300000,
            step_up_session_ttl_ms: 60000,
            max_handles_per_session: 256,
            max_cbor_bytes: 0x100000,
            max_cbor_depth: 64,
            max_cbor_items: 4096,
        }
    }
}

impl Default for KeyServicePolicy {
    fn default() -> (r: KeyServicePolicy)
        ensures
            r.normal_session_ttl_ms == 300000,
            r.step_up_session_ttl_ms == 60000,
            r.max_handles_per_session == 256,
    {
        KeyServicePolicy::standard()
    }
}

/// Service configuration.
pub struct KeyServiceConfig {
    pub policy: KeyServicePolicy,
}

impl Default for KeyServiceConfig {
    fn default() -> (r: KeyServiceConfig)
        ensures
            r.policy.normal_session_ttl_ms == 300000,
            r.policy.step_up_session_ttl_ms == 60000,
            r.policy.max_handles_per_session == 256,
    {
        KeyServiceConfig { policy: KeyServicePolicy::standard() }
    }
}

/// What an unlock returned: a fresh session and its lifetime.
#[derive(Debug)]
pub struct UnlockResponse {
    pub session_id: SessionId,
    pub issued_at_ms: u64,
    pub expires_at_ms: u64,
    pub kind: SessionKind,
    pub assurance: SessionAssurance,
}

#[derive(Debug)]
pub struct StepUpResponse {
    pub issued_at_ms: u64,
    pub expires_at_ms: u64,
}

#[derive(Debug)]
pub struct RenewSessionResponse {
    pub issued_at_ms: u64,
    pub expires_at_ms: u64,
}

#[derive(Debug)]
pub struct GetWebAuthnPrfUnlockInfoResponse {
    pub enabled: bool,
    pub credential_id: Option<Vec<u8>>,
    pub prf_salt: Vec<u8>,
    pub aead: AeadId,
}

#[derive(Debug)]
pub struct IngestScopeStateResponse {
    pub scope_id: ScopeId,
    pub scope_state_ref: String,
}

#[derive(Debug)]
pub struct IngestKeyEnvelopeResponse {
    pub scope_id: ScopeId,
    pub scope_epoch: ScopeEpoch,
}

#[derive(Debug)]
pub struct OpenScopeResponse {
    pub scope_key_handle: KeyHandle,
}

#[derive(Debug)]
pub struct OpenResourceResponse {
    pub resource_key_handle: KeyHandle,
}

#[derive(Debug)]
pub struct EncryptResponse {
    pub ciphertext: Vec<u8>,
}

#[derive(Debug)]
pub struct DecryptResponse {
    pub plaintext: Vec<u8>,
}

#[derive(Debug)]
pub struct SignResponse {
    pub signature: Vec<u8>,
    pub ciphersuite: SigCiphersuiteId,
}

#[derive(Debug)]
pub struct VerifyResponse {
    pub ok: bool,
}

/// The per-scope signer roster: device signers and accepted scope-state
/// references, trusted on first use.
pub struct SignerRoster {
    pub scopes: Vec<(String, Vec<(String, SignerKeys)>)>,
    pub scope_state_refs: Vec<(String, Vec<String>)>,
}

/// The newest signer stored for a scope and device.
pub open spec fn roster_signer(
    scopes: Seq<(String, Vec<(String, SignerKeys)>)>,
    scope_id: Seq<char>,
    device_id: Seq<char>,
) -> Option<SignerKeys>
    decreases scopes,
{
    if scopes.len() == 0 {
        None
    } else if scopes.last().0@ == scope_id {
        signer_in(scopes.last().1@, device_id)
    } else {
        roster_signer(scopes.drop_last(), scope_id, device_id)
    }
}

/// The newest signer stored for a device within one scope's list.
pub open spec fn signer_in(signers: Seq<(String, SignerKeys)>, device_id: Seq<char>) -> Option<
    SignerKeys,
>
    decreases signers,
{
    if signers.len() == 0 {
        None
    } else if signers.last().0@ == device_id {
        Some(signers.last().1)
    } else {
        signer_in(signers.drop_last(), device_id)
    }
}

/// Whether a scope has accepted the given scope-state reference.
pub open spec fn roster_has_ref(
    refs: Seq<(String, Vec<String>)>,
    scope_id: Seq<char>,
    state_ref: Seq<char>,
) -> bool
    decreases refs,
{
    if refs.len() == 0 {
        false
    } else if refs.last().0@ == scope_id && ref_in(refs.last().1@, state_ref) {
        true
    } else {
        roster_has_ref(refs.drop_last(), scope_id, state_ref)
    }
}

/// Whether a reference list holds the given hex reference.
pub open spec fn ref_in(refs: Seq<String>, state_ref: Seq<char>) -> bool
    decreases refs,
{
    if refs.len() == 0 {
        false
    } else {
        refs.last()@ == state_ref || ref_in(refs.drop_last(), state_ref)
    }
}

impl SignerRoster {
    /// An empty roster.
    pub fn new() -> (r: SignerRoster)
        ensures
            r.scopes@.len() == 0,
            r.scope_state_refs@.len() == 0,
    {
        SignerRoster { scopes: Vec::new(), scope_state_refs: Vec::new() }
    }

    /// The trusted signer for a scope and device, if any.
    #[verifier::loop_isolation(false)]
    pub fn get_signer(&self, scope_id: &ScopeId, device_id: &DeviceId) -> (r: Option<SignerKeys>)
        ensures
            match r {
                Some(s) => roster_signer(self.scopes@, scope_id.0@, device_id.0@) matches Some(
                    stored,
                ) && s.sig_suite == stored.sig_suite && s.ed25519_pub@ == stored.ed25519_pub@
                    && s.mldsa_pub@ == stored.mldsa_pub@,
                None => roster_signer(self.scopes@, scope_id.0@, device_id.0@) is None,
            },
    {
        proof {
            assert(self.scopes@.take(self.scopes@.len() as int) =~= self.scopes@);
        }
        let mut i: usize = self.scopes.len();
        while i > 0
            invariant
                i <= self.scopes@.len(),
                roster_signer(self.scopes@, scope_id.0@, device_id.0@) == roster_signer(
                    self.scopes@.take(i as int),
                    scope_id.0@,
                    device_id.0@,
                ),
            decreases i,
        {
            i = i - 1;
            proof {
                assert(self.scopes@.take(i + 1).last() == self.scopes@[i as int]);
                assert(self.scopes@.take(i + 1).drop_last() =~= self.scopes@.take(i as int));
            }
            if str_eq(self.scopes[i].0.as_str(), scope_id.0.as_str()) {
                let signers = &self.scopes[i].1;
                proof {
                    assert(signers@.take(signers@.len() as int) =~= signers@);
                    assert(roster_signer(self.scopes@.take(i + 1), scope_id.0@, device_id.0@)
                        == signer_in(signers@, device_id.0@));
                }
                let mut j: usize = signers.len();
                while j > 0
                    invariant
                        j <= signers@.len(),
                        signer_in(signers@, device_id.0@) == signer_in(
                            signers@.take(j as int),
                            device_id.0@,
                        ),
                    decreases j,
                {
                    j = j - 1;
                    proof {
                        assert(signers@.take(j + 1).last() == signers@[j as int]);
                        assert(signers@.take(j + 1).drop_last() =~= signers@.take(j as int));
                    }
                    if str_eq(signers[j].0.as_str(), device_id.0.as_str()) {
                        proof {
                            assert(signer_in(signers@.take(j + 1), device_id.0@) == Some(
                                signers@[j as int].1,
                            ));
                            assert(roster_signer(
                                self.scopes@.take(i + 1),
                                scope_id.0@,
                                device_id.0@,
                            ) == signer_in(signers@, device_id.0@));
                        }
                        return Some(signers[j].1.clone());
                    }
                }
                proof {
                    assert(signers@.take(0).len() == 0);
                }
                proof {
                    assert(roster_signer(self.scopes@.take(i + 1), scope_id.0@, device_id.0@)
                        == signer_in(signers@, device_id.0@));
                    assert(signer_in(signers@.take(0), device_id.0@) is None);
                }
                return None;
            }
        }
        proof {
            assert(self.scopes@.take(0).len() == 0);
        }
        None
    }

    /// Records (or replaces) the signer for a scope and device.
    pub fn upsert_signer(&mut self, scope_id: &ScopeId, device_id: &DeviceId, signer: SignerKeys)
        ensures
            roster_signer(final(self).scopes@, scope_id.0@, device_id.0@) == Some(signer),
            forall|os: Seq<char>, od: Seq<char>|
                os != scope_id.0@ ==> #[trigger] roster_signer(final(self).scopes@, os, od)
                    == roster_signer(old(self).scopes@, os, od),
            final(self).scope_state_refs@ == old(self).scope_state_refs@,
    {
        let entry = vec![(device_id.0.clone(), signer)];
        self.scopes.push((scope_id.0.clone(), entry));
        proof {
            let scopes = self.scopes@;
            assert(scopes.last().0@ == scope_id.0@);
            assert(scopes.last().1@.len() == 1);
            assert(scopes.last().1@.last().0@ == device_id.0@);
            assert(scopes.drop_last() =~= old(self).scopes@);
            assert forall|os: Seq<char>, od: Seq<char>| os != scope_id.0@ implies #[trigger] roster_signer(
                scopes,
                os,
                od,
            ) == roster_signer(old(self).scopes@, os, od) by {
                assert(roster_signer(scopes, os, od) == roster_signer(
                    scopes.drop_last(),
                    os,
                    od,
                ));
            }
        }
    }

    /// Records an accepted scope-state reference for a scope.
    pub fn insert_scope_state_ref(&mut self, scope_id: &ScopeId, scope_state_ref_hex: String)
        ensures
            roster_has_ref(
                final(self).scope_state_refs@,
                scope_id.0@,
                scope_state_ref_hex@,
            ),
            forall|os: Seq<char>, oref: Seq<char>|
                os != scope_id.0@ ==> #[trigger] roster_has_ref(
                    final(self).scope_state_refs@,
                    os,
                    oref,
                ) == roster_has_ref(old(self).scope_state_refs@, os, oref),
            final(self).scopes@ == old(self).scopes@,
    {
        let entry = vec![scope_state_ref_hex];
        let ghost rv = entry@;
        self.scope_state_refs.push((scope_id.0.clone(), entry));
        proof {
            let refs = self.scope_state_refs@;
            assert(refs.last().0@ == scope_id.0@);
            assert(refs.last().1@ == rv);
            assert(rv.last() == rv[0]);
            assert(refs.drop_last() =~= old(self).scope_state_refs@);
            assert forall|os: Seq<char>, oref: Seq<char>| os != scope_id.0@ implies #[trigger] roster_has_ref(
                refs,
                os,
                oref,
            ) == roster_has_ref(old(self).scope_state_refs@, os, oref) by {
                assert(roster_has_ref(refs, os, oref) == roster_has_ref(
                    refs.drop_last(),
                    os,
                    oref,
                ));
            }
        }
    }

    /// Whether a scope has accepted the given reference.
    #[verifier::loop_isolation(false)]
    pub fn has_scope_state_ref(&self, scope_id: &ScopeId, scope_state_ref_hex: &str) -> (r: bool)
        ensures
            r == roster_has_ref(self.scope_state_refs@, scope_id.0@, scope_state_ref_hex@),
    {
        proof {
            assert(self.scope_state_refs@.take(self.scope_state_refs@.len() as int)
                =~= self.scope_state_refs@);
        }
        let mut i: usize = self.scope_state_refs.len();
        while i > 0
            invariant
                i <= self.scope_state_refs@.len(),
                roster_has_ref(self.scope_state_refs@, scope_id.0@, scope_state_ref_hex@)
                    == roster_has_ref(
                    self.scope_state_refs@.take(i as int),
                    scope_id.0@,
                    scope_state_ref_hex@,
                ),
            decreases i,
        {
            i = i - 1;
            proof {
                assert(self.scope_state_refs@.take(i + 1).last()
                    == self.scope_state_refs@[i as int]);
                assert(self.scope_state_refs@.take(i + 1).drop_last()
                    =~= self.scope_state_refs@.take(i as int));
            }
            if str_eq(self.scope_state_refs[i].0.as_str(), scope_id.0.as_str()) {
                let refs = &self.scope_state_refs[i].1;
                proof {
                    assert(refs@.take(refs@.len() as int) =~= refs@);
                }
                let mut j: usize = refs.len();
                while j > 0
                    invariant
                        j <= refs@.len(),
                        ref_in(refs@, scope_state_ref_hex@) == ref_in(
                            refs@.take(j as int),
                            scope_state_ref_hex@,
                        ),
                    decreases j,
                {
                    j = j - 1;
                    proof {
                        assert(refs@.take(j + 1).last() == refs@[j as int]);
                        assert(refs@.take(j + 1).drop_last() =~= refs@.take(j as int));
                    }
                    if str_eq(refs[j].as_str(), scope_state_ref_hex) {
                        proof {
                            assert(ref_in(refs@.take(j + 1), scope_state_ref_hex@));
                            assert(roster_has_ref(
                                self.scope_state_refs@.take(i + 1),
                                scope_id.0@,
                                scope_state_ref_hex@,
                            ) == (ref_in(refs@, scope_state_ref_hex@) || roster_has_ref(
                                self.scope_state_refs@.take(i as int),
                                scope_id.0@,
                                scope_state_ref_hex@,
                            )));
                        }
                        return true;
                    }
                }
                proof {
                    assert(refs@.take(0).len() == 0);
                }
            }
        }
        proof {
            assert(self.scope_state_refs@.take(0).len() == 0);
        }
        false
    }
}

/// The loaded vault: the header, the chained state, the materialized keys,
/// and the trust-on-first-use roster.
pub struct KeyServiceState {
    pub keyvault_header: KeyVaultHeaderV1,
    pub keyvault_state: KeyVaultState,
    pub keyvault_materialized: KeyVaultMaterialized,
    pub signer_roster: SignerRoster,
}

/// The key service over a storage, clock, and entropy adapter.
pub struct KeyService<S: StorageAdapter, C: ClockAdapter, E: EntropyAdapter> {
    pub storage: S,
    pub clock: C,
    pub entropy: E,
    pub config: KeyServiceConfig,
    pub sessions: SessionManager,
    pub state: Option<KeyServiceState>,
}

/// A random-id in the canonical grouped-hex spelling.
fn uuid_like(bytes: &Vec<u8>) -> (r: String)
    requires
        bytes@.len() == 16,
{
    let mut out = hex_encode(crate::cbor::slice_to_vec(bytes.as_slice(), 0, 4).as_slice());
    out.append("-");
    out.append(hex_encode(crate::cbor::slice_to_vec(bytes.as_slice(), 4, 6).as_slice()).as_str());
    out.append("-");
    out.append(hex_encode(crate::cbor::slice_to_vec(bytes.as_slice(), 6, 8).as_slice()).as_str());
    out.append("-");
    out.append(
        hex_encode(crate::cbor::slice_to_vec(bytes.as_slice(), 8, 10).as_slice()).as_str(),
    );
    out.append("-");
    out.append(
        hex_encode(crate::cbor::slice_to_vec(bytes.as_slice(), 10, 16).as_slice()).as_str(),
    );
    out
}

/// The SHA-256 fingerprint of raw bytes.
fn fingerprint_bytes(bytes: &[u8]) -> (r: Vec<u8>)
    ensures
        r@ == sha256_of(bytes@),
        r@.len() == 32,
{
    sha256_bytes(bytes)
}

/// The SHA-256 fingerprint of raw bytes, in hex.
fn fingerprint_bytes_hex(bytes: &[u8]) -> (r: String)
    ensures
        r@ == hex_of(sha256_of(bytes@)),
{
    let digest = fingerprint_bytes(bytes);
    hex_encode(digest.as_slice())
}

/// The signer fingerprint: SHA-256 over the Ed25519 public key followed by
/// the ML-DSA public key, in hex.
fn fingerprint_signer(signer: &SignerKeys) -> (r: String)
    ensures
        r@ == hex_of(sha256_of(signer.ed25519_pub@ + signer.mldsa_pub@)),
{
    let mut data = clone_bytes(&signer.ed25519_pub);
    crate::cbor::push_bytes(&mut data, signer.mldsa_pub.as_slice());
    fingerprint_bytes_hex(data.as_slice())
}

/// Reads the signer keys out of a scope state's payload: the Ed25519
/// public key at key 1 and the ML-DSA public key at key 2.
fn extract_signer_keys(scope_state: &ScopeStateV1) -> (r: Result<SignerKeys, KeyServiceError>)
    ensures
        r is Err ==> r->Err_0 is InvalidFormat || r->Err_0 is InvalidCbor
            || r->Err_0 is CryptoError,
        r is Ok ==> ({
            let m = scope_state.payload@;
            &&& scope_state.sig_suite is HybridSig1
            &&& m is Dict
            &&& crate::cbor::map_get_spec(m->Dict_0, 1) == Some(
                CborVal::Bytes(r->Ok_0.ed25519_pub@),
            )
            &&& crate::cbor::map_get_spec(m->Dict_0, 2) == Some(
                CborVal::Bytes(r->Ok_0.mldsa_pub@),
            )
            &&& r->Ok_0.sig_suite is HybridSig1
        }),
{
    if scope_state.sig_suite != SigCiphersuiteId::HybridSig1 {
        return Err(KeyServiceError::InvalidFormat("unsupported sig suite".to_owned()));
    }
    let map = match as_map(&scope_state.payload) {
        Ok(m) => m,
        Err(e) => {
            return Err(from_core(e));
        },
    };
    let ed25519_pub = match req_bytes(map, 1) {
        Ok(b) => b,
        Err(e) => {
            return Err(from_core(e));
        },
    };
    let mldsa_pub = match req_bytes(map, 2) {
        Ok(b) => b,
        Err(e) => {
            return Err(from_core(e));
        },
    };
    Ok(SignerKeys { sig_suite: SigCiphersuiteId::HybridSig1, ed25519_pub, mldsa_pub })
}

impl<S: StorageAdapter, C: ClockAdapter, E: EntropyAdapter> KeyService<S, C, E> {
    /// A service with no loaded vault and no sessions.
    pub fn new(storage: S, clock: C, entropy: E, config: KeyServiceConfig) -> (r: KeyService<
        S,
        C,
        E,
    >)
        ensures
            r.sessions.sessions@.len() == 0,
            r.state is None,
            r.config == config,
    {
        KeyService { storage, clock, entropy, config, sessions: SessionManager::new(), state: None }
    }

    /// The decoding limits the policy sets.
    fn cbor_limits(&self) -> (r: CborLimits)
        ensures
            r.max_bytes == self.config.policy.max_cbor_bytes,
            r.max_depth == self.config.policy.max_cbor_depth,
            r.max_items == self.config.policy.max_cbor_items,
    {
        CborLimits {
            max_bytes: self.config.policy.max_cbor_bytes,
            max_depth: self.config.policy.max_cbor_depth,
            max_items: self.config.policy.max_cbor_items,
        }
    }

    /// Checks a session against the clock: a session past its expiry is
    /// removed and wiped, and the operation fails closed. A missing session
    /// is invalid.
    fn ensure_session_valid(&mut self, now: u64, session_id: &SessionId) -> (r: Result<
        (),
        KeyServiceError,
    >)
        ensures
            r is Ok <==> (manager_lookup(old(self).sessions.sessions@, session_id.0@) matches Some(
                s,
            ) && now <= s.expires_at_ms),
            r is Ok ==> *final(self) == *old(self),
            r is Err ==> r->Err_0 is SessionInvalid,
            (manager_lookup(old(self).sessions.sessions@, session_id.0@) matches Some(s) && now
                > s.expires_at_ms) ==> manager_lookup(
                final(self).sessions.sessions@,
                session_id.0@,
            ) is None && final(self).state is None,
    {
        match self.sessions.expires_of(session_id) {
            None => Err(KeyServiceError::SessionInvalid),
            Some((expires_at_ms, _)) => {
                if now > expires_at_ms {
                    self.sessions.remove(session_id);
                    self.state = None;
                    Err(KeyServiceError::SessionInvalid)
                } else {
                    Ok(())
                }
            },
        }
    }

    /// Loads and decodes the vault header.
    fn load_header(&mut self) -> (r: Result<KeyVaultHeaderV1, KeyServiceError>)
        ensures
            r is Ok ==> r->Ok_0.aead is Aead1 && r->Ok_0.vault_key_wrap.aead is Aead1
                && r->Ok_0.vault_key_wrap.nonce@.len() == 12,
            r is Err ==> r->Err_0 is StorageError || r->Err_0 is InvalidFormat
                || r->Err_0 is InvalidCbor,
            final(self).config == old(self).config,
            final(self).sessions == old(self).sessions,
            final(self).state == old(self).state,
    {
        let got = match self.storage.get("keyvault", "header") {
            Ok(v) => v,
            Err(_) => {
                return Err(KeyServiceError::StorageError("storage get failed".to_owned()));
            },
        };
        let bytes = match got {
            Some(b) => b,
            None => {
                return Err(KeyServiceError::InvalidFormat("missing keyvault header".to_owned()));
            },
        };
        match decode_keyvault_header_v1(bytes.as_slice()) {
            Ok(h) => Ok(h),
            Err(e) => Err(from_core(e)),
        }
    }

    /// Creates a fresh vault: a random vault key is wrapped under the
    /// passphrase KEK with the key-wrap AAD, and the header and an empty
    /// record index are persisted.
    pub fn create_new_vault(
        &mut self,
        user_id: UserId,
        passphrase_utf8: &[u8],
        kdf_params: KdfParams,
    ) -> (r: Result<(), KeyServiceError>)
        ensures
            kdf_params.id@ != "kdf-1"@ ==> r is Err && r->Err_0 is CryptoError,
            r is Ok ==> kdf_params.id@ == "kdf-1"@,
            r is Ok ==> exists|vid: Seq<char>, nn: Seq<u8>, ct: Seq<u8>|
                nn.len() == 12 && (#[trigger] aead_open_of(
                    crate::crypto::argon2id_of(
                        passphrase_utf8@,
                        kdf_params.salt@,
                        kdf_params.memory_kib,
                        kdf_params.iterations,
                        kdf_params.parallelism,
                    ),
                    nn,
                    cbor_enc(
                        crate::aad::aad_keyvault_keywrap_val(
                            vid,
                            user_id.0@,
                            kdf_params,
                            AeadId::Aead1,
                        ),
                    ),
                    ct,
                ) matches Some(vk) && vk.len() == 32),
            r is Err ==> r->Err_0 is CryptoError || r->Err_0 is StorageError || r->Err_0 is InvalidCbor,
    {
        let id_bytes = self.entropy.random_bytes(16);
        let vault_id = uuid_like(&id_bytes);
        let kek = match derive_kek(passphrase_utf8, &kdf_params) {
            Ok(k) => k,
            Err(_) => {
                return Err(KeyServiceError::CryptoError("kdf failed".to_owned()));
            },
        };
        let vault_key = self.entropy.random_bytes(32);
        let aad = match aad_keyvault_keywrap_v1(
            vault_id.as_str(),
            user_id.0.as_str(),
            &kdf_params,
            AeadId::Aead1,
        ) {
            Ok(a) => a,
            Err(_) => {
                return Err(KeyServiceError::CryptoError("aad failed".to_owned()));
            },
        };
        let nonce = self.entropy.random_bytes(12);
        let ct = match aead_encrypt(
            kek.as_slice(),
            aad.as_slice(),
            vault_key.as_slice(),
            nonce.as_slice(),
        ) {
            Ok(c) => c,
            Err(_) => {
                return Err(KeyServiceError::CryptoError("vault key wrap failed".to_owned()));
            },
        };
        proof {
            assert(aead_open_of(
                crate::crypto::argon2id_of(
                    passphrase_utf8@,
                    kdf_params.salt@,
                    kdf_params.memory_kib,
                    kdf_params.iterations,
                    kdf_params.parallelism,
                ),
                nonce@,
                cbor_enc(
                    crate::aad::aad_keyvault_keywrap_val(
                        vault_id@,
                        user_id.0@,
                        kdf_params,
                        AeadId::Aead1,
                    ),
                ),
                ct@,
            ) == Some(vault_key@));
        }
        let header = KeyVaultHeaderV1 {
            v: 1,
            vault_id,
            user_id: user_id.0,
            kdf: kdf_params,
            aead: AeadId::Aead1,
            records: Vec::new(),
            vault_key_wrap: crate::formats::VaultKeyWrapV1 { aead: AeadId::Aead1, nonce, ct },
        };
        let header_bytes = match encode_keyvault_header_v1(&header) {
            Ok(b) => b,
            Err(e) => {
                return Err(from_core(e));
            },
        };
        if self.storage.put("keyvault", "header", header_bytes.as_slice()).is_err() {
            return Err(KeyServiceError::StorageError("storage put failed".to_owned()));
        }
        let empty: Vec<u8> = Vec::new();
        if self.storage.put("keyvault", "record_index", empty.as_slice()).is_err() {
            return Err(KeyServiceError::StorageError("storage put failed".to_owned()));
        }
        Ok(())
    }

    /// Unwraps the vault key with the passphrase KEK, replays the ledger,
    /// and issues a fresh normal session.
    pub fn unlock_passphrase(&mut self, passphrase_utf8: &[u8]) -> (r: Result<
        UnlockResponse,
        KeyServiceError,
    >)
        ensures
            r is Ok ==> r->Ok_0.kind is Normal && r->Ok_0.expires_at_ms == r->Ok_0.issued_at_ms
                + old(self).config.policy.normal_session_ttl_ms,
            r is Ok ==> final(self).state is Some && final(self).sessions.sessions@.len() >= 1
                && ({
                let stored = final(self).sessions.sessions@.last();
                &&& stored.0@ == r->Ok_0.session_id.0@
                &&& stored.1.kind is Normal
                &&& stored.1.expires_at_ms == r->Ok_0.expires_at_ms
                &&& exists|rb: Seq<u8>| rb.len() == 16 && stored.0@ == #[trigger] hex_of(rb)
                &&& exists|salt: Seq<u8>, mc: u32, tc: u32, pc: u32, nn: Seq<u8>, ad: Seq<u8>, ct: Seq<u8>|
                    #[trigger] crate::crypto::aead_open_of(
                        crate::crypto::argon2id_of(passphrase_utf8@, salt, mc, tc, pc),
                        nn,
                        ad,
                        ct,
                    ) == Some(stored.1.vault_key@)
            }),
    {
        let header = self.load_header()?;
        let kek = match derive_kek(passphrase_utf8, &header.kdf) {
            Ok(k) => k,
            Err(_) => {
                return Err(KeyServiceError::CryptoError("kdf failed".to_owned()));
            },
        };
        let aad = match aad_keyvault_keywrap_v1(
            header.vault_id.as_str(),
            header.user_id.as_str(),
            &header.kdf,
            header.aead,
        ) {
            Ok(a) => a,
            Err(_) => {
                return Err(KeyServiceError::CryptoError("aad failed".to_owned()));
            },
        };
        let vault_key = match aead_decrypt(
            kek.as_slice(),
            aad.as_slice(),
            header.vault_key_wrap.nonce.as_slice(),
            header.vault_key_wrap.ct.as_slice(),
        ) {
            Ok(k) => k,
            Err(_) => {
                return Err(KeyServiceError::CryptoError("vault key unwrap failed".to_owned()));
            },
        };
        proof {
            assert(crate::crypto::aead_open_of(
                crate::crypto::argon2id_of(
                    passphrase_utf8@,
                    header.kdf.salt@,
                    header.kdf.memory_kib,
                    header.kdf.iterations,
                    header.kdf.parallelism,
                ),
                header.vault_key_wrap.nonce@,
                aad@,
                header.vault_key_wrap.ct@,
            ) == Some(vault_key@));
        }
        self.finish_unlock(header, vault_key, SessionAssurance::Passphrase, SessionKind::Normal)
    }

    /// Replays the ledger, stores the session, and reports its lifetime.
    fn finish_unlock(
        &mut self,
        header: KeyVaultHeaderV1,
        vault_key: Vec<u8>,
        assurance: SessionAssurance,
        kind: SessionKind,
    ) -> (r: Result<UnlockResponse, KeyServiceError>)
        ensures
            r is Ok ==> r->Ok_0.kind == kind && r->Ok_0.assurance == assurance
                && r->Ok_0.expires_at_ms == r->Ok_0.issued_at_ms + (if kind is Normal {
                old(self).config.policy.normal_session_ttl_ms
            } else {
                old(self).config.policy.step_up_session_ttl_ms
            }),
            r is Ok ==> final(self).state is Some && crate::keyvault::state_wf(
                final(self).state->Some_0.keyvault_state,
            ) && final(self).sessions.sessions@.len() == old(self).sessions.sessions@.len() + 1
                && ({
                let stored = final(self).sessions.sessions@.last();
                &&& stored.0@ == r->Ok_0.session_id.0@
                &&& stored.1.kind == kind
                &&& stored.1.assurance == assurance
                &&& stored.1.expires_at_ms == r->Ok_0.expires_at_ms
                &&& stored.1.issued_at_ms == r->Ok_0.issued_at_ms
                &&& stored.1.vault_key@ == vault_key@
                &&& crate::session::session_wf(stored.1)
                &&& exists|rb: Seq<u8>| rb.len() == 16 && stored.0@ == #[trigger] hex_of(rb)
            }),
    {
        let now = self.clock.now_ms();
        let ttl = match kind {
            SessionKind::Normal => self.config.policy.normal_session_ttl_ms,
            SessionKind::StepUp => self.config.policy.step_up_session_ttl_ms,
        };
        let expires = match now.checked_add(ttl) {
            Some(e) => e,
            None => {
                return Err(KeyServiceError::CryptoError("clock overflow".to_owned()));
            },
        };
        let id_bytes = self.entropy.random_bytes(16);
        let session_id = SessionId(hex_encode(id_bytes.as_slice()));
        let mut session = Session::new(
            session_id.clone(),
            now,
            expires,
            kind,
            assurance,
            clone_bytes(&vault_key),
        );
        session.max_handles = self.config.policy.max_handles_per_session;
        let (state, materialized) = self.load_keyvault_state(&header, &vault_key)?;
        self.sessions.insert(session_id.clone(), session);
        self.state = Some(
            KeyServiceState {
                keyvault_header: header,
                keyvault_state: state,
                keyvault_materialized: materialized,
                signer_roster: SignerRoster::new(),
            },
        );
        Ok(
            UnlockResponse {
                session_id,
                issued_at_ms: now,
                expires_at_ms: expires,
                kind,
                assurance,
            },
        )
    }

    /// Reads the record index and every record container, in index order.
    fn load_all_record_containers(&mut self) -> (r: Result<
        Vec<KeyVaultRecordContainerV1>,
        KeyServiceError,
    >)
        ensures
            final(self).config == old(self).config,
            final(self).sessions == old(self).sessions,
            final(self).state == old(self).state,
            r is Err ==> r->Err_0 is StorageError || r->Err_0 is InvalidCbor
                || r->Err_0 is InvalidFormat,
    {
        let got = match self.storage.get("keyvault", "record_index") {
            Ok(v) => v,
            Err(_) => {
                return Err(KeyServiceError::StorageError("storage get failed".to_owned()));
            },
        };
        let index_bytes = match got {
            Some(b) => b,
            None => {
                return Ok(Vec::new());
            },
        };
        if index_bytes.len() == 0 {
            return Ok(Vec::new());
        }
        let limits = self.cbor_limits();
        let value = match decode_canonical_value(index_bytes.as_slice(), &limits) {
            Ok(v) => v,
            Err(e) => {
                return Err(from_core(e));
            },
        };
        let arr = match crate::cbor::as_array(&value) {
            Ok(a) => a,
            Err(e) => {
                return Err(from_core(e));
            },
        };
        let mut ids: Vec<String> = Vec::new();
        let mut i: usize = 0;
        while i < arr.len()
            invariant
                self.config == old(self).config,
                self.sessions == old(self).sessions,
                self.state == old(self).state,
            decreases arr@.len() - i,
        {
            match &arr[i] {
                CborValue::Text(t) => {
                    ids.push(t.clone());
                },
                _ => {
                    return Err(KeyServiceError::InvalidCbor("record index invalid".to_owned()));
                },
            }
            i = i + 1;
        }
        let mut records: Vec<KeyVaultRecordContainerV1> = Vec::new();
        let mut k: usize = 0;
        while k < ids.len()
            invariant
                self.config == old(self).config,
                self.sessions == old(self).sessions,
                self.state == old(self).state,
            decreases ids@.len() - k,
        {
            let mut key = "record:".to_owned();
            key.append(ids[k].as_str());
            let got_record = match self.storage.get("keyvault", key.as_str()) {
                Ok(v) => v,
                Err(_) => {
                    return Err(KeyServiceError::StorageError("storage get failed".to_owned()));
                },
            };
            match got_record {
                Some(bytes) => {
                    let record = match decode_keyvault_record_container_v1(bytes.as_slice()) {
                        Ok(r) => r,
                        Err(e) => {
                            return Err(from_core(e));
                        },
                    };
                    records.push(record);
                },
                None => {},
            }
            k = k + 1;
        }
        Ok(records)
    }

    /// Loads and replays the whole ledger.
    fn load_keyvault_state(&mut self, header: &KeyVaultHeaderV1, vault_key: &Vec<u8>) -> (r:
        Result<(KeyVaultState, KeyVaultMaterialized), KeyServiceError>)
        ensures
            r is Ok ==> crate::keyvault::state_wf(r->Ok_0.0),
            final(self).config == old(self).config,
            final(self).sessions == old(self).sessions,
            final(self).state == old(self).state,
    {
        let records = self.load_all_record_containers()?;
        match KeyVaultState::apply_containers(header, vault_key.as_slice(), records.as_slice()) {
            Ok(sm) => Ok(sm),
            Err(e) => Err(KeyServiceError::InvalidFormat("keyvault replay failed".to_owned())),
        }
    }

    /// Re-derives the vault key from the passphrase and, when it matches
    /// the session's, raises the session to step-up with the shorter TTL.
    pub fn step_up(&mut self, session_id: &SessionId, passphrase_utf8: &[u8]) -> (r: Result<
        StepUpResponse,
        KeyServiceError,
    >)
        ensures
            r is Ok ==> r->Ok_0.expires_at_ms == r->Ok_0.issued_at_ms + old(self).config.policy.step_up_session_ttl_ms,
            r is Ok ==> final(self).sessions.sessions@.len() >= 1
                && final(self).sessions.sessions@.last().0@ == session_id.0@
                && final(self).sessions.sessions@.last().1.kind is StepUp
                && final(self).sessions.sessions@.last().1.assurance is Passphrase
                && final(self).sessions.sessions@.last().1.expires_at_ms
                == r->Ok_0.expires_at_ms,
            r is Ok ==> (manager_lookup(old(self).sessions.sessions@, session_id.0@) matches Some(
                s0,
            ) && exists|salt: Seq<u8>, mc: u32, tc: u32, pc: u32, nn: Seq<u8>, ad: Seq<u8>, ct: Seq<u8>|
                #[trigger] crate::crypto::aead_open_of(
                    crate::crypto::argon2id_of(passphrase_utf8@, salt, mc, tc, pc),
                    nn,
                    ad,
                    ct,
                ) == Some(s0.vault_key@)),
            r is Err ==> r->Err_0 is SessionInvalid || r->Err_0 is StepUpRequired
                || r->Err_0 is CryptoError || r->Err_0 is StorageError || r->Err_0 is InvalidCbor
                || r->Err_0 is InvalidFormat,
    {
        let header = match self.load_header() {
            Ok(h) => h,
            Err(e) => {
                return Err(e);
            },
        };
        let kek = match derive_kek(passphrase_utf8, &header.kdf) {
            Ok(k) => k,
            Err(_) => {
                return Err(KeyServiceError::CryptoError("kdf failed".to_owned()));
            },
        };
        let aad = match aad_keyvault_keywrap_v1(
            header.vault_id.as_str(),
            header.user_id.as_str(),
            &header.kdf,
            header.aead,
        ) {
            Ok(a) => a,
            Err(_) => {
                return Err(KeyServiceError::CryptoError("aad failed".to_owned()));
            },
        };
        let vault_key = match aead_decrypt(
            kek.as_slice(),
            aad.as_slice(),
            header.vault_key_wrap.nonce.as_slice(),
            header.vault_key_wrap.ct.as_slice(),
        ) {
            Ok(k) => k,
            Err(_) => {
                return Err(KeyServiceError::CryptoError("vault key unwrap failed".to_owned()));
            },
        };
        let now = self.clock.now_ms();
        match self.ensure_session_valid(now, session_id) {
            Ok(()) => {},
            Err(e) => {
                return Err(e);
            },
        }
        let mut session = match self.sessions.take(session_id) {
            Some(s) => s,
            None => {
                return Err(KeyServiceError::SessionInvalid);
            },
        };
        if !bytes_eq(&vault_key, &session.vault_key) {
            self.sessions.insert(SessionId(session.session_id.0.clone()), session);
            return Err(KeyServiceError::CryptoError("vault key mismatch".to_owned()));
        }
        let expires = match now.checked_add(self.config.policy.step_up_session_ttl_ms) {
            Some(e) => e,
            None => {
                self.sessions.insert(SessionId(session.session_id.0.clone()), session);
                return Err(KeyServiceError::CryptoError("clock overflow".to_owned()));
            },
        };
        proof {
            assert(crate::crypto::aead_open_of(
                crate::crypto::argon2id_of(
                    passphrase_utf8@,
                    header.kdf.salt@,
                    header.kdf.memory_kib,
                    header.kdf.iterations,
                    header.kdf.parallelism,
                ),
                header.vault_key_wrap.nonce@,
                aad@,
                header.vault_key_wrap.ct@,
            ) == Some(session.vault_key@));
        }
        session.kind = SessionKind::StepUp;
        session.assurance = SessionAssurance::Passphrase;
        session.issued_at_ms = now;
        session.expires_at_ms = expires;
        self.sessions.insert(SessionId(session_id.0.clone()), session);
        Ok(StepUpResponse { issued_at_ms: now, expires_at_ms: expires })
    }

    /// Extends a normal session by the normal TTL. Step-up sessions are
    /// refused: they must be earned afresh.
    pub fn renew_session(&mut self, session_id: &SessionId) -> (r: Result<
        RenewSessionResponse,
        KeyServiceError,
    >)
        ensures
            r is Ok ==> r->Ok_0.expires_at_ms == r->Ok_0.issued_at_ms + old(self).config.policy.normal_session_ttl_ms,
            r is Ok ==> (manager_lookup(old(self).sessions.sessions@, session_id.0@) matches Some(
                s,
            ) && s.kind is Normal) && final(self).sessions.sessions@.len() >= 1 && final(self).sessions.sessions@.last().0@ == session_id.0@ && final(self).sessions.sessions@.last().1.kind is Normal && final(self).sessions.sessions@.last().1.expires_at_ms == r->Ok_0.expires_at_ms,
            r is Err && r->Err_0 is StepUpRequired ==> (manager_lookup(
                old(self).sessions.sessions@,
                session_id.0@,
            ) matches Some(s) && s.kind is StepUp),
            manager_lookup(old(self).sessions.sessions@, session_id.0@) is None ==> r is Err
                && r->Err_0 is SessionInvalid,
            (manager_lookup(old(self).sessions.sessions@, session_id.0@) is Some && r is Err
                && r->Err_0 is SessionInvalid) ==> manager_lookup(
                final(self).sessions.sessions@,
                session_id.0@,
            ) is None,
            r is Err ==> r->Err_0 is SessionInvalid || r->Err_0 is StepUpRequired || r->Err_0 is CryptoError,
    {
        let now = self.clock.now_ms();
        self.ensure_session_valid(now, session_id)?;
        let mut session = match self.sessions.take(session_id) {
            Some(s) => s,
            None => {
                return Err(KeyServiceError::SessionInvalid);
            },
        };
        if session.kind == SessionKind::StepUp {
            self.sessions.insert(SessionId(session.session_id.0.clone()), session);
            return Err(KeyServiceError::StepUpRequired);
        }
        let expires = match now.checked_add(self.config.policy.normal_session_ttl_ms) {
            Some(e) => e,
            None => {
                self.sessions.insert(SessionId(session.session_id.0.clone()), session);
                return Err(KeyServiceError::CryptoError("clock overflow".to_owned()));
            },
        };
        session.issued_at_ms = now;
        session.expires_at_ms = expires;
        self.sessions.insert(SessionId(session_id.0.clone()), session);
        Ok(RenewSessionResponse { issued_at_ms: now, expires_at_ms: expires })
    }

    /// Destroys the session, wiping its keys, and unloads the vault.
    pub fn lock(&mut self, session_id: &SessionId) -> (r: Result<(), KeyServiceError>)
        ensures
            r is Ok <==> manager_lookup(old(self).sessions.sessions@, session_id.0@) is Some,
            r is Ok ==> final(self).state is None && manager_lookup(
                final(self).sessions.sessions@,
                session_id.0@,
            ) is None,
            r is Err ==> r->Err_0 is SessionInvalid && *final(self) == *old(self),
    {
        match self.sessions.expires_of(session_id) {
            None => Err(KeyServiceError::SessionInvalid),
            Some(_) => {
                self.sessions.remove(session_id);
                self.state = None;
                Ok(())
            },
        }
    }

    /// Removes one handle from the session, wiping its key.
    pub fn close_handle(&mut self, session_id: &SessionId, key_handle: &KeyHandle) -> (r: Result<
        (),
        KeyServiceError,
    >)
        ensures
            r is Ok ==> (manager_lookup(old(self).sessions.sessions@, session_id.0@) matches Some(
                s0,
            ) && final(self).sessions.sessions@.len() >= 1 && ({
                let stored = final(self).sessions.sessions@.last();
                &&& stored.0@ == session_id.0@
                &&& stored.1.handles@ == crate::session::remove_first(
                    s0.handles@,
                    key_handle.0@,
                )
            })),
            r is Err ==> r->Err_0 is SessionInvalid,
    {
        let now = self.clock.now_ms();
        self.ensure_session_valid(now, session_id)?;
        let mut session = match self.sessions.take(session_id) {
            Some(s) => s,
            None => {
                return Err(KeyServiceError::SessionInvalid);
            },
        };
        let ghost h0 = session.handles@;
        session.remove_handle(key_handle);
        proof {
            assert(session.handles@ == crate::session::remove_first(h0, key_handle.0@));
        }
        self.sessions.insert(SessionId(session_id.0.clone()), session);
        Ok(())
    }
    /// Encrypts under a resource-key handle with a fresh 12-byte nonce: the
    /// result is the nonce followed by the sealed payload, and decrypting it
    /// with the same key and associated data recovers the plaintext.
    pub fn encrypt(
        &mut self,
        session_id: &SessionId,
        resource_key_handle: &KeyHandle,
        aad: &[u8],
        plaintext: &[u8],
    ) -> (r: Result<EncryptResponse, KeyServiceError>)
        ensures
            r is Ok ==> (manager_lookup(old(self).sessions.sessions@, session_id.0@) matches Some(
                s,
            ) && (crate::session::handle_lookup(s.handles@, resource_key_handle.0@) matches Some(
                entry,
            ) && entry is ResourceKey && ({
                let ct = r->Ok_0.ciphertext@;
                &&& ct.len() == plaintext@.len() + 28
                &&& ct.subrange(12, ct.len() as int) == aead_seal_of(
                    crate::session::entry_key(entry),
                    ct.subrange(0, 12),
                    aad@,
                    plaintext@,
                )
                &&& aead_open_of(
                    crate::session::entry_key(entry),
                    ct.subrange(0, 12),
                    aad@,
                    ct.subrange(12, ct.len() as int),
                ) == Some(plaintext@)
            }))),
            r is Ok ==> final(self).state == old(self).state && final(self).sessions.sessions@.len() == old(self).sessions.sessions@.len(),
            r is Ok ==> (manager_lookup(old(self).sessions.sessions@, session_id.0@) matches Some(
                s,
            ) && final(self).sessions.sessions@.len() >= 1
                && final(self).sessions.sessions@.drop_last()
                == crate::session::remove_first_session(
                old(self).sessions.sessions@,
                session_id.0@,
            ) && ({
                let stored = final(self).sessions.sessions@.last();
                &&& stored.0@ == session_id.0@
                &&& (crate::session::find_handle(s.handles@, resource_key_handle.0@)
                    matches Some(p) && stored.1.handles@ == crate::session::remove_first(
                    s.handles@,
                    resource_key_handle.0@,
                ).push(p))
                &&& stored.1.kind == s.kind
                &&& stored.1.expires_at_ms == s.expires_at_ms
                &&& stored.1.vault_key@ == s.vault_key@
            })),
            r is Err && r->Err_0 is UnknownHandle ==> (manager_lookup(
                old(self).sessions.sessions@,
                session_id.0@,
            ) matches Some(s) && !(crate::session::handle_lookup(
                s.handles@,
                resource_key_handle.0@,
            ) matches Some(e) && e is ResourceKey)),
            r is Err ==> r->Err_0 is SessionInvalid || r->Err_0 is UnknownHandle
                || r->Err_0 is CryptoError,
    {
        let now = self.clock.now_ms();
        match self.ensure_session_valid(now, session_id) {
            Ok(()) => {},
            Err(e) => {
                return Err(e);
            },
        }
        let mut session = match self.sessions.take(session_id) {
            Some(s) => s,
            None => {
                return Err(KeyServiceError::SessionInvalid);
            },
        };
        let entry = match session.get_handle(resource_key_handle) {
            Some(e) => e,
            None => {
                self.sessions.insert(SessionId(session_id.0.clone()), session);
                return Err(KeyServiceError::UnknownHandle);
            },
        };
        if !entry.is_resource() {
            self.sessions.insert(SessionId(session_id.0.clone()), session);
            return Err(KeyServiceError::UnknownHandle);
        }
        let resource_key = entry.key_bytes();
        self.sessions.insert(SessionId(session_id.0.clone()), session);
        let nonce = self.entropy.random_bytes(12);
        let ct = match aead_encrypt(resource_key.as_slice(), aad, plaintext, nonce.as_slice()) {
            Ok(c) => c,
            Err(_) => {
                return Err(KeyServiceError::CryptoError("encrypt failed".to_owned()));
            },
        };
        let ghost nv = nonce@;
        let mut ciphertext = nonce;
        crate::cbor::push_bytes(&mut ciphertext, ct.as_slice());
        proof {
            assert(ciphertext@.subrange(0, 12) =~= nv);
            assert(ciphertext@.subrange(12, ciphertext@.len() as int) =~= ct@);
        }
        Ok(EncryptResponse { ciphertext })
    }

    /// Decrypts under a resource-key handle: the first 12 bytes are the
    /// nonce and the rest the sealed payload. Short inputs and
    /// authentication failures are crypto errors.
    pub fn decrypt(
        &mut self,
        session_id: &SessionId,
        resource_key_handle: &KeyHandle,
        aad: &[u8],
        ciphertext: &[u8],
    ) -> (r: Result<DecryptResponse, KeyServiceError>)
        ensures
            r is Ok ==> ciphertext@.len() >= 12 && (manager_lookup(
                old(self).sessions.sessions@,
                session_id.0@,
            ) matches Some(s) && (crate::session::handle_lookup(
                s.handles@,
                resource_key_handle.0@,
            ) matches Some(entry) && entry is ResourceKey && aead_open_of(
                crate::session::entry_key(entry),
                ciphertext@.subrange(0, 12),
                aad@,
                ciphertext@.subrange(12, ciphertext@.len() as int),
            ) == Some(r->Ok_0.plaintext@))),
            r is Ok ==> final(self).state == old(self).state && final(self).sessions.sessions@.len() == old(self).sessions.sessions@.len(),
            r is Ok ==> (manager_lookup(old(self).sessions.sessions@, session_id.0@) matches Some(
                s,
            ) && final(self).sessions.sessions@.len() >= 1
                && final(self).sessions.sessions@.drop_last()
                == crate::session::remove_first_session(
                old(self).sessions.sessions@,
                session_id.0@,
            ) && ({
                let stored = final(self).sessions.sessions@.last();
                &&& stored.0@ == session_id.0@
                &&& (crate::session::find_handle(s.handles@, resource_key_handle.0@)
                    matches Some(p) && stored.1.handles@ == crate::session::remove_first(
                    s.handles@,
                    resource_key_handle.0@,
                ).push(p))
                &&& stored.1.kind == s.kind
                &&& stored.1.expires_at_ms == s.expires_at_ms
                &&& stored.1.vault_key@ == s.vault_key@
            })),
            r is Err && r->Err_0 is UnknownHandle ==> (manager_lookup(
                old(self).sessions.sessions@,
                session_id.0@,
            ) matches Some(s) && !(crate::session::handle_lookup(
                s.handles@,
                resource_key_handle.0@,
            ) matches Some(e) && e is ResourceKey)),
            (manager_lookup(old(self).sessions.sessions@, session_id.0@) matches Some(s)
                && (crate::session::handle_lookup(s.handles@, resource_key_handle.0@)
                matches Some(e) && e is ResourceKey) && ciphertext@.len() < 12 && r is Err && !(
            r->Err_0 is SessionInvalid)) ==> r->Err_0 is CryptoError,
            r is Err ==> r->Err_0 is SessionInvalid || r->Err_0 is UnknownHandle
                || r->Err_0 is CryptoError,
    {
        let now = self.clock.now_ms();
        match self.ensure_session_valid(now, session_id) {
            Ok(()) => {},
            Err(e) => {
                return Err(e);
            },
        }
        let mut session = match self.sessions.take(session_id) {
            Some(s) => s,
            None => {
                return Err(KeyServiceError::SessionInvalid);
            },
        };
        let entry = match session.get_handle(resource_key_handle) {
            Some(e) => e,
            None => {
                self.sessions.insert(SessionId(session_id.0.clone()), session);
                return Err(KeyServiceError::UnknownHandle);
            },
        };
        if !entry.is_resource() {
            self.sessions.insert(SessionId(session_id.0.clone()), session);
            return Err(KeyServiceError::UnknownHandle);
        }
        let resource_key = entry.key_bytes();
        self.sessions.insert(SessionId(session_id.0.clone()), session);
        if ciphertext.len() < 12 {
            return Err(KeyServiceError::CryptoError("ciphertext too short".to_owned()));
        }
        let nonce = crate::cbor::slice_to_vec(ciphertext, 0, 12);
        let ct = crate::cbor::slice_to_vec(ciphertext, 12, ciphertext.len());
        let pt = match aead_decrypt(
            resource_key.as_slice(),
            aad,
            nonce.as_slice(),
            ct.as_slice(),
        ) {
            Ok(p) => p,
            Err(_) => {
                return Err(KeyServiceError::CryptoError("decrypt failed".to_owned()));
            },
        };
        Ok(DecryptResponse { plaintext: pt })
    }

    /// Signs with the device's hybrid signing keypair: both component
    /// signatures over the same bytes, packed canonically.
    pub fn sign(&mut self, session_id: &SessionId, data: &[u8]) -> (r: Result<
        SignResponse,
        KeyServiceError,
    >)
        ensures
            r is Ok ==> r->Ok_0.ciphersuite is HybridSig1 && (old(self).state matches Some(st)
                && st.keyvault_materialized.device_signing_keys@.len() > 0 && ({
                let kp = st.keyvault_materialized.device_signing_keys@[0].1;
                &&& r->Ok_0.signature@ == cbor_enc(
                    two_bytes_val(
                        crate::ciphersuite::ed25519_sig_of(kp.ed25519_priv@, data@),
                        crate::ciphersuite::mldsa_sig_of(kp.mldsa_priv@, data@),
                    ),
                )
                &&& ((kp.ed25519_pub@ == crate::ciphersuite::ed25519_pub_of(kp.ed25519_priv@)
                    && kp.ed25519_pub@.len() == 32 && kp.mldsa_pub@
                    == crate::ciphersuite::mldsa_pub_of(kp.mldsa_priv@) && kp.mldsa_pub@.len()
                    == 1952) ==> hybrid_sig_ok(
                    data@,
                    r->Ok_0.signature@,
                    SigCiphersuiteId::HybridSig1,
                    kp.ed25519_pub@,
                    kp.mldsa_pub@,
                ))
            })),
    {
        let now = self.clock.now_ms();
        self.ensure_session_valid(now, session_id)?;
        let signature = match &self.state {
            None => {
                return Err(KeyServiceError::CryptoError("keyvault not loaded".to_owned()));
            },
            Some(st) => {
                let signing = match st.keyvault_materialized.first_signing_key() {
                    Some(k) => k,
                    None => {
                        return Err(
                            KeyServiceError::CryptoError("no device signing key".to_owned()),
                        );
                    },
                };
                match hybrid_sign(data, signing) {
                    Ok(sig) => sig,
                    Err(_) => {
                        return Err(KeyServiceError::CryptoError("sign failed".to_owned()));
                    },
                }
            },
        };
        Ok(SignResponse { signature, ciphersuite: SigCiphersuiteId::HybridSig1 })
    }

    /// Verifies a packed hybrid signature against the roster: true exactly
    /// when the claimed signer is trusted for the scope and both components
    /// verify.
    pub fn verify(
        &mut self,
        scope_id: ScopeId,
        signer_device_id: DeviceId,
        data: &[u8],
        signature: &[u8],
        ciphersuite: SigCiphersuiteId,
    ) -> (r: Result<VerifyResponse, KeyServiceError>)
        ensures
            r is Ok <==> (ciphersuite is HybridSig1 && old(self).state is Some && roster_signer(
                old(self).state->Some_0.signer_roster.scopes@,
                scope_id.0@,
                signer_device_id.0@,
            ) is Some),
            r is Ok ==> (old(self).state matches Some(st) && (roster_signer(
                st.signer_roster.scopes@,
                scope_id.0@,
                signer_device_id.0@,
            ) matches Some(sk) && r->Ok_0.ok == (sk.sig_suite is HybridSig1 && hybrid_sig_ok(
                data@,
                signature@,
                sk.sig_suite,
                sk.ed25519_pub@,
                sk.mldsa_pub@,
            )))),
            r is Err ==> (r->Err_0 is InvalidFormat <==> !(ciphersuite is HybridSig1)),
            r is Err && ciphersuite is HybridSig1 ==> (r->Err_0 is UnknownScope <==> old(self).state is None),
            r is Err ==> r->Err_0 is InvalidFormat || r->Err_0 is UnknownScope
                || r->Err_0 is UntrustedSigner,
            *final(self) == *old(self),
    {
        if ciphersuite != SigCiphersuiteId::HybridSig1 {
            return Err(KeyServiceError::InvalidFormat("unsupported signature suite".to_owned()));
        }
        let ok = match &self.state {
            None => {
                return Err(KeyServiceError::UnknownScope);
            },
            Some(st) => {
                let signer = match st.signer_roster.get_signer(&scope_id, &signer_device_id) {
                    Some(s) => s,
                    None => {
                        return Err(KeyServiceError::UntrustedSigner);
                    },
                };
                hybrid_verify(data, signature, &signer)
            },
        };
        Ok(VerifyResponse { ok })
    }

    /// Looks the scope key up in the materialized map and issues a handle
    /// for it. A missing key is `ScopeKeyMissing`.
    pub fn open_scope(
        &mut self,
        session_id: &SessionId,
        scope_id: ScopeId,
        scope_epoch: ScopeEpoch,
    ) -> (r: Result<OpenScopeResponse, KeyServiceError>)
        ensures
            r is Ok ==> (old(self).state matches Some(st) && (crate::keyvault::scope_key_spec(
                st.keyvault_materialized.scope_keys@,
                scope_id.0@,
                scope_epoch.0,
            ) matches Some(k) && final(self).sessions.sessions@.len() >= 1 && ({
                let stored = final(self).sessions.sessions@.last();
                &&& stored.0@ == session_id.0@
                &&& stored.1.handles@.len() >= 1
                &&& stored.1.handles@.last().0@ == r->Ok_0.scope_key_handle.0@
                &&& stored.1.handles@.last().1 is ScopeKey
                &&& crate::session::entry_key(stored.1.handles@.last().1) == k
            }))),
            old(self).state is None ==> r is Err && r->Err_0 is ScopeKeyMissing,
            (old(self).state matches Some(st) && crate::keyvault::scope_key_spec(
                st.keyvault_materialized.scope_keys@,
                scope_id.0@,
                scope_epoch.0,
            ) is None) ==> r is Err && r->Err_0 is ScopeKeyMissing,
            r is Err ==> r->Err_0 is ScopeKeyMissing || r->Err_0 is SessionInvalid
                || r->Err_0 is CryptoError,
    {
        let key = match &self.state {
            None => {
                return Err(KeyServiceError::ScopeKeyMissing);
            },
            Some(st) => {
                match st.keyvault_materialized.lookup_scope_key(
                    scope_id.0.as_str(),
                    scope_epoch.0,
                ) {
                    Some(k) => k,
                    None => {
                        return Err(KeyServiceError::ScopeKeyMissing);
                    },
                }
            },
        };
        let now = self.clock.now_ms();
        self.ensure_session_valid(now, session_id)?;
        let mut session = match self.sessions.take(session_id) {
            Some(s) => s,
            None => {
                return Err(KeyServiceError::SessionInvalid);
            },
        };
        let entry = HandleEntry::ScopeKey { scope_id, scope_epoch, key };
        let handle = match session.insert_handle(entry) {
            Ok(h) => h,
            Err(_) => {
                self.sessions.insert(SessionId(session_id.0.clone()), session);
                return Err(KeyServiceError::CryptoError("entropy failed".to_owned()));
            },
        };
        self.sessions.insert(SessionId(session_id.0.clone()), session);
        Ok(OpenScopeResponse { scope_key_handle: handle })
    }

    /// Emits the canonical snapshot of the whole vault. Step-up is
    /// required: a normal session is refused.
    pub fn export_keyvault(&mut self, session_id: &SessionId) -> (r: Result<
        Vec<u8>,
        KeyServiceError,
    >)
        ensures
            r is Ok ==> (manager_lookup(old(self).sessions.sessions@, session_id.0@) matches Some(
                s,
            ) && s.kind is StepUp),
            (manager_lookup(old(self).sessions.sessions@, session_id.0@) matches Some(s)
                && s.kind is Normal) ==> r is Err && (r->Err_0 is StepUpRequired
                || r->Err_0 is SessionInvalid),
            (manager_lookup(old(self).sessions.sessions@, session_id.0@) matches Some(s)
                && s.kind is Normal && r is Err && r->Err_0 is StepUpRequired) ==> final(self).sessions
                == old(self).sessions && final(self).state == old(self).state
                && final(self).config == old(self).config,
            (manager_lookup(old(self).sessions.sessions@, session_id.0@) is Some && r is Err
                && r->Err_0 is SessionInvalid) ==> manager_lookup(
                final(self).sessions.sessions@,
                session_id.0@,
            ) is None,
            r is Ok ==> final(self).sessions == old(self).sessions && final(self).state == old(self).state && final(self).config == old(self).config,
            r is Ok ==> exists|snap: KeyVaultSnapshotV1|
                r->Ok_0@ == cbor_enc(#[trigger] crate::formats::snapshot_val(snap)),
    {
        let now = self.clock.now_ms();
        self.ensure_session_valid(now, session_id)?;
        let kind = match self.sessions.expires_of(session_id) {
            Some(info) => info.1,
            None => {
                return Err(KeyServiceError::SessionInvalid);
            },
        };
        if kind != SessionKind::StepUp {
            return Err(KeyServiceError::StepUpRequired);
        }
        let header = self.load_header()?;
        let records = self.load_all_record_containers()?;
        let snapshot = KeyVaultSnapshotV1 { header, records };
        match encode_keyvault_snapshot_v1(&snapshot) {
            Ok(b) => {
                proof {
                    assert(b@ == cbor_enc(crate::formats::snapshot_val(snapshot)));
                }
                Ok(b)
            },
            Err(e) => Err(from_core(e)),
        }
    }

    /// Imports a snapshot, rewriting the header, every record entry, and
    /// the record index. Step-up is required.
    pub fn import_keyvault(&mut self, session_id: &SessionId, blob: &[u8]) -> (r: Result<
        (),
        KeyServiceError,
    >)
        ensures
            r is Ok ==> (manager_lookup(old(self).sessions.sessions@, session_id.0@) matches Some(
                s,
            ) && s.kind is StepUp),
            (manager_lookup(old(self).sessions.sessions@, session_id.0@) matches Some(s)
                && s.kind is Normal) ==> r is Err && (r->Err_0 is StepUpRequired
                || r->Err_0 is SessionInvalid),
            (manager_lookup(old(self).sessions.sessions@, session_id.0@) matches Some(s)
                && s.kind is Normal && r is Err && r->Err_0 is StepUpRequired) ==> final(self).sessions
                == old(self).sessions && final(self).state == old(self).state
                && final(self).config == old(self).config,
            (manager_lookup(old(self).sessions.sessions@, session_id.0@) is Some && r is Err
                && r->Err_0 is SessionInvalid) ==> manager_lookup(
                final(self).sessions.sessions@,
                session_id.0@,
            ) is None,
    {
        let now = self.clock.now_ms();
        self.ensure_session_valid(now, session_id)?;
        let kind = match self.sessions.expires_of(session_id) {
            Some(info) => info.1,
            None => {
                return Err(KeyServiceError::SessionInvalid);
            },
        };
        if kind != SessionKind::StepUp {
            return Err(KeyServiceError::StepUpRequired);
        }
        let limits = self.cbor_limits();
        let value = match decode_canonical_value(blob, &limits) {
            Ok(v) => v,
            Err(e) => {
                return Err(from_core(e));
            },
        };
        let snapshot = match KeyVaultSnapshotV1::from_cbor(&value) {
            Ok(sn) => sn,
            Err(e) => {
                return Err(from_core(e));
            },
        };
        let header_bytes = match encode_keyvault_header_v1(&snapshot.header) {
            Ok(b) => b,
            Err(e) => {
                return Err(from_core(e));
            },
        };
        if self.storage.put("keyvault", "header", header_bytes.as_slice()).is_err() {
            return Err(KeyServiceError::StorageError("storage put failed".to_owned()));
        }
        let mut index: Vec<CborValue> = Vec::new();
        let mut i: usize = 0;
        while i < snapshot.records.len()
            invariant
                manager_lookup(old(self).sessions.sessions@, session_id.0@) matches Some(s)
                    && s.kind is StepUp,
                forall|q: int| 0 <= q < index@.len() ==> cbor_canon(#[trigger] index@[q]@),
            decreases snapshot.records@.len() - i,
        {
            let record = &snapshot.records[i];
            let bytes = match encode_keyvault_record_container_v1(record) {
                Ok(b) => b,
                Err(e) => {
                    return Err(from_core(e));
                },
            };
            let mut key = "record:".to_owned();
            key.append(record.record_id.as_str());
            if self.storage.put("keyvault", key.as_str(), bytes.as_slice()).is_err() {
                return Err(KeyServiceError::StorageError("storage put failed".to_owned()));
            }
            index.push(cbor_text(record.record_id.as_str()));
            i = i + 1;
        }
        let ghost iv = index@;
        let index_value = cbor_array(index);
        proof {
            crate::cbor::lemma_view_list(iv);
            assert forall|q: int| 0 <= q < view_list(iv).len() implies cbor_canon(
                #[trigger] view_list(iv)[q],
            ) by {
                assert(view_list(iv)[q] == iv[q]@);
            }
            lemma_canon_list_build(view_list(iv));
        }
        let index_bytes = crate::cbor::encode_canon_value(&index_value);
        if self.storage.put("keyvault", "record_index", index_bytes.as_slice()).is_err() {
            return Err(KeyServiceError::StorageError("storage put failed".to_owned()));
        }
        Ok(())
    }

    /// Rewraps the vault key under a new passphrase with fresh KDF
    /// parameters and salt, rewriting the header. Step-up is required.
    pub fn change_passphrase(&mut self, session_id: &SessionId, new_passphrase_utf8: &[u8]) -> (r:
        Result<(), KeyServiceError>)
        ensures
            r is Ok ==> (manager_lookup(old(self).sessions.sessions@, session_id.0@) matches Some(
                s,
            ) && s.kind is StepUp),
            (manager_lookup(old(self).sessions.sessions@, session_id.0@) matches Some(s)
                && s.kind is Normal) ==> r is Err && (r->Err_0 is StepUpRequired
                || r->Err_0 is SessionInvalid || r->Err_0 is StorageError
                || r->Err_0 is InvalidFormat || r->Err_0 is InvalidCbor),
            (manager_lookup(old(self).sessions.sessions@, session_id.0@) matches Some(s)
                && s.kind is Normal && r is Err && r->Err_0 is StepUpRequired) ==> final(self).sessions
                == old(self).sessions && final(self).state == old(self).state,
    {
        let mut header = self.load_header()?;
        let now = self.clock.now_ms();
        self.ensure_session_valid(now, session_id)?;
        let kind = match self.sessions.expires_of(session_id) {
            Some(info) => info.1,
            None => {
                return Err(KeyServiceError::SessionInvalid);
            },
        };
        if kind != SessionKind::StepUp {
            return Err(KeyServiceError::StepUpRequired);
        }
        let mut session = match self.sessions.take(session_id) {
            Some(s) => s,
            None => {
                return Err(KeyServiceError::SessionInvalid);
            },
        };
        let vault_key = clone_bytes(&session.vault_key);
        self.sessions.insert(SessionId(session_id.0.clone()), session);
        let new_kdf = match KdfParams::new_random() {
            Ok(p) => p,
            Err(_) => {
                return Err(KeyServiceError::CryptoError("entropy failed".to_owned()));
            },
        };
        let kek = match derive_kek(new_passphrase_utf8, &new_kdf) {
            Ok(k) => k,
            Err(_) => {
                return Err(KeyServiceError::CryptoError("kdf failed".to_owned()));
            },
        };
        let aad = match aad_keyvault_keywrap_v1(
            header.vault_id.as_str(),
            header.user_id.as_str(),
            &new_kdf,
            header.aead,
        ) {
            Ok(a) => a,
            Err(_) => {
                return Err(KeyServiceError::CryptoError("aad failed".to_owned()));
            },
        };
        let nonce = self.entropy.random_bytes(12);
        let ct = match aead_encrypt(
            kek.as_slice(),
            aad.as_slice(),
            vault_key.as_slice(),
            nonce.as_slice(),
        ) {
            Ok(c) => c,
            Err(_) => {
                return Err(KeyServiceError::CryptoError("vault key wrap failed".to_owned()));
            },
        };
        header.kdf = new_kdf;
        header.vault_key_wrap = crate::formats::VaultKeyWrapV1 {
            aead: AeadId::Aead1,
            nonce,
            ct,
        };
        let header_bytes = match encode_keyvault_header_v1(&header) {
            Ok(b) => b,
            Err(e) => {
                return Err(from_core(e));
            },
        };
        if self.storage.put("keyvault", "header", header_bytes.as_slice()).is_err() {
            return Err(KeyServiceError::StorageError("storage put failed".to_owned()));
        }
        Ok(())
    }

    /// Persists one record container and mirrors it in the header's record
    /// list and the record index.
    fn persist_record_container(&mut self, container: &KeyVaultRecordContainerV1) -> (r: Result<
        (),
        KeyServiceError,
    >)
        ensures
            final(self).config == old(self).config,
            final(self).sessions == old(self).sessions,
            final(self).state == old(self).state,
            r is Err ==> r->Err_0 is StorageError || r->Err_0 is InvalidCbor
                || r->Err_0 is InvalidFormat,
    {
        let bytes = match encode_keyvault_record_container_v1(container) {
            Ok(b) => b,
            Err(e) => {
                return Err(from_core(e));
            },
        };
        let mut key = "record:".to_owned();
        key.append(container.record_id.as_str());
        if self.storage.put("keyvault", key.as_str(), bytes.as_slice()).is_err() {
            return Err(KeyServiceError::StorageError("storage put failed".to_owned()));
        }
        let mut header = self.load_header()?;
        let mut present = false;
        let mut i: usize = 0;
        while i < header.records.len()
            decreases header.records@.len() - i,
        {
            if str_eq(
                header.records[i].record_id.as_str(),
                container.record_id.as_str(),
            ) {
                present = true;
            }
            i = i + 1;
        }
        if !present {
            header.records.push(container.clone());
            let header_bytes = match encode_keyvault_header_v1(&header) {
                Ok(b) => b,
                Err(e) => {
                    return Err(from_core(e));
                },
            };
            if self.storage.put("keyvault", "header", header_bytes.as_slice()).is_err() {
                return Err(KeyServiceError::StorageError("storage put failed".to_owned()));
            }
        }
        let mut ids = self.load_record_index()?;
        let mut found = false;
        let mut k: usize = 0;
        while k < ids.len()
            decreases ids@.len() - k,
        {
            if str_eq(ids[k].as_str(), container.record_id.as_str()) {
                found = true;
            }
            k = k + 1;
        }
        if !found {
            ids.push(container.record_id.clone());
        }
        let mut index: Vec<CborValue> = Vec::new();
        let mut t: usize = 0;
        while t < ids.len()
            invariant
                forall|q: int| 0 <= q < index@.len() ==> cbor_canon(#[trigger] index@[q]@),
            decreases ids@.len() - t,
        {
            index.push(cbor_text(ids[t].as_str()));
            t = t + 1;
        }
        let ghost iv = index@;
        let index_value = cbor_array(index);
        proof {
            crate::cbor::lemma_view_list(iv);
            assert forall|q: int| 0 <= q < view_list(iv).len() implies cbor_canon(
                #[trigger] view_list(iv)[q],
            ) by {
                assert(view_list(iv)[q] == iv[q]@);
            }
            lemma_canon_list_build(view_list(iv));
        }
        let index_bytes = crate::cbor::encode_canon_value(&index_value);
        if self.storage.put("keyvault", "record_index", index_bytes.as_slice()).is_err() {
            return Err(KeyServiceError::StorageError("storage put failed".to_owned()));
        }
        Ok(())
    }

    /// Reads the record index as a list of record ids.
    fn load_record_index(&mut self) -> (r: Result<Vec<String>, KeyServiceError>)
        ensures
            final(self).config == old(self).config,
            final(self).sessions == old(self).sessions,
            final(self).state == old(self).state,
            r is Err ==> r->Err_0 is StorageError || r->Err_0 is InvalidCbor
                || r->Err_0 is InvalidFormat,
    {
        let got = match self.storage.get("keyvault", "record_index") {
            Ok(v) => v,
            Err(_) => {
                return Err(KeyServiceError::StorageError("storage get failed".to_owned()));
            },
        };
        let index_bytes = match got {
            Some(b) => b,
            None => {
                return Ok(Vec::new());
            },
        };
        if index_bytes.len() == 0 {
            return Ok(Vec::new());
        }
        let limits = self.cbor_limits();
        let value = match decode_canonical_value(index_bytes.as_slice(), &limits) {
            Ok(v) => v,
            Err(e) => {
                return Err(from_core(e));
            },
        };
        let arr = match crate::cbor::as_array(&value) {
            Ok(a) => a,
            Err(e) => {
                return Err(from_core(e));
            },
        };
        let mut ids: Vec<String> = Vec::new();
        let mut i: usize = 0;
        while i < arr.len()
            invariant
                self.config == old(self).config,
                self.sessions == old(self).sessions,
                self.state == old(self).state,
            decreases arr@.len() - i,
        {
            match &arr[i] {
                CborValue::Text(t) => {
                    ids.push(t.clone());
                },
                _ => {
                    return Err(KeyServiceError::InvalidCbor("record index invalid".to_owned()));
                },
            }
            i = i + 1;
        }
        Ok(ids)
    }

    /// Appends a scope-key record to the ledger, persists it, and
    /// materializes the key.
    pub fn persist_scope_key(
        &mut self,
        session_id: &SessionId,
        scope_id: &ScopeId,
        scope_epoch: ScopeEpoch,
        scope_key: &[u8],
    ) -> (r: Result<(), KeyServiceError>)
        ensures
            old(self).state is None ==> r is Err,
            r is Ok ==> (old(self).state matches Some(st0) && (final(self).state matches Some(st)
                && crate::keyvault::state_wf(st.keyvault_state) && st.keyvault_state.head_seq
                == st0.keyvault_state.head_seq + 1 && crate::keyvault::scope_key_spec(
                st.keyvault_materialized.scope_keys@,
                scope_id.0@,
                scope_epoch.0,
            ) == Some(scope_key@) && st.signer_roster == st0.signer_roster)),
            (old(self).state is Some && r is Err && !(r->Err_0 is SessionInvalid)) ==> (old(self).state matches Some(st0) && (final(self).state matches Some(stf)
                && stf.signer_roster == st0.signer_roster)),
    {
        let header = self.load_header()?;
        let now = self.clock.now_ms();
        self.ensure_session_valid(now, session_id)?;
        let mut session = match self.sessions.take(session_id) {
            Some(s) => s,
            None => {
                return Err(KeyServiceError::SessionInvalid);
            },
        };
        let vault_key = clone_bytes(&session.vault_key);
        self.sessions.insert(SessionId(session_id.0.clone()), session);
        let id_bytes = self.entropy.random_bytes(16);
        let record_id = uuid_like(&id_bytes);
        let record = make_store_scope_key_record(
            record_id.as_str(),
            scope_id.0.as_str(),
            scope_epoch.0,
            scope_key,
        );
        let mut st_opt: Option<KeyServiceState> = None;
        core::mem::swap(&mut st_opt, &mut self.state);
        let mut st = match st_opt {
            Some(st) => st,
            None => {
                return Err(KeyServiceError::CryptoError("keyvault not loaded".to_owned()));
            },
        };
        if st.keyvault_state.head_seq == u64::MAX {
            self.state = Some(st);
            return Err(KeyServiceError::InvalidFormat("keyvault full".to_owned()));
        }
        let seq = st.keyvault_state.head_seq + 1;
        if !crate::keyvault::check_state_wf(&st.keyvault_state) {
            self.state = Some(st);
            return Err(KeyServiceError::InvalidFormat("keyvault state invalid".to_owned()));
        }
        let container = match st.keyvault_state.append_record(
            &header,
            vault_key.as_slice(),
            &record,
            seq,
        ) {
            Ok(c) => c,
            Err(e) => {
                self.state = Some(st);
                return Err(from_core(e));
            },
        };
        st.keyvault_materialized.scope_keys.push(
            ((scope_id.0.clone(), scope_epoch.0), crate::cbor::slice_to_vec(
                scope_key,
                0,
                scope_key.len(),
            )),
        );
        self.state = Some(st);
        self.persist_record_container(&container)?;
        Ok(())
    }

    /// Appends a resource-key record to the ledger, persists it, and
    /// materializes the key.
    pub fn persist_resource_key(
        &mut self,
        session_id: &SessionId,
        resource_id: &ResourceId,
        resource_key_id: &ResourceKeyId,
        resource_key: &[u8],
    ) -> (r: Result<(), KeyServiceError>)
        ensures
            old(self).state is None ==> r is Err,
            r is Ok ==> (old(self).state matches Some(st0) && (final(self).state matches Some(st)
                && crate::keyvault::state_wf(st.keyvault_state) && st.keyvault_state.head_seq
                == st0.keyvault_state.head_seq + 1 && crate::keyvault::resource_key_spec(
                st.keyvault_materialized.resource_keys@,
                resource_id.0@,
                resource_key_id.0@,
            ) == Some(resource_key@) && st.signer_roster == st0.signer_roster)),
            (old(self).state is Some && r is Err && !(r->Err_0 is SessionInvalid)) ==> (old(self).state matches Some(st0) && (final(self).state matches Some(stf)
                && stf.signer_roster == st0.signer_roster)),
    {
        let header = self.load_header()?;
        let now = self.clock.now_ms();
        self.ensure_session_valid(now, session_id)?;
        let mut session = match self.sessions.take(session_id) {
            Some(s) => s,
            None => {
                return Err(KeyServiceError::SessionInvalid);
            },
        };
        let vault_key = clone_bytes(&session.vault_key);
        self.sessions.insert(SessionId(session_id.0.clone()), session);
        let id_bytes = self.entropy.random_bytes(16);
        let record_id = uuid_like(&id_bytes);
        let record = make_store_resource_key_record(
            record_id.as_str(),
            resource_id.0.as_str(),
            resource_key_id.0.as_str(),
            resource_key,
        );
        let mut st_opt: Option<KeyServiceState> = None;
        core::mem::swap(&mut st_opt, &mut self.state);
        let mut st = match st_opt {
            Some(st) => st,
            None => {
                return Err(KeyServiceError::CryptoError("keyvault not loaded".to_owned()));
            },
        };
        if st.keyvault_state.head_seq == u64::MAX {
            self.state = Some(st);
            return Err(KeyServiceError::InvalidFormat("keyvault full".to_owned()));
        }
        let seq = st.keyvault_state.head_seq + 1;
        if !crate::keyvault::check_state_wf(&st.keyvault_state) {
            self.state = Some(st);
            return Err(KeyServiceError::InvalidFormat("keyvault state invalid".to_owned()));
        }
        let container = match st.keyvault_state.append_record(
            &header,
            vault_key.as_slice(),
            &record,
            seq,
        ) {
            Ok(c) => c,
            Err(e) => {
                self.state = Some(st);
                return Err(from_core(e));
            },
        };
        st.keyvault_materialized.resource_keys.push(
            ((resource_id.0.clone(), resource_key_id.0.clone()), crate::cbor::slice_to_vec(
                resource_key,
                0,
                resource_key.len(),
            )),
        );
        self.state = Some(st);
        self.persist_record_container(&container)?;
        Ok(())
    }

    /// Validates and ingests a signed scope state: the hybrid signature
    /// must verify over the to-be-signed form under the payload's signer
    /// keys, and an expected signer fingerprint, when given, must match.
    /// The first accepted state of a scope is the trust-on-first-use
    /// moment: the signer and the state's reference join the roster.
    #[verifier::rlimit(100)]
    pub fn ingest_scope_state(
        &mut self,
        session_id: &SessionId,
        scope_state_cbor: &[u8],
        expected_owner_signer_fingerprint: Option<String>,
    ) -> (r: Result<IngestScopeStateResponse, KeyServiceError>)
        ensures
            r is Ok ==> (crate::cbor::decode_spec(
                scope_state_cbor@,
                old(self).config.policy.max_cbor_bytes as int,
                old(self).config.policy.max_cbor_depth as int,
                old(self).config.policy.max_cbor_items as int,
            ) matches Some(v) && crate::formats::scope_state_shape(v) && exists|st: ScopeStateV1|
                #[trigger] crate::formats::scope_state_from(st, v->Dict_0) && cbor_canon(
                    st.payload@,
                ) && (st.payload@ is Dict && (crate::cbor::map_get_spec(
                    st.payload@->Dict_0,
                    1,
                ) matches Some(edk) && (crate::cbor::map_get_spec(
                    st.payload@->Dict_0,
                    2,
                ) matches Some(mlk) && edk is Bytes && mlk is Bytes && hybrid_sig_ok(
                    cbor_enc(crate::formats::scope_state_tbs_val(st)),
                    st.signature@,
                    SigCiphersuiteId::HybridSig1,
                    edk->Bytes_0,
                    mlk->Bytes_0,
                ) && (expected_owner_signer_fingerprint matches Some(expected) ==> expected@
                    == hex_of(sha256_of(edk->Bytes_0 + mlk->Bytes_0)))))) && r->Ok_0.scope_state_ref@ == hex_of(crate::formats::scope_state_ref_of(st))
                    && r->Ok_0.scope_id.0@ == st.scope_id.0@ && (final(self).state matches Some(
                    fs,
                ) && roster_signer(
                    fs.signer_roster.scopes@,
                    st.scope_id.0@,
                    st.signer_device_id.0@,
                ) is Some && roster_has_ref(
                    fs.signer_roster.scope_state_refs@,
                    st.scope_id.0@,
                    r->Ok_0.scope_state_ref@,
                ))),
            r is Err && !(r->Err_0 is SessionInvalid) ==> final(self).sessions
                == old(self).sessions && final(self).state == old(self).state
                && final(self).config == old(self).config,
            r is Err ==> r->Err_0 is SessionInvalid || r->Err_0 is InvalidCbor
                || r->Err_0 is InvalidFormat || r->Err_0 is CryptoError
                || r->Err_0 is FingerprintMismatch || r->Err_0 is StorageError,
    {
        let now = self.clock.now_ms();
        self.ensure_session_valid(now, session_id)?;
        let limits = self.cbor_limits();
        let value = match decode_canonical_value(scope_state_cbor, &limits) {
            Ok(v) => v,
            Err(e) => {
                return Err(from_core(e));
            },
        };
        let scope_state = match ScopeStateV1::from_cbor(&value) {
            Ok(s) => s,
            Err(e) => {
                return Err(from_core(e));
            },
        };
        let ghost gst = scope_state;
        proof {
            crate::cbor::lemma_canon_dict_parts(value@);
            crate::cbor::lemma_map_get_canon(value@->Dict_0, 6);
        }
        let to_verify = match scope_state.to_be_signed_bytes() {
            Ok(b) => b,
            Err(e) => {
                return Err(from_core(e));
            },
        };
        let signer_keys = extract_signer_keys(&scope_state)?;
        match expected_owner_signer_fingerprint {
            Some(expected) => {
                let fingerprint = fingerprint_signer(&signer_keys);
                if !str_eq(fingerprint.as_str(), expected.as_str()) {
                    return Err(KeyServiceError::FingerprintMismatch);
                }
            },
            None => {},
        }
        if !hybrid_verify(to_verify.as_slice(), scope_state.signature.as_slice(), &signer_keys) {
            return Err(KeyServiceError::CryptoError("scope state signature invalid".to_owned()));
        }
        let ref_bytes = match scope_state.scope_state_ref_bytes() {
            Ok(b) => b,
            Err(e) => {
                return Err(from_core(e));
            },
        };
        let scope_state_ref = hex_encode(ref_bytes.as_slice());
        let mut st_opt: Option<KeyServiceState> = None;
        core::mem::swap(&mut st_opt, &mut self.state);
        let mut st = match st_opt {
            Some(st) => st,
            None => {
                let header = self.load_header()?;
                KeyServiceState {
                    keyvault_header: header,
                    keyvault_state: KeyVaultState::new(),
                    keyvault_materialized: KeyVaultMaterialized::new(),
                    signer_roster: SignerRoster::new(),
                }
            },
        };
        st.signer_roster.upsert_signer(
            &scope_state.scope_id,
            &scope_state.signer_device_id,
            signer_keys,
        );
        st.signer_roster.insert_scope_state_ref(
            &scope_state.scope_id,
            scope_state_ref.clone(),
        );
        self.state = Some(st);
        Ok(IngestScopeStateResponse { scope_id: scope_state.scope_id, scope_state_ref })
    }

    /// Validates a key envelope against the roster, recovers the scope key
    /// by hybrid decapsulation and AEAD unwrap, and appends it to the
    /// ledger. The signer must be trusted, the cited scope state accepted,
    /// the signature valid, and the recipient fingerprint, when present,
    /// the local user key's.
    #[verifier::rlimit(100)]
    pub fn ingest_key_envelope(&mut self, session_id: &SessionId, key_envelope_cbor: &[u8]) -> (r:
        Result<IngestKeyEnvelopeResponse, KeyServiceError>)
        ensures
            r is Ok ==> (crate::cbor::decode_spec(
                key_envelope_cbor@,
                old(self).config.policy.max_cbor_bytes as int,
                old(self).config.policy.max_cbor_depth as int,
                old(self).config.policy.max_cbor_items as int,
            ) matches Some(v) && crate::formats::envelope_shape(v) && exists|e: KeyEnvelopeV1|
                #[trigger] crate::formats::envelope_from(e, v->Dict_0) && r->Ok_0.scope_id.0@
                    == e.scope_id.0@ && r->Ok_0.scope_epoch == e.scope_epoch && (old(self).state matches Some(st0) && (roster_signer(
                    st0.signer_roster.scopes@,
                    e.scope_id.0@,
                    e.signer_device_id.0@,
                ) matches Some(sk) && hybrid_sig_ok(
                    cbor_enc(crate::formats::envelope_tbs_val(e)),
                    e.signature@,
                    SigCiphersuiteId::HybridSig1,
                    sk.ed25519_pub@,
                    sk.mldsa_pub@,
                ) && roster_has_ref(
                    st0.signer_roster.scope_state_refs@,
                    e.scope_id.0@,
                    hex_of(e.scope_state_ref@),
                ) && (st0.keyvault_materialized.user_key matches Some(uk)
                    && (e.recipient_uk_pub_fingerprint matches Some(fp) ==> fp@ == sha256_of(
                    uk.public_bytes@,
                ))
                    && (crate::ciphersuite::parse_two_bytes(e.enc@) matches Some(parsed)
                    && (aead_open_of(
                    crate::crypto::hkdf_sha256_of(
                        crate::ciphersuite::x25519_shared_of(uk.x25519_secret@, parsed.0)
                            + crate::ciphersuite::mlkem_decap_of(
                            uk.mlkem_decaps_bytes@,
                            parsed.1,
                        ),
                        crate::ciphersuite::kem_wrap_info(),
                        32,
                    ),
                    e.nonce@,
                    cbor_enc(
                        crate::aad::aad_key_envelope_wrap_val(
                            e.scope_id.0@,
                            e.scope_epoch.0,
                            e.recipient_user_id.0@,
                            e.scope_state_ref@,
                            e.kem,
                            e.aead,
                            match e.recipient_uk_pub_fingerprint {
                                Some(fp) => Some(fp@),
                                None => None,
                            },
                        ),
                    ),
                    e.wrapped_scope_key@,
                ) matches Some(skb) && (final(self).state matches Some(stf)
                    && crate::keyvault::scope_key_spec(
                    stf.keyvault_materialized.scope_keys@,
                    e.scope_id.0@,
                    e.scope_epoch.0,
                ) == Some(skb) && stf.keyvault_state.head_seq == st0.keyvault_state.head_seq + 1
                    && crate::keyvault::state_wf(stf.keyvault_state) && stf.signer_roster
                    == st0.signer_roster))))))),
            (crate::cbor::decode_spec(
                key_envelope_cbor@,
                old(self).config.policy.max_cbor_bytes as int,
                old(self).config.policy.max_cbor_depth as int,
                old(self).config.policy.max_cbor_items as int,
            ) matches Some(v) && crate::formats::envelope_shape(v) && (old(self).state
                matches Some(st0) && (exists|e: KeyEnvelopeV1|
                #[trigger] crate::formats::envelope_from(e, v->Dict_0) && roster_signer(
                    st0.signer_roster.scopes@,
                    e.scope_id.0@,
                    e.signer_device_id.0@,
                ) is None))) ==> r is Err && (r->Err_0 is SessionInvalid || (
            r->Err_0 is UntrustedSigner && final(self).sessions == old(self).sessions
                && final(self).state == old(self).state)),
            (crate::cbor::decode_spec(
                key_envelope_cbor@,
                old(self).config.policy.max_cbor_bytes as int,
                old(self).config.policy.max_cbor_depth as int,
                old(self).config.policy.max_cbor_items as int,
            ) matches Some(v) && crate::formats::envelope_shape(v) && (old(self).state
                matches Some(st0) && (exists|e: KeyEnvelopeV1|
                #[trigger] crate::formats::envelope_from(e, v->Dict_0) && roster_signer(
                    st0.signer_roster.scopes@,
                    e.scope_id.0@,
                    e.signer_device_id.0@,
                ) is Some && !roster_has_ref(
                    st0.signer_roster.scope_state_refs@,
                    e.scope_id.0@,
                    hex_of(e.scope_state_ref@),
                )))) ==> r is Err && (r->Err_0 is SessionInvalid || (r->Err_0 is InvalidFormat
                && final(self).sessions == old(self).sessions && final(self).state == old(self).state)),
            (crate::cbor::decode_spec(
                key_envelope_cbor@,
                old(self).config.policy.max_cbor_bytes as int,
                old(self).config.policy.max_cbor_depth as int,
                old(self).config.policy.max_cbor_items as int,
            ) matches Some(v) && crate::formats::envelope_shape(v) && (old(self).state
                matches Some(st0) && (exists|e: KeyEnvelopeV1|
                #[trigger] crate::formats::envelope_from(e, v->Dict_0) && (roster_signer(
                    st0.signer_roster.scopes@,
                    e.scope_id.0@,
                    e.signer_device_id.0@,
                ) matches Some(sk) && sk.sig_suite is HybridSig1 && hybrid_sig_ok(
                    cbor_enc(crate::formats::envelope_tbs_val(e)),
                    e.signature@,
                    SigCiphersuiteId::HybridSig1,
                    sk.ed25519_pub@,
                    sk.mldsa_pub@,
                )) && roster_has_ref(
                    st0.signer_roster.scope_state_refs@,
                    e.scope_id.0@,
                    hex_of(e.scope_state_ref@),
                ) && (st0.keyvault_materialized.user_key matches Some(uk)
                    && crate::ciphersuite::recipient_wf(uk) && (e.recipient_uk_pub_fingerprint
                    matches Some(fp) && fp@ != sha256_of(uk.public_bytes@)))))) ==> r is Err && (
            r->Err_0 is SessionInvalid || (r->Err_0 is FingerprintMismatch && final(self).sessions
                == old(self).sessions && final(self).state == old(self).state)),
            (old(self).state is Some && r is Err && !(r->Err_0 is SessionInvalid)) ==> (old(self).state matches Some(st0) && (final(self).state matches Some(stf)
                && stf.signer_roster == st0.signer_roster)),
    {
        let now = self.clock.now_ms();
        self.ensure_session_valid(now, session_id)?;
        let limits = self.cbor_limits();
        let value = match decode_canonical_value(key_envelope_cbor, &limits) {
            Ok(v) => v,
            Err(e) => {
                return Err(from_core(e));
            },
        };
        let envelope = match KeyEnvelopeV1::from_cbor(&value) {
            Ok(e) => e,
            Err(e) => {
                return Err(from_core(e));
            },
        };
        let ghost genv = envelope;
        proof {
            assert forall|e2: KeyEnvelopeV1| #[trigger] crate::formats::envelope_from(
                e2,
                value@->Dict_0,
            ) implies e2.scope_id.0@ == envelope.scope_id.0@ && e2.signer_device_id.0@
                == envelope.signer_device_id.0@ && e2.scope_state_ref@
                == envelope.scope_state_ref@ && e2.signature@ == envelope.signature@
                && crate::formats::envelope_tbs_val(e2) == crate::formats::envelope_tbs_val(
                envelope,
            ) && (match (e2.recipient_uk_pub_fingerprint, envelope.recipient_uk_pub_fingerprint) {
                (Some(x), Some(y)) => x@ == y@,
                (None, None) => true,
                _ => false,
            }) by {
                crate::formats::lemma_envelope_from_functional(e2, envelope, value@->Dict_0);
            }
        }
        let signer = match &self.state {
            None => {
                return Err(KeyServiceError::UnknownScope);
            },
            Some(st) => {
                match st.signer_roster.get_signer(
                    &envelope.scope_id,
                    &envelope.signer_device_id,
                ) {
                    Some(s) => s,
                    None => {
                        return Err(KeyServiceError::UntrustedSigner);
                    },
                }
            },
        };
        let scope_state_ref_hex = hex_encode(envelope.scope_state_ref.as_slice());
        let ref_known = match &self.state {
            None => false,
            Some(st) => {
                st.signer_roster.has_scope_state_ref(
                    &envelope.scope_id,
                    scope_state_ref_hex.as_str(),
                )
            },
        };
        if !ref_known {
            return Err(KeyServiceError::InvalidFormat("unknown scopeStateRef".to_owned()));
        }
        let to_verify = match envelope.to_be_signed_bytes() {
            Ok(b) => b,
            Err(e) => {
                return Err(from_core(e));
            },
        };
        if !hybrid_verify(to_verify.as_slice(), envelope.signature.as_slice(), &signer) {
            return Err(KeyServiceError::CryptoError("key envelope signature invalid".to_owned()));
        }
        let recipient = self.load_user_keypair()?;
        match &envelope.recipient_uk_pub_fingerprint {
            Some(fingerprint) => {
                let local_fp = fingerprint_bytes(recipient.public_bytes.as_slice());
                if !bytes_eq(&local_fp, fingerprint) {
                    return Err(KeyServiceError::FingerprintMismatch);
                }
            },
            None => {},
        }
        let wrap_key = match derive_hybrid_kem_wrap_key(
            envelope.enc.as_slice(),
            &recipient,
            envelope.kem,
        ) {
            Ok(k) => k,
            Err(_) => {
                return Err(KeyServiceError::CryptoError("kem decapsulation failed".to_owned()));
            },
        };
        let aad = match aad_key_envelope_wrap_v1(
            envelope.scope_id.0.as_str(),
            envelope.scope_epoch.0,
            envelope.recipient_user_id.0.as_str(),
            envelope.scope_state_ref.as_slice(),
            envelope.kem,
            envelope.aead,
            match &envelope.recipient_uk_pub_fingerprint {
                Some(fp) => Some(fp),
                None => None,
            },
        ) {
            Ok(a) => a,
            Err(_) => {
                return Err(KeyServiceError::CryptoError("aad failed".to_owned()));
            },
        };
        let scope_key = match aead_decrypt(
            wrap_key.as_slice(),
            aad.as_slice(),
            envelope.nonce.as_slice(),
            envelope.wrapped_scope_key.as_slice(),
        ) {
            Ok(k) => k,
            Err(_) => {
                return Err(KeyServiceError::CryptoError("scope key unwrap failed".to_owned()));
            },
        };
        self.persist_scope_key(
            session_id,
            &envelope.scope_id,
            envelope.scope_epoch,
            scope_key.as_slice(),
        )?;
        Ok(
            IngestKeyEnvelopeResponse {
                scope_id: envelope.scope_id,
                scope_epoch: envelope.scope_epoch,
            },
        )
    }

    /// Validates a resource grant against the roster and the scope-key
    /// handle, unwraps the resource key under the scope key, appends it to
    /// the ledger, and issues a handle for it.
    #[verifier::rlimit(100)]
    pub fn open_resource(
        &mut self,
        session_id: &SessionId,
        scope_key_handle: &KeyHandle,
        grant_cbor: &[u8],
    ) -> (r: Result<OpenResourceResponse, KeyServiceError>)
        ensures
            r is Ok ==> (crate::cbor::decode_spec(
                grant_cbor@,
                old(self).config.policy.max_cbor_bytes as int,
                old(self).config.policy.max_cbor_depth as int,
                old(self).config.policy.max_cbor_items as int,
            ) matches Some(v) && crate::formats::grant_shape(v) && exists|g: ResourceGrantV1|
                #[trigger] crate::formats::grant_from(g, v->Dict_0) && (old(self).state matches Some(st0) && (roster_signer(
                    st0.signer_roster.scopes@,
                    g.scope_id.0@,
                    g.signer_device_id.0@,
                ) matches Some(sk) && hybrid_sig_ok(
                    cbor_enc(crate::formats::grant_tbs_val(g)),
                    g.signature@,
                    SigCiphersuiteId::HybridSig1,
                    sk.ed25519_pub@,
                    sk.mldsa_pub@,
                ) && roster_has_ref(
                    st0.signer_roster.scope_state_refs@,
                    g.scope_id.0@,
                    hex_of(g.scope_state_ref@),
                ))) && (manager_lookup(old(self).sessions.sessions@, session_id.0@) matches Some(
                    s0,
                ) && (crate::session::handle_lookup(
                    s0.handles@,
                    scope_key_handle.0@,
                ) matches Some(scope_entry) && scope_entry is ScopeKey && (aead_open_of(
                    crate::session::entry_key(scope_entry),
                    g.nonce@,
                    cbor_enc(
                        crate::aad::aad_resource_grant_wrap_val(
                            g.scope_id.0@,
                            g.resource_id.0@,
                            g.scope_epoch,
                            g.resource_key_id.0@,
                            g.aead,
                        ),
                    ),
                    g.wrapped_key@,
                ) matches Some(rkb) && (final(self).state matches Some(stf)
                    && crate::keyvault::resource_key_spec(
                    stf.keyvault_materialized.resource_keys@,
                    g.resource_id.0@,
                    g.resource_key_id.0@,
                ) == Some(rkb) && stf.keyvault_state.head_seq
                    == old(self).state->Some_0.keyvault_state.head_seq + 1
                    && crate::keyvault::state_wf(stf.keyvault_state) && stf.signer_roster
                    == old(self).state->Some_0.signer_roster) && final(self).sessions.sessions@.len() >= 1 && ({
                    let stored = final(self).sessions.sessions@.last();
                    &&& stored.0@ == session_id.0@
                    &&& stored.1.handles@.len() >= 1
                    &&& stored.1.handles@.last().0@ == r->Ok_0.resource_key_handle.0@
                    &&& stored.1.handles@.last().1 is ResourceKey
                    &&& crate::session::entry_key(stored.1.handles@.last().1) == rkb
                }))))),
            (crate::cbor::decode_spec(
                grant_cbor@,
                old(self).config.policy.max_cbor_bytes as int,
                old(self).config.policy.max_cbor_depth as int,
                old(self).config.policy.max_cbor_items as int,
            ) matches Some(v) && crate::formats::grant_shape(v) && (old(self).state matches Some(
                st0,
            ) && (exists|g: ResourceGrantV1|
                #[trigger] crate::formats::grant_from(g, v->Dict_0) && roster_signer(
                    st0.signer_roster.scopes@,
                    g.scope_id.0@,
                    g.signer_device_id.0@,
                ) is None))) ==> r is Err && (r->Err_0 is SessionInvalid
                || r->Err_0 is UnknownHandle || (r->Err_0 is UntrustedSigner && final(self).state
                == old(self).state)),
            (crate::cbor::decode_spec(
                grant_cbor@,
                old(self).config.policy.max_cbor_bytes as int,
                old(self).config.policy.max_cbor_depth as int,
                old(self).config.policy.max_cbor_items as int,
            ) matches Some(v) && crate::formats::grant_shape(v) && (old(self).state matches Some(
                st0,
            ) && (exists|g: ResourceGrantV1|
                #[trigger] crate::formats::grant_from(g, v->Dict_0) && roster_signer(
                    st0.signer_roster.scopes@,
                    g.scope_id.0@,
                    g.signer_device_id.0@,
                ) is Some && !roster_has_ref(
                    st0.signer_roster.scope_state_refs@,
                    g.scope_id.0@,
                    hex_of(g.scope_state_ref@),
                )))) ==> r is Err && (r->Err_0 is SessionInvalid || r->Err_0 is UnknownHandle || (
            r->Err_0 is InvalidFormat && final(self).state == old(self).state)),
            (old(self).state is Some && r is Err && !(r->Err_0 is SessionInvalid)) ==> (old(self).state matches Some(st0) && (final(self).state matches Some(stf)
                && stf.signer_roster == st0.signer_roster)),
    {
        let now = self.clock.now_ms();
        self.ensure_session_valid(now, session_id)?;
        let mut session = match self.sessions.take(session_id) {
            Some(s) => s,
            None => {
                return Err(KeyServiceError::SessionInvalid);
            },
        };
        let entry = match session.get_handle(scope_key_handle) {
            Some(e) => e,
            None => {
                self.sessions.insert(SessionId(session_id.0.clone()), session);
                return Err(KeyServiceError::UnknownHandle);
            },
        };
        if !entry.is_scope() {
            self.sessions.insert(SessionId(session_id.0.clone()), session);
            return Err(KeyServiceError::UnknownHandle);
        }
        let scope_key = entry.key_bytes();
        self.sessions.insert(SessionId(session_id.0.clone()), session);
        let limits = self.cbor_limits();
        let value = match decode_canonical_value(grant_cbor, &limits) {
            Ok(v) => v,
            Err(e) => {
                return Err(from_core(e));
            },
        };
        let grant = match ResourceGrantV1::from_cbor(&value) {
            Ok(g) => g,
            Err(e) => {
                return Err(from_core(e));
            },
        };
        let ghost ggr = grant;
        proof {
            assert forall|g2: ResourceGrantV1| #[trigger] crate::formats::grant_from(
                g2,
                value@->Dict_0,
            ) implies g2.scope_id.0@ == grant.scope_id.0@ && g2.signer_device_id.0@
                == grant.signer_device_id.0@ && g2.scope_state_ref@ == grant.scope_state_ref@ by {
                crate::formats::lemma_grant_from_functional(g2, grant, value@->Dict_0);
            }
        }
        let signer = match &self.state {
            None => {
                return Err(KeyServiceError::UnknownScope);
            },
            Some(st) => {
                match st.signer_roster.get_signer(&grant.scope_id, &grant.signer_device_id) {
                    Some(s) => s,
                    None => {
                        return Err(KeyServiceError::UntrustedSigner);
                    },
                }
            },
        };
        let scope_state_ref_hex = hex_encode(grant.scope_state_ref.as_slice());
        let ref_known = match &self.state {
            None => false,
            Some(st) => {
                st.signer_roster.has_scope_state_ref(
                    &grant.scope_id,
                    scope_state_ref_hex.as_str(),
                )
            },
        };
        if !ref_known {
            return Err(KeyServiceError::InvalidFormat("unknown scopeStateRef".to_owned()));
        }
        let to_verify = match grant.to_be_signed_bytes() {
            Ok(b) => b,
            Err(e) => {
                return Err(from_core(e));
            },
        };
        if !hybrid_verify(to_verify.as_slice(), grant.signature.as_slice(), &signer) {
            return Err(
                KeyServiceError::CryptoError("resource grant signature invalid".to_owned()),
            );
        }
        let aad = match aad_resource_grant_wrap_v1(
            grant.scope_id.0.as_str(),
            grant.resource_id.0.as_str(),
            grant.scope_epoch,
            grant.resource_key_id.0.as_str(),
            grant.aead,
        ) {
            Ok(a) => a,
            Err(_) => {
                return Err(KeyServiceError::CryptoError("aad failed".to_owned()));
            },
        };
        let resource_key = match aead_decrypt(
            scope_key.as_slice(),
            aad.as_slice(),
            grant.nonce.as_slice(),
            grant.wrapped_key.as_slice(),
        ) {
            Ok(k) => k,
            Err(_) => {
                return Err(KeyServiceError::CryptoError("resource key unwrap failed".to_owned()));
            },
        };
        self.persist_resource_key(
            session_id,
            &grant.resource_id,
            &grant.resource_key_id,
            resource_key.as_slice(),
        )?;
        self.ensure_session_valid(now, session_id)?;
        let mut session2 = match self.sessions.take(session_id) {
            Some(s) => s,
            None => {
                return Err(KeyServiceError::SessionInvalid);
            },
        };
        let new_entry = HandleEntry::ResourceKey {
            resource_id: grant.resource_id,
            resource_key_id: grant.resource_key_id,
            key: resource_key,
        };
        let handle = match session2.insert_handle(new_entry) {
            Ok(h) => h,
            Err(_) => {
                self.sessions.insert(SessionId(session_id.0.clone()), session2);
                return Err(KeyServiceError::CryptoError("entropy failed".to_owned()));
            },
        };
        self.sessions.insert(SessionId(session_id.0.clone()), session2);
        Ok(OpenResourceResponse { resource_key_handle: handle })
    }

    /// The materialized user KEM keypair.
    fn load_user_keypair(&mut self) -> (r: Result<HybridKemRecipient, KeyServiceError>)
        ensures
            r is Ok ==> crate::ciphersuite::recipient_wf(r->Ok_0),
            (old(self).state matches Some(st) && (st.keyvault_materialized.user_key matches Some(
                uk,
            ) && crate::ciphersuite::recipient_wf(uk))) ==> r is Ok,
            r is Ok ==> (old(self).state matches Some(st)
                && (st.keyvault_materialized.user_key matches Some(uk)
                && r->Ok_0.x25519_secret@ == uk.x25519_secret@ && r->Ok_0.x25519_public@
                == uk.x25519_public@ && r->Ok_0.mlkem_decaps_bytes@ == uk.mlkem_decaps_bytes@
                && r->Ok_0.mlkem_encaps_bytes@ == uk.mlkem_encaps_bytes@
                && r->Ok_0.public_bytes@ == uk.public_bytes@)),
            *final(self) == *old(self),
    {
        match &self.state {
            None => Err(KeyServiceError::CryptoError("keyvault not loaded".to_owned())),
            Some(st) => {
                match &st.keyvault_materialized.user_key {
                    None => Err(KeyServiceError::CryptoError("missing user key".to_owned())),
                    Some(uk) => {
                        if uk.x25519_secret.len() != 32 || uk.x25519_public.len() != 32
                            || uk.mlkem_decaps_bytes.len() != 64 {
                            return Err(
                                KeyServiceError::CryptoError("malformed user key".to_owned()),
                            );
                        }
                        Ok(
                            HybridKemRecipient {
                                x25519_secret: clone_bytes(&uk.x25519_secret),
                                x25519_public: clone_bytes(&uk.x25519_public),
                                mlkem_decaps_bytes: clone_bytes(&uk.mlkem_decaps_bytes),
                                mlkem_encaps_bytes: clone_bytes(&uk.mlkem_encaps_bytes),
                                public_bytes: clone_bytes(&uk.public_bytes),
                            },
                        )
                    },
                }
            },
        }
    }

    /// Generates the user KEM keypair and the device signing keypair and
    /// appends both to the ledger.
    pub fn init_identity(&mut self, session_id: &SessionId, device_id: &DeviceId) -> (r: Result<
        (),
        KeyServiceError,
    >)
        ensures
            old(self).state is None ==> r is Err,
            r is Ok ==> (old(self).state matches Some(st0) && (final(self).state matches Some(st)
                && crate::keyvault::state_wf(st.keyvault_state) && st.keyvault_state.head_seq
                == st0.keyvault_state.head_seq + 2 && (st.keyvault_materialized.user_key
                matches Some(rec) && crate::ciphersuite::recipient_wf(rec)
                && rec.x25519_public@ == crate::ciphersuite::x25519_pub_of(rec.x25519_secret@)
                && rec.mlkem_encaps_bytes@ == crate::ciphersuite::mlkem_ek_of(
                rec.mlkem_decaps_bytes@,
            )) && st.keyvault_materialized.device_signing_keys@.len() >= 1 && ({
                let added = st.keyvault_materialized.device_signing_keys@.last();
                &&& added.0@ == device_id.0@
                &&& added.1.ed25519_pub@ == crate::ciphersuite::ed25519_pub_of(
                    added.1.ed25519_priv@,
                )
                &&& added.1.mldsa_pub@ == crate::ciphersuite::mldsa_pub_of(added.1.mldsa_priv@)
            }))),
    {
        let header = self.load_header()?;
        let now = self.clock.now_ms();
        self.ensure_session_valid(now, session_id)?;
        let mut session = match self.sessions.take(session_id) {
            Some(s) => s,
            None => {
                return Err(KeyServiceError::SessionInvalid);
            },
        };
        let vault_key = clone_bytes(&session.vault_key);
        self.sessions.insert(SessionId(session_id.0.clone()), session);
        let generated = match generate_user_keypair() {
            Ok(g) => g,
            Err(_) => {
                return Err(KeyServiceError::CryptoError("entropy failed".to_owned()));
            },
        };
        let (uk_recipient, uk_priv_bytes) = generated;
        let device_signer = match generate_device_signing_keypair() {
            Ok(d) => d,
            Err(_) => {
                return Err(KeyServiceError::CryptoError("entropy failed".to_owned()));
            },
        };
        let user_id_bytes = self.entropy.random_bytes(16);
        let user_record_id = uuid_like(&user_id_bytes);
        let user_record = make_store_user_key_record(
            user_record_id.as_str(),
            uk_priv_bytes.as_slice(),
            uk_recipient.public_bytes.as_slice(),
        );
        let device_id_bytes = self.entropy.random_bytes(16);
        let device_record_id = uuid_like(&device_id_bytes);
        let device_record = make_store_device_signing_key_record(
            device_record_id.as_str(),
            device_id.0.as_str(),
            device_signer.ed25519_priv.as_slice(),
            device_signer.ed25519_pub.as_slice(),
            device_signer.mldsa_priv.as_slice(),
            device_signer.mldsa_pub.as_slice(),
            SigCiphersuiteId::HybridSig1,
        );
        let container1 = self.append_to_state(&header, &vault_key, &user_record)?;
        self.persist_record_container(&container1)?;
        let mut st_opt: Option<KeyServiceState> = None;
        core::mem::swap(&mut st_opt, &mut self.state);
        match st_opt {
            Some(mut st) => {
                st.keyvault_materialized.user_key = Some(uk_recipient);
                st.keyvault_materialized.device_signing_keys.push(
                    (device_id.0.clone(), device_signer),
                );
                self.state = Some(st);
            },
            None => {
                return Err(KeyServiceError::CryptoError("keyvault not loaded".to_owned()));
            },
        }
        let container2 = self.append_to_state(&header, &vault_key, &device_record)?;
        self.persist_record_container(&container2)?;
        Ok(())
    }

    /// Unwraps the vault key with the key derived from the user-presence
    /// secret and issues a fresh normal session.
    #[verifier::rlimit(50)]
    pub fn unlock_webauthn_prf(&mut self, prf_output: &[u8]) -> (r: Result<
        UnlockResponse,
        KeyServiceError,
    >)
        ensures
            r is Ok ==> r->Ok_0.kind is Normal && r->Ok_0.expires_at_ms == r->Ok_0.issued_at_ms
                + old(self).config.policy.normal_session_ttl_ms,
            r is Ok ==> final(self).state is Some && final(self).sessions.sessions@.len() >= 1
                && ({
                let stored = final(self).sessions.sessions@.last();
                &&& stored.0@ == r->Ok_0.session_id.0@
                &&& stored.1.kind is Normal
                &&& stored.1.expires_at_ms == r->Ok_0.expires_at_ms
                &&& exists|rb: Seq<u8>| rb.len() == 16 && stored.0@ == #[trigger] hex_of(rb)
                &&& exists|nn: Seq<u8>, ad: Seq<u8>, ct: Seq<u8>|
                    #[trigger] crate::crypto::aead_open_of(
                        crate::crypto::hkdf_sha256_of(
                            prf_output@,
                            encode_utf8("mo-webauthn-prf|unwrap-k-vault|v1"@),
                            32,
                        ),
                        nn,
                        ad,
                        ct,
                    ) == Some(stored.1.vault_key@)
            }),
    {
        let header = self.load_header()?;
        let prf_key = match hkdf_sha256(prf_output, "mo-webauthn-prf|unwrap-k-vault|v1".as_bytes(), 32) {
            Ok(k) => k,
            Err(_) => {
                return Err(KeyServiceError::CryptoError("hkdf failed".to_owned()));
            },
        };
        let aad = match aad_webauthn_prf_wrap_v1(
            header.vault_id.as_str(),
            header.user_id.as_str(),
            &header.kdf,
            header.aead,
        ) {
            Ok(a) => a,
            Err(_) => {
                return Err(KeyServiceError::CryptoError("aad failed".to_owned()));
            },
        };
        let prf_info = self.load_webauthn_prf_unlock()?;
        let vault_key = match aead_decrypt(
            prf_key.as_slice(),
            aad.as_slice(),
            prf_info.nonce.as_slice(),
            prf_info.ct.as_slice(),
        ) {
            Ok(k) => k,
            Err(_) => {
                return Err(KeyServiceError::CryptoError("vault key unwrap failed".to_owned()));
            },
        };
        proof {
            assert(crate::crypto::aead_open_of(
                crate::crypto::hkdf_sha256_of(
                    prf_output@,
                    encode_utf8("mo-webauthn-prf|unwrap-k-vault|v1"@),
                    32,
                ),
                prf_info.nonce@,
                aad@,
                prf_info.ct@,
            ) == Some(vault_key@));
        }
        self.finish_unlock(header, vault_key, SessionAssurance::UserPresence, SessionKind::Normal)
    }

    /// Reports whether user-presence unlock is enabled, with the credential
    /// id and the PRF salt derived from the vault identity.
    pub fn get_webauthn_prf_unlock_info(&mut self) -> (r: Result<
        GetWebAuthnPrfUnlockInfoResponse,
        KeyServiceError,
    >)
        ensures
            r is Ok ==> r->Ok_0.prf_salt@.len() == 32 && r->Ok_0.aead is Aead1 && (
            r->Ok_0.enabled <==> r->Ok_0.credential_id is Some),
    {
        let header = self.load_header()?;
        let prf = match self.load_webauthn_prf_unlock() {
            Ok(info) => Some(info),
            Err(_) => None,
        };
        let mut salt_input = crate::cbor::slice_to_vec(
            "mo-webauthn-prf|salt-v1".as_bytes(),
            0,
            "mo-webauthn-prf|salt-v1".as_bytes().len(),
        );
        crate::cbor::push_bytes(&mut salt_input, header.vault_id.as_str().as_bytes());
        crate::cbor::push_bytes(&mut salt_input, header.user_id.as_str().as_bytes());
        let prf_salt = sha256_bytes(salt_input.as_slice());
        match prf {
            Some(info) => Ok(
                GetWebAuthnPrfUnlockInfoResponse {
                    enabled: true,
                    credential_id: Some(info.credential_id),
                    prf_salt,
                    aead: header.aead,
                },
            ),
            None => Ok(
                GetWebAuthnPrfUnlockInfoResponse {
                    enabled: false,
                    credential_id: None,
                    prf_salt,
                    aead: header.aead,
                },
            ),
        }
    }

    /// Wraps the vault key under the key derived from the user-presence
    /// secret and persists the side-channel record. Step-up is required.
    pub fn enable_webauthn_prf_unlock(
        &mut self,
        session_id: &SessionId,
        credential_id: Vec<u8>,
        prf_output: Vec<u8>,
    ) -> (r: Result<(), KeyServiceError>)
        ensures
            r is Ok ==> (manager_lookup(old(self).sessions.sessions@, session_id.0@) matches Some(
                s,
            ) && s.kind is StepUp),
            (manager_lookup(old(self).sessions.sessions@, session_id.0@) matches Some(s)
                && s.kind is Normal) ==> r is Err && (r->Err_0 is StepUpRequired
                || r->Err_0 is SessionInvalid || r->Err_0 is StorageError
                || r->Err_0 is InvalidFormat || r->Err_0 is InvalidCbor),
            (manager_lookup(old(self).sessions.sessions@, session_id.0@) matches Some(s)
                && s.kind is Normal && r is Err && r->Err_0 is StepUpRequired) ==> final(self).sessions
                == old(self).sessions && final(self).state == old(self).state,
    {
        let header = self.load_header()?;
        let now = self.clock.now_ms();
        self.ensure_session_valid(now, session_id)?;
        let kind = match self.sessions.expires_of(session_id) {
            Some(info) => info.1,
            None => {
                return Err(KeyServiceError::SessionInvalid);
            },
        };
        if kind != SessionKind::StepUp {
            return Err(KeyServiceError::StepUpRequired);
        }
        let mut session = match self.sessions.take(session_id) {
            Some(s) => s,
            None => {
                return Err(KeyServiceError::SessionInvalid);
            },
        };
        let vault_key = clone_bytes(&session.vault_key);
        self.sessions.insert(SessionId(session_id.0.clone()), session);
        let prf_key = match hkdf_sha256(
            prf_output.as_slice(),
            "mo-webauthn-prf|unwrap-k-vault|v1".as_bytes(),
            32,
        ) {
            Ok(k) => k,
            Err(_) => {
                return Err(KeyServiceError::CryptoError("hkdf failed".to_owned()));
            },
        };
        let aad = match aad_webauthn_prf_wrap_v1(
            header.vault_id.as_str(),
            header.user_id.as_str(),
            &header.kdf,
            header.aead,
        ) {
            Ok(a) => a,
            Err(_) => {
                return Err(KeyServiceError::CryptoError("aad failed".to_owned()));
            },
        };
        let nonce = self.entropy.random_bytes(12);
        let ct = match aead_encrypt(
            prf_key.as_slice(),
            aad.as_slice(),
            vault_key.as_slice(),
            nonce.as_slice(),
        ) {
            Ok(c) => c,
            Err(_) => {
                return Err(KeyServiceError::CryptoError("vault key wrap failed".to_owned()));
            },
        };
        let info = WebAuthnPrfUnlockV1 { credential_id, nonce, ct };
        let bytes = match info.encode() {
            Ok(b) => b,
            Err(e) => {
                return Err(from_core(e));
            },
        };
        if self.storage.put("keyvault", "webauthn_prf", bytes.as_slice()).is_err() {
            return Err(KeyServiceError::StorageError("storage put failed".to_owned()));
        }
        Ok(())
    }

    /// Clears the user-presence side-channel record. Step-up is required.
    pub fn disable_webauthn_prf_unlock(&mut self, session_id: &SessionId) -> (r: Result<
        (),
        KeyServiceError,
    >)
        ensures
            r is Ok ==> (manager_lookup(old(self).sessions.sessions@, session_id.0@) matches Some(
                s,
            ) && s.kind is StepUp),
            (manager_lookup(old(self).sessions.sessions@, session_id.0@) matches Some(s)
                && s.kind is Normal) ==> r is Err && (r->Err_0 is StepUpRequired
                || r->Err_0 is SessionInvalid),
            (manager_lookup(old(self).sessions.sessions@, session_id.0@) matches Some(s)
                && s.kind is Normal && r is Err && r->Err_0 is StepUpRequired) ==> final(self).sessions
                == old(self).sessions && final(self).state == old(self).state
                && final(self).config == old(self).config,
    {
        let now = self.clock.now_ms();
        self.ensure_session_valid(now, session_id)?;
        let kind = match self.sessions.expires_of(session_id) {
            Some(info) => info.1,
            None => {
                return Err(KeyServiceError::SessionInvalid);
            },
        };
        if kind != SessionKind::StepUp {
            return Err(KeyServiceError::StepUpRequired);
        }
        let empty: Vec<u8> = Vec::new();
        if self.storage.put("keyvault", "webauthn_prf", empty.as_slice()).is_err() {
            return Err(KeyServiceError::StorageError("storage put failed".to_owned()));
        }
        Ok(())
    }

    /// Reads the user-presence side-channel record; an absent or empty slot
    /// means the feature is disabled.
    fn load_webauthn_prf_unlock(&mut self) -> (r: Result<WebAuthnPrfUnlockV1, KeyServiceError>)
        ensures
            final(self).config == old(self).config,
            final(self).sessions == old(self).sessions,
            final(self).state == old(self).state,
    {
        let got = match self.storage.get("keyvault", "webauthn_prf") {
            Ok(v) => v,
            Err(_) => {
                return Err(KeyServiceError::StorageError("storage get failed".to_owned()));
            },
        };
        let bytes = match got {
            Some(b) => b,
            None => {
                return Err(KeyServiceError::InvalidFormat("missing webauthn prf info".to_owned()));
            },
        };
        if bytes.len() == 0 {
            return Err(KeyServiceError::InvalidFormat("webauthn prf not enabled".to_owned()));
        }
        match WebAuthnPrfUnlockV1::decode(bytes.as_slice()) {
            Ok(info) => Ok(info),
            Err(e) => Err(from_core(e)),
        }
    }

    /// Appends one record to the in-memory ledger state: the head advances
    /// by one, the container seals exactly the record's canonical
    /// plaintext, and the rest of the loaded state is untouched.
    fn append_to_state(
        &mut self,
        header: &KeyVaultHeaderV1,
        vault_key: &Vec<u8>,
        record: &crate::formats::KeyVaultRecordPlainV1,
    ) -> (r: Result<KeyVaultRecordContainerV1, KeyServiceError>)
        ensures
            final(self).config == old(self).config,
            final(self).sessions == old(self).sessions,
            old(self).state is None ==> r is Err,
            r is Ok ==> (old(self).state matches Some(st0) && (final(self).state matches Some(st)
                && ({
                let c = r->Ok_0;
                &&& crate::keyvault::state_wf(st.keyvault_state)
                &&& st.keyvault_state.head_seq == st0.keyvault_state.head_seq + 1
                &&& c.seq == st.keyvault_state.head_seq
                &&& c.record_id@ == record.record_id@
                &&& cbor_canon(record.payload@)
                &&& aead_open_of(
                    vault_key@,
                    c.nonce@,
                    crate::keyvault::record_aad(*header, record.record_id@),
                    c.ct@,
                ) == Some(cbor_enc(crate::formats::plain_val(*record)))
                &&& st.keyvault_materialized == st0.keyvault_materialized
                &&& st.signer_roster == st0.signer_roster
                &&& st.keyvault_header == st0.keyvault_header
            }))),
    {
        let mut st_opt: Option<KeyServiceState> = None;
        core::mem::swap(&mut st_opt, &mut self.state);
        let mut st = match st_opt {
            Some(st) => st,
            None => {
                return Err(KeyServiceError::CryptoError("keyvault not loaded".to_owned()));
            },
        };
        if st.keyvault_state.head_seq == u64::MAX {
            self.state = Some(st);
            return Err(KeyServiceError::InvalidFormat("keyvault full".to_owned()));
        }
        let seq = st.keyvault_state.head_seq + 1;
        if !crate::keyvault::check_state_wf(&st.keyvault_state) {
            self.state = Some(st);
            return Err(KeyServiceError::InvalidFormat("keyvault state invalid".to_owned()));
        }
        let container = match st.keyvault_state.append_record(
            header,
            vault_key.as_slice(),
            record,
            seq,
        ) {
            Ok(c) => c,
            Err(e) => {
                self.state = Some(st);
                return Err(from_core(e));
            },
        };
        self.state = Some(st);
        Ok(container)
    }

}

/// The user-presence side-channel record: the credential id and the vault
/// key sealed under the PRF-derived key.
pub struct WebAuthnPrfUnlockV1 {
    pub credential_id: Vec<u8>,
    pub nonce: Vec<u8>,
    pub ct: Vec<u8>,
}

impl WebAuthnPrfUnlockV1 {
    /// Encodes the record as a canonical map.
    pub fn encode(&self) -> (r: CoreResult<Vec<u8>>)
        ensures
            r is Ok,
    {
        let entries = vec![
            (0u64, crate::cbor::cbor_bytes(self.credential_id.as_slice())),
            (1u64, crate::cbor::cbor_bytes(self.nonce.as_slice())),
            (2u64, crate::cbor::cbor_bytes(self.ct.as_slice())),
        ];
        let value = crate::cbor::build_uint_map(entries);
        Ok(crate::cbor::encode_canon_value(&value))
    }

    /// Decodes the record from its canonical map.
    pub fn decode(bytes: &[u8]) -> (r: CoreResult<WebAuthnPrfUnlockV1>)
        ensures
            r is Err ==> r->Err_0 is Cbor,
            r is Ok ==> (crate::cbor::decode_spec(bytes@, 0x100000, 64, 4096) matches Some(v)
                && v is Dict && ({
                let m = v->Dict_0;
                &&& crate::cbor::map_get_spec(m, 0) == Some(
                    CborVal::Bytes(r->Ok_0.credential_id@),
                )
                &&& crate::cbor::map_get_spec(m, 1) == Some(CborVal::Bytes(r->Ok_0.nonce@))
                &&& crate::cbor::map_get_spec(m, 2) == Some(CborVal::Bytes(r->Ok_0.ct@))
            })),
    {
        let limits = CborLimits::standard();
        let value = decode_canonical_value(bytes, &limits)?;
        let map = as_map(&value)?;
        let credential_id = req_bytes(map, 0)?;
        let nonce = req_bytes(map, 1)?;
        let ct = req_bytes(map, 2)?;
        Ok(WebAuthnPrfUnlockV1 { credential_id, nonce, ct })
    }
}

} // verus!
