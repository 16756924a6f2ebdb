//! Canonical wire formats: scope states, resource grants, key envelopes,
//! and the KeyVault header, record container, record plaintext, and
//! snapshot. Every format is a fixed integer-keyed map; decoding checks the
//! fixed-size fields and the closed set of suite tags.

use vstd::prelude::*;
use vstd::utf8::encode_utf8;
use crate::cbor::{
    as_map, build_uint_map, cbor_bytes, cbor_canon, cbor_enc, cbor_text, cbor_uint, clone_bytes,
    decode_canonical_value, decode_spec, encode_canon_value, is_canonical, lemma_map_get_canon,
    lemma_uint_entry_views, map_get_spec, opt_value, req_bytes, req_text, req_uint, req_value,
    uint_entry_views, uint_map, view_pairs, CborLimits, CborVal, CborValue,
};
use crate::crypto::KdfParams;
use crate::error::{CoreError, CoreResult};
use crate::hash::{hex_encode, hex_of, sha256, sha256_of};
use crate::types::{
    aead_id_tag, kem_id_tag, sig_id_tag, str_eq, AeadId, DeviceId, KemCiphersuiteId, ResourceId,
    ResourceKeyId, ScopeEpoch, ScopeId, SigCiphersuiteId, UserId,
};

verus! {

broadcast use vstd::utf8::encode_utf8_decode_utf8;

/// A signed, hash-chained announcement of a scope's signers.
pub struct ScopeStateV1 {
    pub v: u64,
    pub scope_id: ScopeId,
    pub scope_state_seq: u64,
    pub prev_hash: Vec<u8>,
    pub scope_epoch: u64,
    pub kind: u64,
    pub payload: CborValue,
    pub signer_device_id: DeviceId,
    pub sig_suite: SigCiphersuiteId,
    pub signature: Vec<u8>,
}

/// A signed delivery of a resource key wrapped under a scope key.
pub struct ResourceGrantV1 {
    pub v: u64,
    pub grant_id: String,
    pub scope_id: ScopeId,
    pub grant_seq: u64,
    pub prev_hash: Vec<u8>,
    pub scope_state_ref: Vec<u8>,
    pub scope_epoch: u64,
    pub resource_id: ResourceId,
    pub resource_key_id: ResourceKeyId,
    pub policy: Option<CborValue>,
    pub aead: AeadId,
    pub nonce: Vec<u8>,
    pub wrapped_key: Vec<u8>,
    pub signer_device_id: DeviceId,
    pub sig_suite: SigCiphersuiteId,
    pub signature: Vec<u8>,
}

/// A signed, KEM-wrapped delivery of a scope key to a recipient user.
pub struct KeyEnvelopeV1 {
    pub v: u64,
    pub envelope_id: String,
    pub scope_id: ScopeId,
    pub scope_epoch: ScopeEpoch,
    pub recipient_user_id: UserId,
    pub scope_state_ref: Vec<u8>,
    pub kem: KemCiphersuiteId,
    pub aead: AeadId,
    pub enc: Vec<u8>,
    pub nonce: Vec<u8>,
    pub wrapped_scope_key: Vec<u8>,
    pub signer_device_id: DeviceId,
    pub sig_suite: SigCiphersuiteId,
    pub signature: Vec<u8>,
    pub recipient_uk_pub_fingerprint: Option<Vec<u8>>,
}

/// The vault key sealed under a KEK.
pub struct VaultKeyWrapV1 {
    pub aead: AeadId,
    pub nonce: Vec<u8>,
    pub ct: Vec<u8>,
}

/// The KeyVault root: identity, KDF parameters, the record mirror, and the
/// wrapped vault key.
pub struct KeyVaultHeaderV1 {
    pub v: u64,
    pub vault_id: String,
    pub user_id: String,
    pub kdf: KdfParams,
    pub aead: AeadId,
    pub records: Vec<KeyVaultRecordContainerV1>,
    pub vault_key_wrap: VaultKeyWrapV1,
}

/// One encrypted, chained ledger record.
pub struct KeyVaultRecordContainerV1 {
    pub v: u64,
    pub seq: u64,
    pub prev_hash: Vec<u8>,
    pub record_id: String,
    pub nonce: Vec<u8>,
    pub ct: Vec<u8>,
}

/// A record's decrypted content.
pub struct KeyVaultRecordPlainV1 {
    pub record_id: String,
    pub kind: u64,
    pub payload: CborValue,
}

/// The export format: the header and every record.
pub struct KeyVaultSnapshotV1 {
    pub header: KeyVaultHeaderV1,
    pub records: Vec<KeyVaultRecordContainerV1>,
}

impl Clone for KeyVaultRecordContainerV1 {
    fn clone(&self) -> (r: Self)
        ensures
            r.v == self.v,
            r.seq == self.seq,
            r.prev_hash@ == self.prev_hash@,
            r.record_id@ == self.record_id@,
            r.nonce@ == self.nonce@,
            r.ct@ == self.ct@,
    {
        KeyVaultRecordContainerV1 {
            v: self.v,
            seq: self.seq,
            prev_hash: clone_bytes(&self.prev_hash),
            record_id: self.record_id.clone(),
            nonce: clone_bytes(&self.nonce),
            ct: clone_bytes(&self.ct),
        }
    }
}

/// The to-be-signed entries of a scope state, keys ascending.
pub open spec fn scope_state_tbs_entries(s: ScopeStateV1) -> Seq<(u64, CborVal)> {
    seq![
        (0u64, CborVal::Uint(s.v)),
        (1u64, CborVal::Text(encode_utf8(s.scope_id.0@))),
        (2u64, CborVal::Uint(s.scope_state_seq)),
        (3u64, CborVal::Bytes(s.prev_hash@)),
        (4u64, CborVal::Uint(s.scope_epoch)),
        (5u64, CborVal::Uint(s.kind)),
        (6u64, s.payload@),
        (7u64, CborVal::Text(encode_utf8(s.signer_device_id.0@))),
        (8u64, CborVal::Text(encode_utf8(sig_id_tag(s.sig_suite)))),
    ]
}

/// The to-be-signed form of a scope state.
pub open spec fn scope_state_tbs_val(s: ScopeStateV1) -> CborVal {
    uint_map(scope_state_tbs_entries(s))
}

/// The signed form of a scope state: the to-be-signed entries with the
/// signature at key 9.
pub open spec fn scope_state_signed_val(s: ScopeStateV1) -> CborVal {
    uint_map(scope_state_tbs_entries(s).push((9u64, CborVal::Bytes(s.signature@))))
}

/// The SHA-256 reference of a scope state: the digest of its canonical
/// signed encoding.
pub open spec fn scope_state_ref_of(s: ScopeStateV1) -> Seq<u8> {
    sha256_of(cbor_enc(scope_state_signed_val(s)))
}

/// Whether a decoded value has the shape of a signed scope state: every
/// required field present with its type, a 32-byte previous hash, and the
/// sole recognized signature suite.
pub open spec fn scope_state_shape(v: CborVal) -> bool {
    &&& v is Dict
    &&& ({
        let m = v->Dict_0;
        &&& (map_get_spec(m, 0) matches Some(x) && x is Uint)
        &&& (map_get_spec(m, 1) matches Some(x) && x is Text)
        &&& (map_get_spec(m, 2) matches Some(x) && x is Uint)
        &&& (map_get_spec(m, 3) matches Some(x) && x is Bytes && x->Bytes_0.len() == 32)
        &&& (map_get_spec(m, 4) matches Some(x) && x is Uint)
        &&& (map_get_spec(m, 5) matches Some(x) && x is Uint)
        &&& map_get_spec(m, 6) is Some
        &&& (map_get_spec(m, 7) matches Some(x) && x is Text)
        &&& map_get_spec(m, 8) == Some(
            CborVal::Text(encode_utf8(sig_id_tag(SigCiphersuiteId::HybridSig1))),
        )
        &&& (map_get_spec(m, 9) matches Some(x) && x is Bytes)
    })
}

/// What the fields of a scope state say of the map it was read from.
pub open spec fn scope_state_from(s: ScopeStateV1, m: Seq<(CborVal, CborVal)>) -> bool {
    &&& map_get_spec(m, 0) == Some(CborVal::Uint(s.v))
    &&& map_get_spec(m, 1) == Some(CborVal::Text(encode_utf8(s.scope_id.0@)))
    &&& map_get_spec(m, 2) == Some(CborVal::Uint(s.scope_state_seq))
    &&& map_get_spec(m, 3) == Some(CborVal::Bytes(s.prev_hash@))
    &&& map_get_spec(m, 4) == Some(CborVal::Uint(s.scope_epoch))
    &&& map_get_spec(m, 5) == Some(CborVal::Uint(s.kind))
    &&& map_get_spec(m, 6) == Some(s.payload@)
    &&& map_get_spec(m, 7) == Some(CborVal::Text(encode_utf8(s.signer_device_id.0@)))
    &&& s.sig_suite is HybridSig1
    &&& map_get_spec(m, 9) == Some(CborVal::Bytes(s.signature@))
    &&& s.prev_hash@.len() == 32
}

impl ScopeStateV1 {
    /// Reads a scope state out of a decoded map. The previous hash must be
    /// 32 bytes and the suite `hybrid-sig-1`.
    pub fn from_cbor(value: &CborValue) -> (r: CoreResult<ScopeStateV1>)
        ensures
            r is Ok <==> scope_state_shape(value@),
            r is Ok ==> scope_state_from(r->Ok_0, value@->Dict_0),
    {
        let map = as_map(value)?;
        let v = req_uint(map, 0)?;
        let scope_id = ScopeId(req_text(map, 1)?);
        let scope_state_seq = req_uint(map, 2)?;
        let prev_hash = req_bytes(map, 3)?;
        if prev_hash.len() != 32 {
            return Err(CoreError::Format("invalid scope_state.prev_hash length".to_owned()));
        }
        let scope_epoch = req_uint(map, 4)?;
        let kind = req_uint(map, 5)?;
        let payload = req_value(map, 6)?.clone();
        let signer_device_id = DeviceId(req_text(map, 7)?);
        let suite_tag = req_text(map, 8)?;
        if !str_eq(suite_tag.as_str(), "hybrid-sig-1") {
            proof {
                assert(vstd::utf8::decode_utf8(encode_utf8(suite_tag@)) == suite_tag@);
                assert(vstd::utf8::decode_utf8(encode_utf8("hybrid-sig-1"@))
                    == "hybrid-sig-1"@);
            }
            return Err(CoreError::Format("unknown sig id".to_owned()));
        }
        let signature = req_bytes(map, 9)?;
        Ok(
            ScopeStateV1 {
                v,
                scope_id,
                scope_state_seq,
                prev_hash,
                scope_epoch,
                kind,
                payload,
                signer_device_id,
                sig_suite: SigCiphersuiteId::HybridSig1,
                signature,
            },
        )
    }

    /// The canonical bytes the hybrid signature covers: every field but the
    /// signature. The payload must be canonical.
    pub fn to_be_signed_bytes(&self) -> (r: CoreResult<Vec<u8>>)
        ensures
            r is Ok <==> cbor_canon(self.payload@),
            r is Ok ==> r->Ok_0@ == cbor_enc(scope_state_tbs_val(*self)),
    {
        if !is_canonical(&self.payload) {
            return Err(CoreError::Cbor("non-canonical payload".to_owned()));
        }
        let entries = vec![
            (0u64, cbor_uint(self.v)),
            (1u64, cbor_text(self.scope_id.0.as_str())),
            (2u64, cbor_uint(self.scope_state_seq)),
            (3u64, cbor_bytes(self.prev_hash.as_slice())),
            (4u64, cbor_uint(self.scope_epoch)),
            (5u64, cbor_uint(self.kind)),
            (6u64, self.payload.clone()),
            (7u64, cbor_text(self.signer_device_id.0.as_str())),
            (8u64, cbor_text(self.sig_suite.as_str())),
        ];
        let ghost ev = entries@;
        let value = build_uint_map(entries);
        proof {
            lemma_uint_entry_views(ev);
            assert(uint_entry_views(ev) =~= scope_state_tbs_entries(*self));
        }
        Ok(encode_canon_value(&value))
    }

    /// The scope-state reference: SHA-256 over the canonical signed
    /// encoding, signature included. The payload must be canonical.
    pub fn scope_state_ref_bytes(&self) -> (r: CoreResult<Vec<u8>>)
        ensures
            r is Ok <==> cbor_canon(self.payload@),
            r is Ok ==> r->Ok_0@ == scope_state_ref_of(*self) && r->Ok_0@.len() == 32,
    {
        let signed = encode_scope_state_v1(self)?;
        let digest = sha256(signed.as_slice());
        let out = crate::cbor::slice_to_vec(digest.as_slice(), 0, 32);
        proof {
            assert(digest@.subrange(0, 32) =~= digest@);
        }
        Ok(out)
    }

    /// The scope-state reference in lowercase hex.
    pub fn scope_state_ref(&self) -> (r: CoreResult<String>)
        ensures
            r is Ok <==> cbor_canon(self.payload@),
            r is Ok ==> r->Ok_0@ == hex_of(scope_state_ref_of(*self)),
    {
        let bytes = self.scope_state_ref_bytes()?;
        Ok(hex_encode(bytes.as_slice()))
    }
}

/// Encodes the signed form of a scope state. The payload must be
/// canonical.
pub fn encode_scope_state_v1(scope_state: &ScopeStateV1) -> (r: CoreResult<Vec<u8>>)
    ensures
        r is Ok <==> cbor_canon(scope_state.payload@),
        r is Ok ==> r->Ok_0@ == cbor_enc(scope_state_signed_val(*scope_state)),
{
    if !is_canonical(&scope_state.payload) {
        return Err(CoreError::Cbor("non-canonical payload".to_owned()));
    }
    let entries = vec![
        (0u64, cbor_uint(scope_state.v)),
        (1u64, cbor_text(scope_state.scope_id.0.as_str())),
        (2u64, cbor_uint(scope_state.scope_state_seq)),
        (3u64, cbor_bytes(scope_state.prev_hash.as_slice())),
        (4u64, cbor_uint(scope_state.scope_epoch)),
        (5u64, cbor_uint(scope_state.kind)),
        (6u64, scope_state.payload.clone()),
        (7u64, cbor_text(scope_state.signer_device_id.0.as_str())),
        (8u64, cbor_text(scope_state.sig_suite.as_str())),
        (9u64, cbor_bytes(scope_state.signature.as_slice())),
    ];
    let ghost ev = entries@;
    let value = build_uint_map(entries);
    proof {
        lemma_uint_entry_views(ev);
        assert(uint_entry_views(ev) =~= scope_state_tbs_entries(*scope_state).push(
            (9u64, CborVal::Bytes(scope_state.signature@)),
        ));
    }
    Ok(encode_canon_value(&value))
}

/// Decodes a canonical signed scope state. Exactly the canonical encodings
/// of scope-state-shaped maps are accepted.
pub fn decode_scope_state_v1(bytes: &[u8]) -> (r: CoreResult<ScopeStateV1>)
    ensures
        r is Ok <==> (decode_spec(bytes@, 0x100000, 64, 4096) matches Some(v)
            && scope_state_shape(v)),
        r is Ok ==> ({
            let v = decode_spec(bytes@, 0x100000, 64, 4096)->Some_0;
            scope_state_from(r->Ok_0, v->Dict_0) && cbor_canon(r->Ok_0.payload@)
        }),
{
    let limits = CborLimits::standard();
    let value = decode_canonical_value(bytes, &limits)?;
    let r = ScopeStateV1::from_cbor(&value)?;
    proof {
        crate::cbor::lemma_canon_dict_parts(value@);
        lemma_map_get_canon(value@->Dict_0, 6);
    }
    Ok(r)
}

/// The to-be-signed entries of a resource grant, keys ascending, with the
/// optional policy at key 9.
pub open spec fn grant_tbs_entries(g: ResourceGrantV1) -> Seq<(u64, CborVal)> {
    let head = seq![
        (0u64, CborVal::Uint(g.v)),
        (1u64, CborVal::Text(encode_utf8(g.grant_id@))),
        (2u64, CborVal::Text(encode_utf8(g.scope_id.0@))),
        (3u64, CborVal::Uint(g.grant_seq)),
        (4u64, CborVal::Bytes(g.prev_hash@)),
        (5u64, CborVal::Bytes(g.scope_state_ref@)),
        (6u64, CborVal::Uint(g.scope_epoch)),
        (7u64, CborVal::Text(encode_utf8(g.resource_id.0@))),
        (8u64, CborVal::Text(encode_utf8(g.resource_key_id.0@))),
    ];
    let mid = match g.policy {
        Some(p) => head + seq![(9u64, p@)],
        None => head,
    };
    mid + seq![
        (10u64, CborVal::Text(encode_utf8(aead_id_tag(g.aead)))),
        (11u64, CborVal::Bytes(g.nonce@)),
        (12u64, CborVal::Bytes(g.wrapped_key@)),
        (13u64, CborVal::Text(encode_utf8(g.signer_device_id.0@))),
        (14u64, CborVal::Text(encode_utf8(sig_id_tag(g.sig_suite)))),
    ]
}

/// The to-be-signed form of a resource grant.
pub open spec fn grant_tbs_val(g: ResourceGrantV1) -> CborVal {
    uint_map(grant_tbs_entries(g))
}

/// The signed form of a resource grant: the to-be-signed entries with the
/// signature at key 15.
pub open spec fn grant_signed_val(g: ResourceGrantV1) -> CborVal {
    uint_map(grant_tbs_entries(g).push((15u64, CborVal::Bytes(g.signature@))))
}

/// The SHA-256 reference of a resource grant: the digest of its canonical
/// signed encoding.
pub open spec fn grant_ref_of(g: ResourceGrantV1) -> Seq<u8> {
    sha256_of(cbor_enc(grant_signed_val(g)))
}

/// Whether the grant's policy, if any, is canonical.
pub open spec fn grant_policy_canon(g: ResourceGrantV1) -> bool {
    match g.policy {
        Some(p) => cbor_canon(p@),
        None => true,
    }
}

/// Whether a decoded value has the shape of a signed resource grant.
pub open spec fn grant_shape(v: CborVal) -> bool {
    &&& v is Dict
    &&& ({
        let m = v->Dict_0;
        &&& (map_get_spec(m, 0) matches Some(x) && x is Uint)
        &&& (map_get_spec(m, 1) matches Some(x) && x is Text)
        &&& (map_get_spec(m, 2) matches Some(x) && x is Text)
        &&& (map_get_spec(m, 3) matches Some(x) && x is Uint)
        &&& (map_get_spec(m, 4) matches Some(x) && x is Bytes && x->Bytes_0.len() == 32)
        &&& (map_get_spec(m, 5) matches Some(x) && x is Bytes && x->Bytes_0.len() == 32)
        &&& (map_get_spec(m, 6) matches Some(x) && x is Uint)
        &&& (map_get_spec(m, 7) matches Some(x) && x is Text)
        &&& (map_get_spec(m, 8) matches Some(x) && x is Text)
        &&& map_get_spec(m, 10) == Some(CborVal::Text(encode_utf8(aead_id_tag(AeadId::Aead1))))
        &&& (map_get_spec(m, 11) matches Some(x) && x is Bytes && x->Bytes_0.len() == 12)
        &&& (map_get_spec(m, 12) matches Some(x) && x is Bytes)
        &&& (map_get_spec(m, 13) matches Some(x) && x is Text)
        &&& map_get_spec(m, 14) == Some(
            CborVal::Text(encode_utf8(sig_id_tag(SigCiphersuiteId::HybridSig1))),
        )
        &&& (map_get_spec(m, 15) matches Some(x) && x is Bytes)
    })
}

/// What the fields of a resource grant say of the map it was read from.
pub open spec fn grant_from(g: ResourceGrantV1, m: Seq<(CborVal, CborVal)>) -> bool {
    &&& map_get_spec(m, 0) == Some(CborVal::Uint(g.v))
    &&& map_get_spec(m, 1) == Some(CborVal::Text(encode_utf8(g.grant_id@)))
    &&& map_get_spec(m, 2) == Some(CborVal::Text(encode_utf8(g.scope_id.0@)))
    &&& map_get_spec(m, 3) == Some(CborVal::Uint(g.grant_seq))
    &&& map_get_spec(m, 4) == Some(CborVal::Bytes(g.prev_hash@))
    &&& map_get_spec(m, 5) == Some(CborVal::Bytes(g.scope_state_ref@))
    &&& map_get_spec(m, 6) == Some(CborVal::Uint(g.scope_epoch))
    &&& map_get_spec(m, 7) == Some(CborVal::Text(encode_utf8(g.resource_id.0@)))
    &&& map_get_spec(m, 8) == Some(CborVal::Text(encode_utf8(g.resource_key_id.0@)))
    &&& (match g.policy {
        Some(p) => map_get_spec(m, 9) == Some(p@),
        None => map_get_spec(m, 9) is None,
    })
    &&& g.aead is Aead1
    &&& map_get_spec(m, 11) == Some(CborVal::Bytes(g.nonce@))
    &&& map_get_spec(m, 12) == Some(CborVal::Bytes(g.wrapped_key@))
    &&& map_get_spec(m, 13) == Some(CborVal::Text(encode_utf8(g.signer_device_id.0@)))
    &&& g.sig_suite is HybridSig1
    &&& map_get_spec(m, 15) == Some(CborVal::Bytes(g.signature@))
    &&& g.prev_hash@.len() == 32
    &&& g.scope_state_ref@.len() == 32
    &&& g.nonce@.len() == 12
}

impl ResourceGrantV1 {
    /// Reads a resource grant out of a decoded map. The previous hash and
    /// scope-state reference must be 32 bytes, the nonce 12 bytes, and the
    /// suites `aead-1` and `hybrid-sig-1`.
    pub fn from_cbor(value: &CborValue) -> (r: CoreResult<ResourceGrantV1>)
        ensures
            r is Ok <==> grant_shape(value@),
            r is Ok ==> grant_from(r->Ok_0, value@->Dict_0),
    {
        let map = as_map(value)?;
        let v = req_uint(map, 0)?;
        let grant_id = req_text(map, 1)?;
        let scope_id = ScopeId(req_text(map, 2)?);
        let grant_seq = req_uint(map, 3)?;
        let prev_hash = req_bytes(map, 4)?;
        if prev_hash.len() != 32 {
            return Err(CoreError::Format("invalid resource_grant.prev_hash length".to_owned()));
        }
        let scope_state_ref = req_bytes(map, 5)?;
        if scope_state_ref.len() != 32 {
            return Err(
                CoreError::Format("invalid resource_grant.scope_state_ref length".to_owned()),
            );
        }
        let scope_epoch = req_uint(map, 6)?;
        let resource_id = ResourceId(req_text(map, 7)?);
        let resource_key_id = ResourceKeyId(req_text(map, 8)?);
        let policy = match opt_value(map, 9) {
            Some(p) => Some(p.clone()),
            None => None,
        };
        let aead_tag = req_text(map, 10)?;
        if !str_eq(aead_tag.as_str(), "aead-1") {
            proof {
                assert(vstd::utf8::decode_utf8(encode_utf8(aead_tag@)) == aead_tag@);
                assert(vstd::utf8::decode_utf8(encode_utf8("aead-1"@)) == "aead-1"@);
            }
            return Err(CoreError::Format("unknown aead id".to_owned()));
        }
        let nonce = req_bytes(map, 11)?;
        if nonce.len() != 12 {
            return Err(CoreError::Format("invalid resource_grant.nonce length".to_owned()));
        }
        let wrapped_key = req_bytes(map, 12)?;
        let signer_device_id = DeviceId(req_text(map, 13)?);
        let suite_tag = req_text(map, 14)?;
        if !str_eq(suite_tag.as_str(), "hybrid-sig-1") {
            proof {
                assert(vstd::utf8::decode_utf8(encode_utf8(suite_tag@)) == suite_tag@);
                assert(vstd::utf8::decode_utf8(encode_utf8("hybrid-sig-1"@))
                    == "hybrid-sig-1"@);
            }
            return Err(CoreError::Format("unknown sig id".to_owned()));
        }
        let signature = req_bytes(map, 15)?;
        Ok(
            ResourceGrantV1 {
                v,
                grant_id,
                scope_id,
                grant_seq,
                prev_hash,
                scope_state_ref,
                scope_epoch,
                resource_id,
                resource_key_id,
                policy,
                aead: AeadId::Aead1,
                nonce,
                wrapped_key,
                signer_device_id,
                sig_suite: SigCiphersuiteId::HybridSig1,
                signature,
            },
        )
    }

    /// The canonical bytes the hybrid signature covers: every field but the
    /// signature. The policy, if any, must be canonical.
    pub fn to_be_signed_bytes(&self) -> (r: CoreResult<Vec<u8>>)
        ensures
            r is Ok <==> grant_policy_canon(*self),
            r is Ok ==> r->Ok_0@ == cbor_enc(grant_tbs_val(*self)),
    {
        let entries = self.build_entries(false)?;
        let ghost ev = entries@;
        let value = build_uint_map(entries);
        proof {
            lemma_uint_entry_views(ev);
            assert(uint_entry_views(ev) =~= grant_tbs_entries(*self));
        }
        Ok(encode_canon_value(&value))
    }

    /// The grant reference: SHA-256 over the canonical signed encoding,
    /// signature included.
    pub fn grant_ref_bytes(&self) -> (r: CoreResult<Vec<u8>>)
        ensures
            r is Ok <==> grant_policy_canon(*self),
            r is Ok ==> r->Ok_0@ == grant_ref_of(*self) && r->Ok_0@.len() == 32,
    {
        let signed = encode_resource_grant_v1(self)?;
        let digest = sha256(signed.as_slice());
        let out = crate::cbor::slice_to_vec(digest.as_slice(), 0, 32);
        proof {
            assert(digest@.subrange(0, 32) =~= digest@);
        }
        Ok(out)
    }

    /// The grant's map entries, with or without the signature at key 15.
    fn build_entries(&self, signed: bool) -> (r: CoreResult<Vec<(u64, CborValue)>>)
        ensures
            r is Ok <==> grant_policy_canon(*self),
            r is Ok ==> uint_entry_views(r->Ok_0@) == (if signed {
                grant_tbs_entries(*self).push((15u64, CborVal::Bytes(self.signature@)))
            } else {
                grant_tbs_entries(*self)
            }),
            r is Ok ==> forall|i: int|
                0 <= i < r->Ok_0@.len() ==> (#[trigger] r->Ok_0@[i].0) < 24 && cbor_canon(
                    r->Ok_0@[i].1@,
                ),
            r is Ok ==> forall|i: int|
                0 <= i < r->Ok_0@.len() - 1 ==> (#[trigger] r->Ok_0@[i].0) < r->Ok_0@[i + 1].0,
    {
        let mut entries = vec![
            (0u64, cbor_uint(self.v)),
            (1u64, cbor_text(self.grant_id.as_str())),
            (2u64, cbor_text(self.scope_id.0.as_str())),
            (3u64, cbor_uint(self.grant_seq)),
            (4u64, cbor_bytes(self.prev_hash.as_slice())),
            (5u64, cbor_bytes(self.scope_state_ref.as_slice())),
            (6u64, cbor_uint(self.scope_epoch)),
            (7u64, cbor_text(self.resource_id.0.as_str())),
            (8u64, cbor_text(self.resource_key_id.0.as_str())),
        ];
        let ghost head = seq![
            (0u64, CborVal::Uint(self.v)),
            (1u64, CborVal::Text(encode_utf8(self.grant_id@))),
            (2u64, CborVal::Text(encode_utf8(self.scope_id.0@))),
            (3u64, CborVal::Uint(self.grant_seq)),
            (4u64, CborVal::Bytes(self.prev_hash@)),
            (5u64, CborVal::Bytes(self.scope_state_ref@)),
            (6u64, CborVal::Uint(self.scope_epoch)),
            (7u64, CborVal::Text(encode_utf8(self.resource_id.0@))),
            (8u64, CborVal::Text(encode_utf8(self.resource_key_id.0@))),
        ];
        proof {
            lemma_uint_entry_views(entries@);
            assert(uint_entry_views(entries@) =~= head);
        }
        match &self.policy {
            Some(p) => {
                if !is_canonical(p) {
                    return Err(CoreError::Cbor("non-canonical policy".to_owned()));
                }
                entries.push((9u64, p.clone()));
                proof {
                    crate::cbor::lemma_uint_entry_views(entries@);
                    assert(uint_entry_views(entries@) =~= head + seq![
                        (9u64, self.policy->Some_0@),
                    ]);
                }
            },
            None => {},
        }
        let ghost mid = uint_entry_views(entries@);
        entries.push((10u64, cbor_text(self.aead.as_str())));
        entries.push((11u64, cbor_bytes(self.nonce.as_slice())));
        entries.push((12u64, cbor_bytes(self.wrapped_key.as_slice())));
        entries.push((13u64, cbor_text(self.signer_device_id.0.as_str())));
        entries.push((14u64, cbor_text(self.sig_suite.as_str())));
        if signed {
            entries.push((15u64, cbor_bytes(self.signature.as_slice())));
        }
        proof {
            lemma_uint_entry_views(entries@);
            if signed {
                assert(uint_entry_views(entries@) =~= grant_tbs_entries(*self).push(
                    (15u64, CborVal::Bytes(self.signature@)),
                ));
            } else {
                assert(uint_entry_views(entries@) =~= grant_tbs_entries(*self));
            }
            lemma_uint_entry_views(entries@);
        }
        Ok(entries)
    }
}

/// Encodes the signed form of a resource grant. The policy, if any, must
/// be canonical.
pub fn encode_resource_grant_v1(grant: &ResourceGrantV1) -> (r: CoreResult<Vec<u8>>)
    ensures
        r is Ok <==> grant_policy_canon(*grant),
        r is Ok ==> r->Ok_0@ == cbor_enc(grant_signed_val(*grant)),
{
    let entries = grant.build_entries(true)?;
    let value = build_uint_map(entries);
    Ok(encode_canon_value(&value))
}

/// Decodes a canonical signed resource grant. Exactly the canonical
/// encodings of grant-shaped maps are accepted.
pub fn decode_resource_grant_v1(bytes: &[u8]) -> (r: CoreResult<ResourceGrantV1>)
    ensures
        r is Ok <==> (decode_spec(bytes@, 0x100000, 64, 4096) matches Some(v) && grant_shape(v)),
        r is Ok ==> ({
            let v = decode_spec(bytes@, 0x100000, 64, 4096)->Some_0;
            grant_from(r->Ok_0, v->Dict_0) && grant_policy_canon(r->Ok_0)
        }),
{
    let limits = CborLimits::standard();
    let value = decode_canonical_value(bytes, &limits)?;
    let r = ResourceGrantV1::from_cbor(&value)?;
    proof {
        crate::cbor::lemma_canon_dict_parts(value@);
        if map_get_spec(value@->Dict_0, 9) is Some {
            lemma_map_get_canon(value@->Dict_0, 9);
        }
    }
    Ok(r)
}

/// The common head of a key envelope's entries: keys 0 through 12 without
/// the signature.
pub open spec fn envelope_head_entries(e: KeyEnvelopeV1) -> Seq<(u64, CborVal)> {
    seq![
        (0u64, CborVal::Uint(e.v)),
        (1u64, CborVal::Text(encode_utf8(e.envelope_id@))),
        (2u64, CborVal::Text(encode_utf8(e.scope_id.0@))),
        (3u64, CborVal::Uint(e.scope_epoch.0)),
        (4u64, CborVal::Text(encode_utf8(e.recipient_user_id.0@))),
        (5u64, CborVal::Bytes(e.scope_state_ref@)),
        (6u64, CborVal::Text(encode_utf8(kem_id_tag(e.kem)))),
        (7u64, CborVal::Text(encode_utf8(aead_id_tag(e.aead)))),
        (8u64, CborVal::Bytes(e.enc@)),
        (9u64, CborVal::Bytes(e.nonce@)),
        (10u64, CborVal::Bytes(e.wrapped_scope_key@)),
        (11u64, CborVal::Text(encode_utf8(e.signer_device_id.0@))),
        (12u64, CborVal::Text(encode_utf8(sig_id_tag(e.sig_suite)))),
    ]
}

/// The optional fingerprint entry at key 14.
pub open spec fn envelope_fp_entries(e: KeyEnvelopeV1) -> Seq<(u64, CborVal)> {
    match e.recipient_uk_pub_fingerprint {
        Some(fp) => seq![(14u64, CborVal::Bytes(fp@))],
        None => Seq::empty(),
    }
}

/// The to-be-signed form of a key envelope: the head entries and, when
/// present, the fingerprint at key 14.
pub open spec fn envelope_tbs_val(e: KeyEnvelopeV1) -> CborVal {
    uint_map(envelope_head_entries(e) + envelope_fp_entries(e))
}

/// The signed form of a key envelope: the head, the signature at key 13,
/// and, when present, the fingerprint at key 14.
pub open spec fn envelope_signed_val(e: KeyEnvelopeV1) -> CborVal {
    uint_map(
        envelope_head_entries(e) + seq![(13u64, CborVal::Bytes(e.signature@))]
            + envelope_fp_entries(e),
    )
}

/// Whether a decoded value has the shape of a signed key envelope.
pub open spec fn envelope_shape(v: CborVal) -> bool {
    &&& v is Dict
    &&& ({
        let m = v->Dict_0;
        &&& (map_get_spec(m, 0) matches Some(x) && x is Uint)
        &&& (map_get_spec(m, 1) matches Some(x) && x is Text)
        &&& (map_get_spec(m, 2) matches Some(x) && x is Text)
        &&& (map_get_spec(m, 3) matches Some(x) && x is Uint)
        &&& (map_get_spec(m, 4) matches Some(x) && x is Text)
        &&& (map_get_spec(m, 5) matches Some(x) && x is Bytes && x->Bytes_0.len() == 32)
        &&& map_get_spec(m, 6) == Some(
            CborVal::Text(encode_utf8(kem_id_tag(KemCiphersuiteId::HybridKem1))),
        )
        &&& map_get_spec(m, 7) == Some(CborVal::Text(encode_utf8(aead_id_tag(AeadId::Aead1))))
        &&& (map_get_spec(m, 8) matches Some(x) && x is Bytes)
        &&& (map_get_spec(m, 9) matches Some(x) && x is Bytes && x->Bytes_0.len() == 12)
        &&& (map_get_spec(m, 10) matches Some(x) && x is Bytes)
        &&& (map_get_spec(m, 11) matches Some(x) && x is Text)
        &&& map_get_spec(m, 12) == Some(
            CborVal::Text(encode_utf8(sig_id_tag(SigCiphersuiteId::HybridSig1))),
        )
        &&& (map_get_spec(m, 13) matches Some(x) && x is Bytes)
        &&& (map_get_spec(m, 14) matches Some(x) ==> x is Bytes)
    })
}

/// What the fields of a key envelope say of the map it was read from.
pub open spec fn envelope_from(e: KeyEnvelopeV1, m: Seq<(CborVal, CborVal)>) -> bool {
    &&& map_get_spec(m, 0) == Some(CborVal::Uint(e.v))
    &&& map_get_spec(m, 1) == Some(CborVal::Text(encode_utf8(e.envelope_id@)))
    &&& map_get_spec(m, 2) == Some(CborVal::Text(encode_utf8(e.scope_id.0@)))
    &&& map_get_spec(m, 3) == Some(CborVal::Uint(e.scope_epoch.0))
    &&& map_get_spec(m, 4) == Some(CborVal::Text(encode_utf8(e.recipient_user_id.0@)))
    &&& map_get_spec(m, 5) == Some(CborVal::Bytes(e.scope_state_ref@))
    &&& e.kem is HybridKem1
    &&& e.aead is Aead1
    &&& map_get_spec(m, 8) == Some(CborVal::Bytes(e.enc@))
    &&& map_get_spec(m, 9) == Some(CborVal::Bytes(e.nonce@))
    &&& map_get_spec(m, 10) == Some(CborVal::Bytes(e.wrapped_scope_key@))
    &&& map_get_spec(m, 11) == Some(CborVal::Text(encode_utf8(e.signer_device_id.0@)))
    &&& e.sig_suite is HybridSig1
    &&& map_get_spec(m, 13) == Some(CborVal::Bytes(e.signature@))
    &&& (match e.recipient_uk_pub_fingerprint {
        Some(fp) => map_get_spec(m, 14) == Some(CborVal::Bytes(fp@)),
        None => map_get_spec(m, 14) is None,
    })
    &&& e.scope_state_ref@.len() == 32
    &&& e.nonce@.len() == 12
}

/// One decoded map determines a key envelope's field views: any two
/// envelopes read from the same map agree everywhere, including on the
/// to-be-signed form.
pub proof fn lemma_envelope_from_functional(
    a: KeyEnvelopeV1,
    b: KeyEnvelopeV1,
    m: Seq<(CborVal, CborVal)>,
)
    requires
        envelope_from(a, m),
        envelope_from(b, m),
    ensures
        a.v == b.v,
        a.envelope_id@ == b.envelope_id@,
        a.scope_id.0@ == b.scope_id.0@,
        a.scope_epoch.0 == b.scope_epoch.0,
        a.recipient_user_id.0@ == b.recipient_user_id.0@,
        a.scope_state_ref@ == b.scope_state_ref@,
        a.enc@ == b.enc@,
        a.nonce@ == b.nonce@,
        a.wrapped_scope_key@ == b.wrapped_scope_key@,
        a.signer_device_id.0@ == b.signer_device_id.0@,
        a.signature@ == b.signature@,
        (match (a.recipient_uk_pub_fingerprint, b.recipient_uk_pub_fingerprint) {
            (Some(x), Some(y)) => x@ == y@,
            (None, None) => true,
            _ => false,
        }),
        envelope_tbs_val(a) == envelope_tbs_val(b),
{
    assert(vstd::utf8::decode_utf8(encode_utf8(a.envelope_id@)) == a.envelope_id@);
    assert(vstd::utf8::decode_utf8(encode_utf8(b.envelope_id@)) == b.envelope_id@);
    assert(vstd::utf8::decode_utf8(encode_utf8(a.scope_id.0@)) == a.scope_id.0@);
    assert(vstd::utf8::decode_utf8(encode_utf8(b.scope_id.0@)) == b.scope_id.0@);
    assert(vstd::utf8::decode_utf8(encode_utf8(a.recipient_user_id.0@)) == a.recipient_user_id.0@);
    assert(vstd::utf8::decode_utf8(encode_utf8(b.recipient_user_id.0@)) == b.recipient_user_id.0@);
    assert(vstd::utf8::decode_utf8(encode_utf8(a.signer_device_id.0@)) == a.signer_device_id.0@);
    assert(vstd::utf8::decode_utf8(encode_utf8(b.signer_device_id.0@)) == b.signer_device_id.0@);
    assert(envelope_head_entries(a) =~= envelope_head_entries(b));
    assert(envelope_fp_entries(a) =~= envelope_fp_entries(b));
}

/// One decoded map determines a resource grant's field views: any two
/// grants read from the same map agree on every field the service checks.
pub proof fn lemma_grant_from_functional(
    a: ResourceGrantV1,
    b: ResourceGrantV1,
    m: Seq<(CborVal, CborVal)>,
)
    requires
        grant_from(a, m),
        grant_from(b, m),
    ensures
        a.scope_id.0@ == b.scope_id.0@,
        a.scope_epoch == b.scope_epoch,
        a.scope_state_ref@ == b.scope_state_ref@,
        a.resource_id.0@ == b.resource_id.0@,
        a.resource_key_id.0@ == b.resource_key_id.0@,
        a.nonce@ == b.nonce@,
        a.wrapped_key@ == b.wrapped_key@,
        a.signer_device_id.0@ == b.signer_device_id.0@,
        a.signature@ == b.signature@,
{
    assert(vstd::utf8::decode_utf8(encode_utf8(a.scope_id.0@)) == a.scope_id.0@);
    assert(vstd::utf8::decode_utf8(encode_utf8(b.scope_id.0@)) == b.scope_id.0@);
    assert(vstd::utf8::decode_utf8(encode_utf8(a.resource_id.0@)) == a.resource_id.0@);
    assert(vstd::utf8::decode_utf8(encode_utf8(b.resource_id.0@)) == b.resource_id.0@);
    assert(vstd::utf8::decode_utf8(encode_utf8(a.resource_key_id.0@)) == a.resource_key_id.0@);
    assert(vstd::utf8::decode_utf8(encode_utf8(b.resource_key_id.0@)) == b.resource_key_id.0@);
    assert(vstd::utf8::decode_utf8(encode_utf8(a.signer_device_id.0@)) == a.signer_device_id.0@);
    assert(vstd::utf8::decode_utf8(encode_utf8(b.signer_device_id.0@)) == b.signer_device_id.0@);
}

impl KeyEnvelopeV1 {
    /// Reads a key envelope out of a decoded map. The scope-state reference
    /// must be 32 bytes, the nonce 12 bytes, and the suites `hybrid-kem-1`,
    /// `aead-1`, and `hybrid-sig-1`.
    pub fn from_cbor(value: &CborValue) -> (r: CoreResult<KeyEnvelopeV1>)
        ensures
            r is Ok <==> envelope_shape(value@),
            r is Ok ==> envelope_from(r->Ok_0, value@->Dict_0),
    {
        let map = as_map(value)?;
        let v = req_uint(map, 0)?;
        let envelope_id = req_text(map, 1)?;
        let scope_id = ScopeId(req_text(map, 2)?);
        let scope_epoch = ScopeEpoch(req_uint(map, 3)?);
        let recipient_user_id = UserId(req_text(map, 4)?);
        let scope_state_ref = req_bytes(map, 5)?;
        if scope_state_ref.len() != 32 {
            return Err(
                CoreError::Format("invalid key_envelope.scope_state_ref length".to_owned()),
            );
        }
        let kem_tag = req_text(map, 6)?;
        if !str_eq(kem_tag.as_str(), "hybrid-kem-1") {
            proof {
                assert(vstd::utf8::decode_utf8(encode_utf8(kem_tag@)) == kem_tag@);
                assert(vstd::utf8::decode_utf8(encode_utf8("hybrid-kem-1"@))
                    == "hybrid-kem-1"@);
            }
            return Err(CoreError::Format("unknown kem id".to_owned()));
        }
        let aead_tag = req_text(map, 7)?;
        if !str_eq(aead_tag.as_str(), "aead-1") {
            proof {
                assert(vstd::utf8::decode_utf8(encode_utf8(aead_tag@)) == aead_tag@);
                assert(vstd::utf8::decode_utf8(encode_utf8("aead-1"@)) == "aead-1"@);
            }
            return Err(CoreError::Format("unknown aead id".to_owned()));
        }
        let enc = req_bytes(map, 8)?;
        let nonce = req_bytes(map, 9)?;
        if nonce.len() != 12 {
            return Err(CoreError::Format("invalid key_envelope.nonce length".to_owned()));
        }
        let wrapped_scope_key = req_bytes(map, 10)?;
        let signer_device_id = DeviceId(req_text(map, 11)?);
        let suite_tag = req_text(map, 12)?;
        if !str_eq(suite_tag.as_str(), "hybrid-sig-1") {
            proof {
                assert(vstd::utf8::decode_utf8(encode_utf8(suite_tag@)) == suite_tag@);
                assert(vstd::utf8::decode_utf8(encode_utf8("hybrid-sig-1"@))
                    == "hybrid-sig-1"@);
            }
            return Err(CoreError::Format("unknown sig id".to_owned()));
        }
        let signature = req_bytes(map, 13)?;
        let recipient_uk_pub_fingerprint = crate::cbor::opt_bytes(map, 14)?;
        Ok(
            KeyEnvelopeV1 {
                v,
                envelope_id,
                scope_id,
                scope_epoch,
                recipient_user_id,
                scope_state_ref,
                kem: KemCiphersuiteId::HybridKem1,
                aead: AeadId::Aead1,
                enc,
                nonce,
                wrapped_scope_key,
                signer_device_id,
                sig_suite: SigCiphersuiteId::HybridSig1,
                signature,
                recipient_uk_pub_fingerprint,
            },
        )
    }

    /// The canonical bytes the hybrid signature covers: every field but the
    /// signature, with the fingerprint at key 14 when present.
    #[verifier::rlimit(50)]
    pub fn to_be_signed_bytes(&self) -> (r: CoreResult<Vec<u8>>)
        ensures
            r is Ok,
            r is Ok ==> r->Ok_0@ == cbor_enc(envelope_tbs_val(*self)),
    {
        let mut entries = self.head_entries();
        let ghost base = entries@;
        match &self.recipient_uk_pub_fingerprint {
            Some(fp) => {
                entries.push((14u64, cbor_bytes(fp.as_slice())));
            },
            None => {},
        }
        let ghost ev = entries@;
        proof {
            lemma_uint_entry_views(base);
            lemma_uint_entry_views(ev);
            assert forall|i: int| 0 <= i < ev.len() implies (#[trigger] ev[i].0) < 24
                && cbor_canon(ev[i].1@) by {
                if i < 13 {
                    assert(ev[i] == base[i]);
                }
            }
            assert forall|i: int| 0 <= i < ev.len() - 1 implies (#[trigger] ev[i].0) < ev[i
                + 1].0 by {
                assert(ev[i] == base[i]);
                if i + 1 < 13 {
                    assert(ev[i + 1] == base[i + 1]);
                }
            }
            assert(uint_entry_views(ev) =~= envelope_head_entries(*self) + envelope_fp_entries(
                *self,
            ));
        }
        let value = build_uint_map(entries);
        Ok(encode_canon_value(&value))
    }

    /// The envelope's entries for keys 0 through 12.
    fn head_entries(&self) -> (r: Vec<(u64, CborValue)>)
        ensures
            uint_entry_views(r@) == envelope_head_entries(*self),
            forall|i: int|
                0 <= i < r@.len() ==> (#[trigger] r@[i].0) < 24 && cbor_canon(r@[i].1@)
                    && r@[i].0 == i,
            r@.len() == 13,
    {
        let entries = vec![
            (0u64, cbor_uint(self.v)),
            (1u64, cbor_text(self.envelope_id.as_str())),
            (2u64, cbor_text(self.scope_id.0.as_str())),
            (3u64, cbor_uint(self.scope_epoch.0)),
            (4u64, cbor_text(self.recipient_user_id.0.as_str())),
            (5u64, cbor_bytes(self.scope_state_ref.as_slice())),
            (6u64, cbor_text(self.kem.as_str())),
            (7u64, cbor_text(self.aead.as_str())),
            (8u64, cbor_bytes(self.enc.as_slice())),
            (9u64, cbor_bytes(self.nonce.as_slice())),
            (10u64, cbor_bytes(self.wrapped_scope_key.as_slice())),
            (11u64, cbor_text(self.signer_device_id.0.as_str())),
            (12u64, cbor_text(self.sig_suite.as_str())),
        ];
        proof {
            lemma_uint_entry_views(entries@);
            assert(uint_entry_views(entries@) =~= envelope_head_entries(*self));
        }
        entries
    }
}

/// Encodes the signed form of a key envelope.
#[verifier::rlimit(50)]
pub fn encode_key_envelope_v1(envelope: &KeyEnvelopeV1) -> (r: CoreResult<Vec<u8>>)
    ensures
        r is Ok,
        r is Ok ==> r->Ok_0@ == cbor_enc(envelope_signed_val(*envelope)),
{
    let mut entries = envelope.head_entries();
    let ghost base = entries@;
    entries.push((13u64, cbor_bytes(envelope.signature.as_slice())));
    match &envelope.recipient_uk_pub_fingerprint {
        Some(fp) => {
            entries.push((14u64, cbor_bytes(fp.as_slice())));
        },
        None => {},
    }
    let ghost ev = entries@;
    proof {
        lemma_uint_entry_views(base);
        lemma_uint_entry_views(ev);
        assert forall|i: int| 0 <= i < ev.len() implies (#[trigger] ev[i].0) < 24 && cbor_canon(
            ev[i].1@,
        ) by {
            if i < 13 {
                assert(ev[i] == base[i]);
            }
        }
        assert forall|i: int| 0 <= i < ev.len() - 1 implies (#[trigger] ev[i].0) < ev[i + 1].0 by {
            if i < 13 {
                assert(ev[i] == base[i]);
            }
            if i + 1 < 13 {
                assert(ev[i + 1] == base[i + 1]);
            }
        }
        assert(uint_entry_views(ev) =~= envelope_head_entries(*envelope) + seq![
            (13u64, CborVal::Bytes(envelope.signature@)),
        ] + envelope_fp_entries(*envelope));
    }
    let value = build_uint_map(entries);
    Ok(encode_canon_value(&value))
}

/// Decodes a canonical signed key envelope. Exactly the canonical
/// encodings of envelope-shaped maps are accepted.
pub fn decode_key_envelope_v1(bytes: &[u8]) -> (r: CoreResult<KeyEnvelopeV1>)
    ensures
        r is Ok <==> (decode_spec(bytes@, 0x100000, 64, 4096) matches Some(v)
            && envelope_shape(v)),
        r is Ok ==> ({
            let v = decode_spec(bytes@, 0x100000, 64, 4096)->Some_0;
            envelope_from(r->Ok_0, v->Dict_0)
        }),
{
    let limits = CborLimits::standard();
    let value = decode_canonical_value(bytes, &limits)?;
    let r = KeyEnvelopeV1::from_cbor(&value)?;
    Ok(r)
}

/// The entries of a record container, keys ascending.
pub open spec fn container_entries(c: KeyVaultRecordContainerV1) -> Seq<(u64, CborVal)> {
    seq![
        (0u64, CborVal::Uint(c.v)),
        (1u64, CborVal::Uint(c.seq)),
        (2u64, CborVal::Bytes(c.prev_hash@)),
        (3u64, CborVal::Text(encode_utf8(c.record_id@))),
        (4u64, CborVal::Bytes(c.nonce@)),
        (5u64, CborVal::Bytes(c.ct@)),
    ]
}

/// A record container as a canonical map.
pub open spec fn container_val(c: KeyVaultRecordContainerV1) -> CborVal {
    uint_map(container_entries(c))
}

/// Whether a decoded value has the shape of a record container.
pub open spec fn container_shape(v: CborVal) -> bool {
    &&& v is Dict
    &&& ({
        let m = v->Dict_0;
        &&& (map_get_spec(m, 0) matches Some(x) && x is Uint)
        &&& (map_get_spec(m, 1) matches Some(x) && x is Uint)
        &&& (map_get_spec(m, 2) matches Some(x) && x is Bytes && x->Bytes_0.len() == 32)
        &&& (map_get_spec(m, 3) matches Some(x) && x is Text)
        &&& (map_get_spec(m, 4) matches Some(x) && x is Bytes && x->Bytes_0.len() == 12)
        &&& (map_get_spec(m, 5) matches Some(x) && x is Bytes)
    })
}

/// What the fields of a record container say of the map it was read from.
pub open spec fn container_from(c: KeyVaultRecordContainerV1, m: Seq<(CborVal, CborVal)>) -> bool {
    &&& map_get_spec(m, 0) == Some(CborVal::Uint(c.v))
    &&& map_get_spec(m, 1) == Some(CborVal::Uint(c.seq))
    &&& map_get_spec(m, 2) == Some(CborVal::Bytes(c.prev_hash@))
    &&& map_get_spec(m, 3) == Some(CborVal::Text(encode_utf8(c.record_id@)))
    &&& map_get_spec(m, 4) == Some(CborVal::Bytes(c.nonce@))
    &&& map_get_spec(m, 5) == Some(CborVal::Bytes(c.ct@))
    &&& c.prev_hash@.len() == 32
    &&& c.nonce@.len() == 12
}

/// Builds the canonical map of a record container.
pub fn container_value(c: &KeyVaultRecordContainerV1) -> (r: CborValue)
    ensures
        r@ == container_val(*c),
        cbor_canon(r@),
{
    let entries = vec![
        (0u64, cbor_uint(c.v)),
        (1u64, cbor_uint(c.seq)),
        (2u64, cbor_bytes(c.prev_hash.as_slice())),
        (3u64, cbor_text(c.record_id.as_str())),
        (4u64, cbor_bytes(c.nonce.as_slice())),
        (5u64, cbor_bytes(c.ct.as_slice())),
    ];
    let ghost ev = entries@;
    let value = build_uint_map(entries);
    proof {
        lemma_uint_entry_views(ev);
        assert(uint_entry_views(ev) =~= container_entries(*c));
    }
    value
}

/// Encodes a record container canonically.
pub fn encode_keyvault_record_container_v1(record: &KeyVaultRecordContainerV1) -> (r: CoreResult<
    Vec<u8>,
>)
    ensures
        r is Ok,
        r is Ok ==> r->Ok_0@ == cbor_enc(container_val(*record)),
{
    let value = container_value(record);
    Ok(encode_canon_value(&value))
}

/// Reads a record container out of a decoded map. The previous hash must
/// be 32 bytes and the nonce 12.
pub fn container_from_value(value: &CborValue) -> (r: CoreResult<KeyVaultRecordContainerV1>)
    ensures
        r is Ok <==> container_shape(value@),
        r is Ok ==> container_from(r->Ok_0, value@->Dict_0),
        r is Err ==> r->Err_0 is Cbor || r->Err_0 is Format,
{
    let map = as_map(value)?;
    let v = req_uint(map, 0)?;
    let seq_no = req_uint(map, 1)?;
    let prev_hash = req_bytes(map, 2)?;
    if prev_hash.len() != 32 {
        return Err(CoreError::Format("invalid keyvault.prev_hash length".to_owned()));
    }
    let record_id = req_text(map, 3)?;
    let nonce = req_bytes(map, 4)?;
    if nonce.len() != 12 {
        return Err(CoreError::Format("invalid keyvault.nonce length".to_owned()));
    }
    let ct = req_bytes(map, 5)?;
    Ok(KeyVaultRecordContainerV1 { v, seq: seq_no, prev_hash, record_id, nonce, ct })
}

/// Decodes a canonical record container. Exactly the canonical encodings
/// of container-shaped maps are accepted.
pub fn decode_keyvault_record_container_v1(bytes: &[u8]) -> (r: CoreResult<
    KeyVaultRecordContainerV1,
>)
    ensures
        r is Ok <==> (decode_spec(bytes@, 0x100000, 64, 4096) matches Some(v)
            && container_shape(v)),
        r is Err ==> r->Err_0 is Cbor || r->Err_0 is Format,
        r is Ok ==> ({
            let v = decode_spec(bytes@, 0x100000, 64, 4096)->Some_0;
            container_from(r->Ok_0, v->Dict_0)
        }),
{
    let limits = CborLimits::standard();
    let value = decode_canonical_value(bytes, &limits)?;
    container_from_value(&value)
}

/// The entries of a record plaintext, keys ascending.
pub open spec fn plain_entries(p: KeyVaultRecordPlainV1) -> Seq<(u64, CborVal)> {
    seq![
        (0u64, CborVal::Text(encode_utf8(p.record_id@))),
        (1u64, CborVal::Uint(p.kind)),
        (2u64, p.payload@),
    ]
}

/// A record plaintext as a canonical map.
pub open spec fn plain_val(p: KeyVaultRecordPlainV1) -> CborVal {
    uint_map(plain_entries(p))
}

/// Whether a decoded value has the shape of a record plaintext.
pub open spec fn plain_shape(v: CborVal) -> bool {
    &&& v is Dict
    &&& ({
        let m = v->Dict_0;
        &&& (map_get_spec(m, 0) matches Some(x) && x is Text)
        &&& (map_get_spec(m, 1) matches Some(x) && x is Uint)
        &&& map_get_spec(m, 2) is Some
    })
}

/// What the fields of a record plaintext say of the map it was read from.
pub open spec fn plain_from(p: KeyVaultRecordPlainV1, m: Seq<(CborVal, CborVal)>) -> bool {
    &&& map_get_spec(m, 0) == Some(CborVal::Text(encode_utf8(p.record_id@)))
    &&& map_get_spec(m, 1) == Some(CborVal::Uint(p.kind))
    &&& map_get_spec(m, 2) == Some(p.payload@)
}

/// Encodes a record plaintext canonically. The payload must be canonical.
pub fn encode_keyvault_record_plain_v1(record: &KeyVaultRecordPlainV1) -> (r: CoreResult<Vec<u8>>)
    ensures
        r is Ok <==> cbor_canon(record.payload@),
        r is Ok ==> r->Ok_0@ == cbor_enc(plain_val(*record)),
{
    if !is_canonical(&record.payload) {
        return Err(CoreError::Cbor("non-canonical payload".to_owned()));
    }
    let entries = vec![
        (0u64, cbor_text(record.record_id.as_str())),
        (1u64, cbor_uint(record.kind)),
        (2u64, record.payload.clone()),
    ];
    let ghost ev = entries@;
    let value = build_uint_map(entries);
    proof {
        lemma_uint_entry_views(ev);
        assert(uint_entry_views(ev) =~= plain_entries(*record));
    }
    Ok(encode_canon_value(&value))
}

/// Decodes a canonical record plaintext. Exactly the canonical encodings
/// of plaintext-shaped maps are accepted.
pub fn decode_keyvault_record_plain_v1(bytes: &[u8]) -> (r: CoreResult<KeyVaultRecordPlainV1>)
    ensures
        r is Err ==> r->Err_0 is Cbor,
        r is Ok <==> (decode_spec(bytes@, 0x100000, 64, 4096) matches Some(v) && plain_shape(v)),
        r is Ok ==> ({
            let v = decode_spec(bytes@, 0x100000, 64, 4096)->Some_0;
            plain_from(r->Ok_0, v->Dict_0) && cbor_canon(r->Ok_0.payload@)
        }),
{
    let limits = CborLimits::standard();
    let value = decode_canonical_value(bytes, &limits)?;
    let map = as_map(&value)?;
    let record_id = req_text(map, 0)?;
    let kind = req_uint(map, 1)?;
    let payload = req_value(map, 2)?.clone();
    proof {
        crate::cbor::lemma_canon_dict_parts(value@);
        lemma_map_get_canon(value@->Dict_0, 2);
    }
    Ok(KeyVaultRecordPlainV1 { record_id, kind, payload })
}

/// The vault-key wrap as a canonical map.
pub open spec fn wrap_val(w: VaultKeyWrapV1) -> CborVal {
    uint_map(
        seq![
            (0u64, CborVal::Text(encode_utf8(aead_id_tag(w.aead)))),
            (1u64, CborVal::Bytes(w.nonce@)),
            (2u64, CborVal::Bytes(w.ct@)),
        ],
    )
}

/// The canonical map values of a record sequence.
pub open spec fn containers_vals(rs: Seq<KeyVaultRecordContainerV1>) -> Seq<CborVal>
    decreases rs,
{
    if rs.len() == 0 {
        Seq::empty()
    } else {
        seq![container_val(rs[0])] + containers_vals(rs.drop_first())
    }
}

/// `containers_vals` maps each record to its canonical map.
pub proof fn lemma_containers_vals(rs: Seq<KeyVaultRecordContainerV1>)
    ensures
        containers_vals(rs).len() == rs.len(),
        forall|i: int|
            0 <= i < rs.len() ==> #[trigger] containers_vals(rs)[i] == container_val(rs[i]),
    decreases rs,
{
    if rs.len() > 0 {
        lemma_containers_vals(rs.drop_first());
        assert forall|i: int| 0 <= i < rs.len() implies #[trigger] containers_vals(rs)[i]
            == container_val(rs[i]) by {
            if i > 0 {
                assert(containers_vals(rs)[i] == containers_vals(rs.drop_first())[i - 1]);
                assert(rs.drop_first()[i - 1] == rs[i]);
            }
        }
    }
}

/// The entries of a KeyVault header, keys ascending.
pub open spec fn header_entries(h: KeyVaultHeaderV1) -> Seq<(u64, CborVal)> {
    seq![
        (0u64, CborVal::Uint(h.v)),
        (1u64, CborVal::Text(encode_utf8(h.vault_id@))),
        (2u64, CborVal::Text(encode_utf8(h.user_id@))),
        (
            3u64,
            crate::aad::kdf_params_val(
                h.kdf.id@,
                h.kdf.salt@,
                h.kdf.memory_kib,
                h.kdf.iterations,
                h.kdf.parallelism,
            ),
        ),
        (4u64, CborVal::Text(encode_utf8(aead_id_tag(h.aead)))),
        (5u64, CborVal::Array(containers_vals(h.records@))),
        (6u64, wrap_val(h.vault_key_wrap)),
    ]
}

/// A KeyVault header as a canonical map.
pub open spec fn header_val(h: KeyVaultHeaderV1) -> CborVal {
    uint_map(header_entries(h))
}

/// What the fields of a header say of the map it was read from: every
/// scalar field matches, and the records mirror the array at key 5 entry
/// for entry.
pub open spec fn header_from(h: KeyVaultHeaderV1, m: Seq<(CborVal, CborVal)>) -> bool {
    &&& map_get_spec(m, 0) == Some(CborVal::Uint(h.v))
    &&& map_get_spec(m, 1) == Some(CborVal::Text(encode_utf8(h.vault_id@)))
    &&& map_get_spec(m, 2) == Some(CborVal::Text(encode_utf8(h.user_id@)))
    &&& h.aead is Aead1
    &&& (map_get_spec(m, 5) matches Some(arr) && arr is Array && arr->Array_0.len()
        == h.records@.len() && (forall|i: int|
        0 <= i < h.records@.len() ==> (#[trigger] arr->Array_0[i]) is Dict && container_from(
            h.records@[i],
            arr->Array_0[i]->Dict_0,
        )))
    &&& h.vault_key_wrap.aead is Aead1
    &&& h.vault_key_wrap.nonce@.len() == 12
}

/// Builds the canonical map of a header.
pub fn header_value(header: &KeyVaultHeaderV1) -> (r: CborValue)
    ensures
        r@ == header_val(*header),
        cbor_canon(r@),
{
    let kdf_value = crate::aad::kdf_params_value(&header.kdf);
    let mut record_values: Vec<CborValue> = Vec::new();
    let mut i: usize = 0;
    while i < header.records.len()
        invariant
            i <= header.records@.len(),
            record_values@.len() == i,
            crate::cbor::view_list(record_values@) == containers_vals(header.records@.take(
                i as int,
            )),
            forall|q: int|
                0 <= q < i ==> cbor_canon(#[trigger] crate::cbor::view_list(record_values@)[q]),
        decreases header.records@.len() - i,
    {
        let cv = container_value(&header.records[i]);
        proof {
            crate::cbor::lemma_view_list_push(record_values@, cv);
            lemma_containers_vals(header.records@.take(i + 1));
            lemma_containers_vals(header.records@.take(i as int));
            assert(containers_vals(header.records@.take(i + 1)) =~= crate::cbor::view_list(
                record_values@,
            ).push(cv@));
        }
        record_values.push(cv);
        i = i + 1;
    }
    proof {
        assert(header.records@.take(header.records@.len() as int) =~= header.records@);
        crate::cbor::lemma_view_list(record_values@);
        assert forall|q: int| 0 <= q < crate::cbor::view_list(record_values@).len() implies
            cbor_canon(#[trigger] crate::cbor::view_list(record_values@)[q]) by {
        }
        crate::cbor::lemma_canon_list_build(crate::cbor::view_list(record_values@));
    }
    let records_value = crate::cbor::cbor_array(record_values);
    let wrap_entries = vec![
        (0u64, cbor_text(header.vault_key_wrap.aead.as_str())),
        (1u64, cbor_bytes(header.vault_key_wrap.nonce.as_slice())),
        (2u64, cbor_bytes(header.vault_key_wrap.ct.as_slice())),
    ];
    let ghost wev = wrap_entries@;
    let wrap_value = build_uint_map(wrap_entries);
    proof {
        lemma_uint_entry_views(wev);
        assert(uint_entry_views(wev) =~= seq![
            (0u64, CborVal::Text(encode_utf8(aead_id_tag(header.vault_key_wrap.aead)))),
            (1u64, CborVal::Bytes(header.vault_key_wrap.nonce@)),
            (2u64, CborVal::Bytes(header.vault_key_wrap.ct@)),
        ]);
    }
    let entries = vec![
        (0u64, cbor_uint(header.v)),
        (1u64, cbor_text(header.vault_id.as_str())),
        (2u64, cbor_text(header.user_id.as_str())),
        (3u64, kdf_value),
        (4u64, cbor_text(header.aead.as_str())),
        (5u64, records_value),
        (6u64, wrap_value),
    ];
    let ghost ev = entries@;
    let value = build_uint_map(entries);
    proof {
        lemma_uint_entry_views(ev);
        assert(uint_entry_views(ev) =~= header_entries(*header));
    }
    value
}

/// Encodes a KeyVault header canonically.
pub fn encode_keyvault_header_v1(header: &KeyVaultHeaderV1) -> (r: CoreResult<Vec<u8>>)
    ensures
        r is Ok,
        r is Ok ==> r->Ok_0@ == cbor_enc(header_val(*header)),
{
    let value = header_value(header);
    Ok(encode_canon_value(&value))
}

/// Reads a header out of a decoded map.
pub fn header_from_value(value: &CborValue) -> (r: CoreResult<KeyVaultHeaderV1>)
    ensures
        r is Ok ==> value@ is Dict && header_from(r->Ok_0, value@->Dict_0),
        r is Err ==> r->Err_0 is Cbor || r->Err_0 is Format,
{
    let map = as_map(value)?;
    let v = req_uint(map, 0)?;
    let vault_id = req_text(map, 1)?;
    let user_id = req_text(map, 2)?;
    let kdf_value = req_value(map, 3)?;
    let kdf = decode_kdf(kdf_value)?;
    let aead_tag = req_text(map, 4)?;
    if !str_eq(aead_tag.as_str(), "aead-1") {
        return Err(CoreError::Format("unknown aead id".to_owned()));
    }
    let records_value = req_value(map, 5)?;
    let arr = crate::cbor::as_array(records_value)?;
    proof {
        crate::cbor::lemma_view_list(arr@);
    }
    let mut records: Vec<KeyVaultRecordContainerV1> = Vec::new();
    let mut i: usize = 0;
    while i < arr.len()
        invariant
            i <= arr@.len(),
            records@.len() == i,
            crate::cbor::view_list(arr@).len() == arr@.len(),
            forall|q: int|
                0 <= q < arr@.len() ==> crate::cbor::view_list(arr@)[q] == #[trigger] arr@[q]@,
            forall|q: int|
                0 <= q < i ==> (#[trigger] crate::cbor::view_list(arr@)[q]) is Dict
                    && container_from(records@[q], crate::cbor::view_list(arr@)[q]->Dict_0),
        decreases arr@.len() - i,
    {
        let c = container_from_value(&arr[i])?;
        records.push(c);
        i = i + 1;
    }
    let wrap_value = req_value(map, 6)?;
    let vault_key_wrap = decode_vault_key_wrap(wrap_value)?;
    proof {
        assert forall|q: int| 0 <= q < records@.len() implies (#[trigger] records_value@->Array_0[q]) is Dict
            && container_from(records@[q], records_value@->Array_0[q]->Dict_0) by {
            assert(crate::cbor::view_list(arr@)[q] is Dict);
            assert(records_value@->Array_0[q] == crate::cbor::view_list(arr@)[q]);
        }
    }
    Ok(KeyVaultHeaderV1 { v, vault_id, user_id, kdf, aead: AeadId::Aead1, records, vault_key_wrap })
}

/// Decodes a canonical KeyVault header.
pub fn decode_keyvault_header_v1(bytes: &[u8]) -> (r: CoreResult<KeyVaultHeaderV1>)
    ensures
        r is Ok ==> (decode_spec(bytes@, 0x100000, 64, 4096) matches Some(v) && v is Dict
            && header_from(r->Ok_0, v->Dict_0)),
        r is Err ==> r->Err_0 is Cbor || r->Err_0 is Format,
{
    let limits = CborLimits::standard();
    let value = decode_canonical_value(bytes, &limits)?;
    header_from_value(&value)
}

/// Reads KDF parameters out of their nested map.
fn decode_kdf(value: &CborValue) -> (r: CoreResult<KdfParams>)
    ensures
        r is Err ==> r->Err_0 is Cbor || r->Err_0 is Format,
{
    let map = as_map(value)?;
    let id = req_text(map, 0)?;
    let salt = req_bytes(map, 1)?;
    let params_value = req_value(map, 2)?;
    let params_map = as_map(params_value)?;
    let memory_kib = req_uint(params_map, 0)?;
    let iterations = req_uint(params_map, 1)?;
    let parallelism = req_uint(params_map, 2)?;
    if memory_kib > 0xFFFFFFFF || iterations > 0xFFFFFFFF || parallelism > 0xFFFFFFFF {
        return Err(CoreError::Format("kdf parameter out of range".to_owned()));
    }
    Ok(
        KdfParams {
            id,
            salt,
            memory_kib: memory_kib as u32,
            iterations: iterations as u32,
            parallelism: parallelism as u32,
        },
    )
}

/// Reads a vault-key wrap out of its nested map. The nonce must be 12
/// bytes and the suite `aead-1`.
fn decode_vault_key_wrap(value: &CborValue) -> (r: CoreResult<VaultKeyWrapV1>)
    ensures
        r is Ok ==> r->Ok_0.aead is Aead1 && r->Ok_0.nonce@.len() == 12,
        r is Err ==> r->Err_0 is Cbor || r->Err_0 is Format,
{
    let map = as_map(value)?;
    let aead_tag = req_text(map, 0)?;
    if !str_eq(aead_tag.as_str(), "aead-1") {
        return Err(CoreError::Format("unknown aead id".to_owned()));
    }
    let nonce = req_bytes(map, 1)?;
    if nonce.len() != 12 {
        return Err(CoreError::Format("invalid vault_key_wrap.nonce length".to_owned()));
    }
    let ct = req_bytes(map, 2)?;
    Ok(VaultKeyWrapV1 { aead: AeadId::Aead1, nonce, ct })
}

/// The entries of a snapshot: the header map at key 0 and the record array
/// at key 1.
pub open spec fn snapshot_val(s: KeyVaultSnapshotV1) -> CborVal {
    uint_map(
        seq![
            (0u64, header_val(s.header)),
            (1u64, CborVal::Array(containers_vals(s.records@))),
        ],
    )
}

/// Encodes a snapshot canonically.
pub fn encode_keyvault_snapshot_v1(snapshot: &KeyVaultSnapshotV1) -> (r: CoreResult<Vec<u8>>)
    ensures
        r is Ok,
        r is Ok ==> r->Ok_0@ == cbor_enc(snapshot_val(*snapshot)),
{
    let hv = header_value(&snapshot.header);
    let mut record_values: Vec<CborValue> = Vec::new();
    let mut i: usize = 0;
    while i < snapshot.records.len()
        invariant
            i <= snapshot.records@.len(),
            record_values@.len() == i,
            crate::cbor::view_list(record_values@) == containers_vals(snapshot.records@.take(
                i as int,
            )),
            forall|q: int|
                0 <= q < i ==> cbor_canon(#[trigger] crate::cbor::view_list(record_values@)[q]),
        decreases snapshot.records@.len() - i,
    {
        let cv = container_value(&snapshot.records[i]);
        proof {
            crate::cbor::lemma_view_list_push(record_values@, cv);
            lemma_containers_vals(snapshot.records@.take(i + 1));
            lemma_containers_vals(snapshot.records@.take(i as int));
            assert(containers_vals(snapshot.records@.take(i + 1)) =~= crate::cbor::view_list(
                record_values@,
            ).push(cv@));
        }
        record_values.push(cv);
        i = i + 1;
    }
    proof {
        assert(snapshot.records@.take(snapshot.records@.len() as int) =~= snapshot.records@);
        crate::cbor::lemma_view_list(record_values@);
        assert forall|q: int| 0 <= q < crate::cbor::view_list(record_values@).len() implies
            cbor_canon(#[trigger] crate::cbor::view_list(record_values@)[q]) by {
        }
        crate::cbor::lemma_canon_list_build(crate::cbor::view_list(record_values@));
    }
    let records_value = crate::cbor::cbor_array(record_values);
    let entries = vec![(0u64, hv), (1u64, records_value)];
    let ghost ev = entries@;
    let value = build_uint_map(entries);
    proof {
        lemma_uint_entry_views(ev);
        assert(uint_entry_views(ev) =~= seq![
            (0u64, header_val(snapshot.header)),
            (1u64, CborVal::Array(containers_vals(snapshot.records@))),
        ]);
    }
    Ok(encode_canon_value(&value))
}

impl KeyVaultSnapshotV1 {
    /// Reads a snapshot out of a decoded map: the header at key 0 and the
    /// record array at key 1.
    pub fn from_cbor(value: &CborValue) -> (r: CoreResult<KeyVaultSnapshotV1>)
        ensures
            r is Ok ==> value@ is Dict && (map_get_spec(value@->Dict_0, 0) matches Some(hv)
                && hv is Dict && header_from(r->Ok_0.header, hv->Dict_0)) && (map_get_spec(
                value@->Dict_0,
                1,
            ) matches Some(arr) && arr is Array && arr->Array_0.len() == r->Ok_0.records@.len()
                && (forall|i: int|
                0 <= i < r->Ok_0.records@.len() ==> (#[trigger] arr->Array_0[i]) is Dict
                    && container_from(r->Ok_0.records@[i], arr->Array_0[i]->Dict_0))),
            r is Err ==> r->Err_0 is Cbor || r->Err_0 is Format,
    {
        let map = as_map(value)?;
        let header_value_ref = req_value(map, 0)?;
        let header = header_from_value(header_value_ref)?;
        let records_value = req_value(map, 1)?;
        let arr = crate::cbor::as_array(records_value)?;
        proof {
            crate::cbor::lemma_view_list(arr@);
        }
        let mut records: Vec<KeyVaultRecordContainerV1> = Vec::new();
        let mut i: usize = 0;
        while i < arr.len()
            invariant
                i <= arr@.len(),
                records@.len() == i,
                crate::cbor::view_list(arr@).len() == arr@.len(),
                forall|q: int|
                    0 <= q < arr@.len() ==> crate::cbor::view_list(arr@)[q] == #[trigger] arr@[q]@,
                forall|q: int|
                    0 <= q < i ==> (#[trigger] crate::cbor::view_list(arr@)[q]) is Dict
                        && container_from(records@[q], crate::cbor::view_list(arr@)[q]->Dict_0),
            decreases arr@.len() - i,
        {
            let c = container_from_value(&arr[i])?;
            records.push(c);
            i = i + 1;
        }
        proof {
            assert forall|q: int| 0 <= q < records@.len() implies (#[trigger] records_value@->Array_0[q]) is Dict
                && container_from(records@[q], records_value@->Array_0[q]->Dict_0) by {
                assert(crate::cbor::view_list(arr@)[q] is Dict);
                assert(records_value@->Array_0[q] == crate::cbor::view_list(arr@)[q]);
            }
        }
        Ok(KeyVaultSnapshotV1 { header, records })
    }
}

} // verus!
