//! Domain-separated associated-data byte strings, one canonical map per
//! protected operation. Rebuilding an AAD with the same inputs always gives
//! the same bytes, on every run and every implementation.

use vstd::prelude::*;
use vstd::utf8::encode_utf8;
use crate::cbor::{
    build_uint_map, cbor_bytes, cbor_text, cbor_uint, encode_canon_value, lemma_uint_entry_views,
    uint_entry_views, uint_map, CborLimits, CborVal, CborValue,
};
use crate::crypto::KdfParams;
use crate::error::CoreResult;
use crate::types::{aead_id_tag, kem_id_tag, AeadId, KemCiphersuiteId};

verus! {

/// The KDF parameter map carried inside key-wrap AADs.
pub open spec fn kdf_params_val(
    id: Seq<char>,
    salt: Seq<u8>,
    memory_kib: u32,
    iterations: u32,
    parallelism: u32,
) -> CborVal {
    uint_map(
        seq![
            (0u64, CborVal::Text(encode_utf8(id))),
            (1u64, CborVal::Bytes(salt)),
            (
                2u64,
                uint_map(
                    seq![
                        (0u64, CborVal::Uint(memory_kib as u64)),
                        (1u64, CborVal::Uint(iterations as u64)),
                        (2u64, CborVal::Uint(parallelism as u64)),
                    ],
                ),
            ),
        ],
    )
}

/// The associated data binding a vault-key wrap to its vault, user, KDF
/// parameters, and AEAD suite.
pub open spec fn aad_keyvault_keywrap_val(
    vault_id: Seq<char>,
    user_id: Seq<char>,
    kdf: KdfParams,
    aead: AeadId,
) -> CborVal {
    uint_map(
        seq![
            (0u64, CborVal::Text(encode_utf8("mo-keyvault-keywrap-aad-v1"@))),
            (1u64, CborVal::Text(encode_utf8(vault_id))),
            (2u64, CborVal::Text(encode_utf8(user_id))),
            (
                3u64,
                kdf_params_val(kdf.id@, kdf.salt@, kdf.memory_kib, kdf.iterations, kdf.parallelism),
            ),
            (4u64, CborVal::Text(encode_utf8(aead_id_tag(aead)))),
        ],
    )
}

/// The associated data binding a ledger record to its vault, user, AEAD
/// suite, and record id.
pub open spec fn aad_keyvault_record_val(
    vault_id: Seq<char>,
    user_id: Seq<char>,
    aead: AeadId,
    record_id: Seq<char>,
) -> CborVal {
    uint_map(
        seq![
            (0u64, CborVal::Text(encode_utf8("mo-keyvault-record-aad-v1"@))),
            (1u64, CborVal::Text(encode_utf8(vault_id))),
            (2u64, CborVal::Text(encode_utf8(user_id))),
            (3u64, CborVal::Text(encode_utf8(aead_id_tag(aead)))),
            (4u64, CborVal::Text(encode_utf8(record_id))),
        ],
    )
}

/// The associated data binding a wrapped scope key to its scope, epoch,
/// recipient, scope-state reference, and suites, with the recipient's
/// public-key fingerprint bound when one is named.
pub open spec fn aad_key_envelope_wrap_val(
    scope_id: Seq<char>,
    scope_epoch: u64,
    recipient_user_id: Seq<char>,
    scope_state_ref: Seq<u8>,
    kem: KemCiphersuiteId,
    aead: AeadId,
    recipient_uk_pub_fingerprint: Option<Seq<u8>>,
) -> CborVal {
    let base = seq![
        (0u64, CborVal::Text(encode_utf8("mo-key-envelope-aad-v1"@))),
        (1u64, CborVal::Text(encode_utf8(scope_id))),
        (2u64, CborVal::Uint(scope_epoch)),
        (3u64, CborVal::Text(encode_utf8(recipient_user_id))),
        (4u64, CborVal::Bytes(scope_state_ref)),
        (5u64, CborVal::Text(encode_utf8(kem_id_tag(kem)))),
        (6u64, CborVal::Text(encode_utf8(aead_id_tag(aead)))),
    ];
    match recipient_uk_pub_fingerprint {
        Some(fp) => uint_map(base + seq![(7u64, CborVal::Bytes(fp))]),
        None => uint_map(base),
    }
}

/// The associated data binding a wrapped resource key to its scope,
/// resource, epoch, resource-key id, and AEAD suite.
pub open spec fn aad_resource_grant_wrap_val(
    scope_id: Seq<char>,
    resource_id: Seq<char>,
    scope_epoch: u64,
    resource_key_id: Seq<char>,
    aead: AeadId,
) -> CborVal {
    uint_map(
        seq![
            (0u64, CborVal::Text(encode_utf8("mo-resource-grant-aad-v1"@))),
            (1u64, CborVal::Text(encode_utf8(scope_id))),
            (2u64, CborVal::Text(encode_utf8(resource_id))),
            (3u64, CborVal::Uint(scope_epoch)),
            (4u64, CborVal::Text(encode_utf8(resource_key_id))),
            (5u64, CborVal::Text(encode_utf8(aead_id_tag(aead)))),
        ],
    )
}

/// The associated data binding a user-presence vault-key wrap to its vault,
/// user, KDF parameters, and AEAD suite.
pub open spec fn aad_webauthn_prf_wrap_val(
    vault_id: Seq<char>,
    user_id: Seq<char>,
    kdf: KdfParams,
    aead: AeadId,
) -> CborVal {
    uint_map(
        seq![
            (0u64, CborVal::Text(encode_utf8("mo-webauthn-prf-wrap-aad-v1"@))),
            (1u64, CborVal::Text(encode_utf8(vault_id))),
            (2u64, CborVal::Text(encode_utf8(user_id))),
            (3u64, CborVal::Text(encode_utf8("salt-v1"@))),
            (4u64, CborVal::Text(encode_utf8(aead_id_tag(aead)))),
            (
                5u64,
                kdf_params_val(kdf.id@, kdf.salt@, kdf.memory_kib, kdf.iterations, kdf.parallelism),
            ),
        ],
    )
}

/// Builds the KDF parameter map value.
pub fn kdf_params_value(kdf: &KdfParams) -> (r: CborValue)
    ensures
        r@ == kdf_params_val(kdf.id@, kdf.salt@, kdf.memory_kib, kdf.iterations, kdf.parallelism),
        crate::cbor::cbor_canon(r@),
{
    let cost_entries = vec![
        (0u64, cbor_uint(kdf.memory_kib as u64)),
        (1u64, cbor_uint(kdf.iterations as u64)),
        (2u64, cbor_uint(kdf.parallelism as u64)),
    ];
    let ghost cost_ev = cost_entries@;
    let costs = build_uint_map(cost_entries);
    proof {
        lemma_uint_entry_views(cost_ev);
        assert(uint_entry_views(cost_ev) =~= seq![
            (0u64, CborVal::Uint(kdf.memory_kib as u64)),
            (1u64, CborVal::Uint(kdf.iterations as u64)),
            (2u64, CborVal::Uint(kdf.parallelism as u64)),
        ]);
    }
    let entries = vec![
        (0u64, cbor_text(kdf.id.as_str())),
        (1u64, cbor_bytes(kdf.salt.as_slice())),
        (2u64, costs),
    ];
    let ghost ev = entries@;
    let r = build_uint_map(entries);
    proof {
        lemma_uint_entry_views(ev);
        assert(uint_entry_views(ev) =~= seq![
            (0u64, CborVal::Text(encode_utf8(kdf.id@))),
            (1u64, CborVal::Bytes(kdf.salt@)),
            (
                2u64,
                uint_map(
                    seq![
                        (0u64, CborVal::Uint(kdf.memory_kib as u64)),
                        (1u64, CborVal::Uint(kdf.iterations as u64)),
                        (2u64, CborVal::Uint(kdf.parallelism as u64)),
                    ],
                ),
            ),
        ]);
    }
    r
}

/// The key-wrap AAD: identical bytes on every invocation with the same
/// inputs.
pub fn aad_keyvault_keywrap_v1(vault_id: &str, user_id: &str, kdf: &KdfParams, aead: AeadId) -> (r:
    CoreResult<Vec<u8>>)
    ensures
        r is Ok,
        r is Ok ==> r->Ok_0@ == crate::cbor::cbor_enc(
            aad_keyvault_keywrap_val(vault_id@, user_id@, *kdf, aead),
        ),
{
    let kdf_value = kdf_params_value(kdf);
    let entries = vec![
        (0u64, cbor_text("mo-keyvault-keywrap-aad-v1")),
        (1u64, cbor_text(vault_id)),
        (2u64, cbor_text(user_id)),
        (3u64, kdf_value),
        (4u64, cbor_text(aead.as_str())),
    ];
    let ghost ev = entries@;
    let value = build_uint_map(entries);
    proof {
        lemma_uint_entry_views(ev);
        assert(uint_entry_views(ev) =~= seq![
            (0u64, CborVal::Text(encode_utf8("mo-keyvault-keywrap-aad-v1"@))),
            (1u64, CborVal::Text(encode_utf8(vault_id@))),
            (2u64, CborVal::Text(encode_utf8(user_id@))),
            (
                3u64,
                kdf_params_val(kdf.id@, kdf.salt@, kdf.memory_kib, kdf.iterations, kdf.parallelism),
            ),
            (4u64, CborVal::Text(encode_utf8(aead_id_tag(aead)))),
        ]);
    }
    Ok(encode_canon_value(&value))
}

/// The record AAD: identical bytes on every invocation with the same
/// inputs.
pub fn aad_keyvault_record_v1(vault_id: &str, user_id: &str, aead: AeadId, record_id: &str) -> (r:
    CoreResult<Vec<u8>>)
    ensures
        r is Ok,
        r is Ok ==> r->Ok_0@ == crate::cbor::cbor_enc(
            aad_keyvault_record_val(vault_id@, user_id@, aead, record_id@),
        ),
{
    let entries = vec![
        (0u64, cbor_text("mo-keyvault-record-aad-v1")),
        (1u64, cbor_text(vault_id)),
        (2u64, cbor_text(user_id)),
        (3u64, cbor_text(aead.as_str())),
        (4u64, cbor_text(record_id)),
    ];
    let ghost ev = entries@;
    let value = build_uint_map(entries);
    proof {
        lemma_uint_entry_views(ev);
        assert(uint_entry_views(ev) =~= seq![
            (0u64, CborVal::Text(encode_utf8("mo-keyvault-record-aad-v1"@))),
            (1u64, CborVal::Text(encode_utf8(vault_id@))),
            (2u64, CborVal::Text(encode_utf8(user_id@))),
            (3u64, CborVal::Text(encode_utf8(aead_id_tag(aead)))),
            (4u64, CborVal::Text(encode_utf8(record_id@))),
        ]);
    }
    Ok(encode_canon_value(&value))
}

/// The envelope-wrap AAD: identical bytes on every invocation with the same
/// inputs.
pub fn aad_key_envelope_wrap_v1(
    scope_id: &str,
    scope_epoch: u64,
    recipient_user_id: &str,
    scope_state_ref: &[u8],
    kem: KemCiphersuiteId,
    aead: AeadId,
    recipient_uk_pub_fingerprint: Option<&Vec<u8>>,
) -> (r: CoreResult<Vec<u8>>)
    ensures
        r is Ok,
        r is Ok ==> r->Ok_0@ == crate::cbor::cbor_enc(
            aad_key_envelope_wrap_val(
                scope_id@,
                scope_epoch,
                recipient_user_id@,
                scope_state_ref@,
                kem,
                aead,
                match recipient_uk_pub_fingerprint {
                    Some(fp) => Some(fp@),
                    None => None,
                },
            ),
        ),
{
    let mut entries = vec![
        (0u64, cbor_text("mo-key-envelope-aad-v1")),
        (1u64, cbor_text(scope_id)),
        (2u64, cbor_uint(scope_epoch)),
        (3u64, cbor_text(recipient_user_id)),
        (4u64, cbor_bytes(scope_state_ref)),
        (5u64, cbor_text(kem.as_str())),
        (6u64, cbor_text(aead.as_str())),
    ];
    let ghost base = seq![
        (0u64, CborVal::Text(encode_utf8("mo-key-envelope-aad-v1"@))),
        (1u64, CborVal::Text(encode_utf8(scope_id@))),
        (2u64, CborVal::Uint(scope_epoch)),
        (3u64, CborVal::Text(encode_utf8(recipient_user_id@))),
        (4u64, CborVal::Bytes(scope_state_ref@)),
        (5u64, CborVal::Text(encode_utf8(kem_id_tag(kem)))),
        (6u64, CborVal::Text(encode_utf8(aead_id_tag(aead)))),
    ];
    match recipient_uk_pub_fingerprint {
        Some(fp) => {
            entries.push((7u64, cbor_bytes(fp.as_slice())));
        },
        None => {},
    }
    let ghost ev = entries@;
    let value = build_uint_map(entries);
    proof {
        lemma_uint_entry_views(ev);
        match recipient_uk_pub_fingerprint {
            Some(fp) => {
                assert(uint_entry_views(ev) =~= base + seq![(7u64, CborVal::Bytes(fp@))]);
            },
            None => {
                assert(uint_entry_views(ev) =~= base);
            },
        }
    }
    Ok(encode_canon_value(&value))
}

/// The grant-wrap AAD: identical bytes on every invocation with the same
/// inputs.
pub fn aad_resource_grant_wrap_v1(
    scope_id: &str,
    resource_id: &str,
    scope_epoch: u64,
    resource_key_id: &str,
    aead: AeadId,
) -> (r: CoreResult<Vec<u8>>)
    ensures
        r is Ok,
        r is Ok ==> r->Ok_0@ == crate::cbor::cbor_enc(
            aad_resource_grant_wrap_val(
                scope_id@,
                resource_id@,
                scope_epoch,
                resource_key_id@,
                aead,
            ),
        ),
{
    let entries = vec![
        (0u64, cbor_text("mo-resource-grant-aad-v1")),
        (1u64, cbor_text(scope_id)),
        (2u64, cbor_text(resource_id)),
        (3u64, cbor_uint(scope_epoch)),
        (4u64, cbor_text(resource_key_id)),
        (5u64, cbor_text(aead.as_str())),
    ];
    let ghost ev = entries@;
    let value = build_uint_map(entries);
    proof {
        lemma_uint_entry_views(ev);
        assert(uint_entry_views(ev) =~= seq![
            (0u64, CborVal::Text(encode_utf8("mo-resource-grant-aad-v1"@))),
            (1u64, CborVal::Text(encode_utf8(scope_id@))),
            (2u64, CborVal::Text(encode_utf8(resource_id@))),
            (3u64, CborVal::Uint(scope_epoch)),
            (4u64, CborVal::Text(encode_utf8(resource_key_id@))),
            (5u64, CborVal::Text(encode_utf8(aead_id_tag(aead)))),
        ]);
    }
    Ok(encode_canon_value(&value))
}

/// The user-presence wrap AAD: identical bytes on every invocation with the
/// same inputs.
pub fn aad_webauthn_prf_wrap_v1(vault_id: &str, user_id: &str, kdf: &KdfParams, aead: AeadId) -> (r:
    CoreResult<Vec<u8>>)
    ensures
        r is Ok,
        r is Ok ==> r->Ok_0@ == crate::cbor::cbor_enc(
            aad_webauthn_prf_wrap_val(vault_id@, user_id@, *kdf, aead),
        ),
{
    let kdf_value = kdf_params_value(kdf);
    let entries = vec![
        (0u64, cbor_text("mo-webauthn-prf-wrap-aad-v1")),
        (1u64, cbor_text(vault_id)),
        (2u64, cbor_text(user_id)),
        (3u64, cbor_text("salt-v1")),
        (4u64, cbor_text(aead.as_str())),
        (5u64, kdf_value),
    ];
    let ghost ev = entries@;
    let value = build_uint_map(entries);
    proof {
        lemma_uint_entry_views(ev);
        assert(uint_entry_views(ev) =~= seq![
            (0u64, CborVal::Text(encode_utf8("mo-webauthn-prf-wrap-aad-v1"@))),
            (1u64, CborVal::Text(encode_utf8(vault_id@))),
            (2u64, CborVal::Text(encode_utf8(user_id@))),
            (3u64, CborVal::Text(encode_utf8("salt-v1"@))),
            (4u64, CborVal::Text(encode_utf8(aead_id_tag(aead)))),
            (
                5u64,
                kdf_params_val(kdf.id@, kdf.salt@, kdf.memory_kib, kdf.iterations, kdf.parallelism),
            ),
        ]);
    }
    Ok(encode_canon_value(&value))
}

/// The default structural limits for decoding.
pub fn cbor_limits_default() -> (r: CborLimits)
    ensures
        r.max_bytes == 0x100000int,
        r.max_depth == 64int,
        r.max_items == 4096int,
{
    CborLimits::standard()
}

} // verus!
