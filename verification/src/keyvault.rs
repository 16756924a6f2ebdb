//! The KeyVault ledger: an append-only hash chain of encrypted records,
//! replay validation, and materialization of the recovered keys.

use vstd::prelude::*;
use vstd::utf8::encode_utf8;
use crate::aad::{aad_keyvault_record_v1, aad_keyvault_record_val};
use crate::cbor::{
    as_map, build_uint_map, cbor_bytes, cbor_canon, cbor_enc, cbor_text, cbor_uint, clone_bytes,
    lemma_uint_entry_views, map_get_spec, req_bytes, req_text, req_uint, uint_entry_views, uint_map,
    CborVal, CborValue,
};
use crate::ciphersuite::{HybridKemRecipient, HybridSignatureKeypair};
use crate::crypto::{aead_decrypt, aead_open_of, aead_seal_of, encrypt_vault_record};
use crate::error::{CoreError, CoreResult};
use crate::formats::{
    container_val, decode_keyvault_record_plain_v1, encode_keyvault_record_container_v1,
    encode_keyvault_record_plain_v1, plain_val, KeyVaultHeaderV1, KeyVaultRecordContainerV1,
    KeyVaultRecordPlainV1,
};
use crate::hash::{sha256, sha256_of};
use crate::types::{str_eq, AeadId, ResourceId, ResourceKeyId, ScopeEpoch, ScopeId};

verus! {

/// Thirty-two zero bytes: the previous-hash of the first record.
pub open spec fn zero_hash() -> Seq<u8> {
    Seq::new(32, |i: int| 0u8)
}

/// The chain hash a record at position `i` must carry as its previous
/// hash: zero for the first record, else the digest of the canonical
/// encoding of its predecessor.
pub open spec fn chain_prev(records: Seq<KeyVaultRecordContainerV1>, i: int) -> Seq<u8> {
    if i == 0 {
        zero_hash()
    } else {
        sha256_of(cbor_enc(container_val(records[i - 1])))
    }
}

/// The head hash after the whole sequence: zero when empty, else the
/// digest of the last record's canonical encoding.
pub open spec fn vault_head_hash(records: Seq<KeyVaultRecordContainerV1>) -> Seq<u8> {
    chain_prev(records, records.len() as int)
}

/// Chain integrity: sequence numbers are gap-free from 1, every previous
/// hash links to its predecessor's digest, and record ids are distinct.
pub open spec fn chain_ok(records: Seq<KeyVaultRecordContainerV1>) -> bool {
    &&& forall|i: int|
        0 <= i < records.len() ==> (#[trigger] records[i]).seq == i + 1 && records[i].prev_hash@
            == chain_prev(records, i)
    &&& forall|i: int, j: int|
        0 <= i < j < records.len() ==> (#[trigger] records[i]).record_id@ != (
        #[trigger] records[j]).record_id@
}

/// The associated data that seals a record, as bytes.
pub open spec fn record_aad(header: KeyVaultHeaderV1, record_id: Seq<char>) -> Seq<u8> {
    cbor_enc(aad_keyvault_record_val(header.vault_id@, header.user_id@, header.aead, record_id))
}

/// Whether a record's ciphertext opens under the vault key and its record
/// AAD.
pub open spec fn record_opens(
    header: KeyVaultHeaderV1,
    vault_key: Seq<u8>,
    c: KeyVaultRecordContainerV1,
) -> bool {
    aead_open_of(vault_key, c.nonce@, record_aad(header, c.record_id@), c.ct@) is Some
}

/// The field views of a record container: equal views make
/// interchangeable records.
pub open spec fn cont_view(c: KeyVaultRecordContainerV1) -> (u64, u64, Seq<u8>, Seq<char>, Seq<u8>, Seq<u8>) {
    (c.v, c.seq, c.prev_hash@, c.record_id@, c.nonce@, c.ct@)
}

/// A ledger state that holds the chain invariant: the head sequence is the
/// record count, the head hash is the digest of the last record, and the
/// chain links hold throughout.
pub struct KeyVaultState {
    pub head_seq: u64,
    pub head_hash: Vec<u8>,
    pub records: Vec<KeyVaultRecordContainerV1>,
}

/// The state invariant the engine maintains.
pub open spec fn state_wf(s: KeyVaultState) -> bool {
    &&& chain_ok(s.records@)
    &&& s.head_seq == s.records@.len()
    &&& s.head_hash@ == vault_head_hash(s.records@)
    &&& s.head_hash@.len() == 32
}

/// The keys recovered from the ledger, as association lists where a later
/// entry with the same key wins.
pub struct KeyVaultMaterialized {
    pub user_key: Option<HybridKemRecipient>,
    pub device_signing_keys: Vec<(String, HybridSignatureKeypair)>,
    pub scope_keys: Vec<((String, u64), Vec<u8>)>,
    pub resource_keys: Vec<((String, String), Vec<u8>)>,
}

/// The newest scope key for a scope and epoch.
pub open spec fn scope_key_spec(
    entries: Seq<((String, u64), Vec<u8>)>,
    scope_id: Seq<char>,
    epoch: u64,
) -> Option<Seq<u8>>
    decreases entries,
{
    if entries.len() == 0 {
        None
    } else if entries.last().0.0@ == scope_id && entries.last().0.1 == epoch {
        Some(entries.last().1@)
    } else {
        scope_key_spec(entries.drop_last(), scope_id, epoch)
    }
}

/// The newest resource key for a resource and resource-key id.
pub open spec fn resource_key_spec(
    entries: Seq<((String, String), Vec<u8>)>,
    resource_id: Seq<char>,
    rk_id: Seq<char>,
) -> Option<Seq<u8>>
    decreases entries,
{
    if entries.len() == 0 {
        None
    } else if entries.last().0.0@ == resource_id && entries.last().0.1@ == rk_id {
        Some(entries.last().1@)
    } else {
        resource_key_spec(entries.drop_last(), resource_id, rk_id)
    }
}

impl KeyVaultMaterialized {
    /// An empty materialization.
    pub fn new() -> (r: KeyVaultMaterialized)
        ensures
            r.user_key is None,
            r.device_signing_keys@.len() == 0,
            r.scope_keys@.len() == 0,
            r.resource_keys@.len() == 0,
    {
        KeyVaultMaterialized {
            user_key: None,
            device_signing_keys: Vec::new(),
            scope_keys: Vec::new(),
            resource_keys: Vec::new(),
        }
    }

    /// The newest scope key for a scope and epoch, if any.
    pub fn lookup_scope_key(&self, scope_id: &str, epoch: u64) -> (r: Option<Vec<u8>>)
        ensures
            match r {
                Some(k) => scope_key_spec(self.scope_keys@, scope_id@, epoch) == Some(k@),
                None => scope_key_spec(self.scope_keys@, scope_id@, epoch) is None,
            },
    {
        proof {
            assert(self.scope_keys@.take(self.scope_keys@.len() as int) =~= self.scope_keys@);
        }
        let mut i: usize = self.scope_keys.len();
        while i > 0
            invariant
                i <= self.scope_keys@.len(),
                scope_key_spec(self.scope_keys@, scope_id@, epoch) == scope_key_spec(
                    self.scope_keys@.take(i as int),
                    scope_id@,
                    epoch,
                ),
            decreases i,
        {
            i = i - 1;
            let entry = &self.scope_keys[i];
            proof {
                assert(self.scope_keys@.take(i + 1).last() == self.scope_keys@[i as int]);
                assert(self.scope_keys@.take(i + 1).drop_last() =~= self.scope_keys@.take(
                    i as int,
                ));
            }
            if str_eq(entry.0.0.as_str(), scope_id) && entry.0.1 == epoch {
                return Some(clone_bytes(&entry.1));
            }
        }
        proof {
            assert(self.scope_keys@.take(0).len() == 0);
        }
        None
    }

    /// The newest resource key for a resource and resource-key id, if any.
    pub fn lookup_resource_key(&self, resource_id: &str, rk_id: &str) -> (r: Option<Vec<u8>>)
        ensures
            match r {
                Some(k) => resource_key_spec(self.resource_keys@, resource_id@, rk_id@) == Some(
                    k@,
                ),
                None => resource_key_spec(self.resource_keys@, resource_id@, rk_id@) is None,
            },
    {
        proof {
            assert(self.resource_keys@.take(self.resource_keys@.len() as int)
                =~= self.resource_keys@);
        }
        let mut i: usize = self.resource_keys.len();
        while i > 0
            invariant
                i <= self.resource_keys@.len(),
                resource_key_spec(self.resource_keys@, resource_id@, rk_id@)
                    == resource_key_spec(
                    self.resource_keys@.take(i as int),
                    resource_id@,
                    rk_id@,
                ),
            decreases i,
        {
            i = i - 1;
            let entry = &self.resource_keys[i];
            proof {
                assert(self.resource_keys@.take(i + 1).last() == self.resource_keys@[i as int]);
                assert(self.resource_keys@.take(i + 1).drop_last() =~= self.resource_keys@.take(
                    i as int,
                ));
            }
            if str_eq(entry.0.0.as_str(), resource_id) && str_eq(entry.0.1.as_str(), rk_id) {
                return Some(clone_bytes(&entry.1));
            }
        }
        proof {
            assert(self.resource_keys@.take(0).len() == 0);
        }
        None
    }

    /// The first stored device signing keypair, if any.
    pub fn first_signing_key(&self) -> (r: Option<&HybridSignatureKeypair>)
        ensures
            r is Some <==> self.device_signing_keys@.len() > 0,
            r is Some ==> r->Some_0 == &self.device_signing_keys@[0].1,
    {
        if self.device_signing_keys.len() > 0 {
            Some(&self.device_signing_keys[0].1)
        } else {
            None
        }
    }
}

impl KeyVaultState {
    /// The empty ledger: head sequence zero and an all-zero head hash.
    pub fn new() -> (r: KeyVaultState)
        ensures
            state_wf(r),
            r.head_seq == 0,
            r.records@.len() == 0,
            r.head_hash@ == zero_hash(),
    {
        let mut head_hash: Vec<u8> = Vec::new();
        let mut i: usize = 0;
        while i < 32
            invariant
                i <= 32,
                head_hash@ =~= zero_hash().take(i as int),
            decreases 32 - i,
        {
            head_hash.push(0u8);
            proof {
                assert(head_hash@ =~= zero_hash().take(i + 1));
            }
            i = i + 1;
        }
        proof {
            assert(zero_hash().take(32) =~= zero_hash());
        }
        KeyVaultState { head_seq: 0, head_hash, records: Vec::new() }
    }

    /// Whether the ledger already holds a record with this id.
    fn has_record_id(&self, record_id: &str) -> (r: bool)
        ensures
            r == exists|i: int|
                0 <= i < self.records@.len() && (#[trigger] self.records@[i]).record_id@
                    == record_id@,
    {
        let mut i: usize = 0;
        while i < self.records.len()
            invariant
                i <= self.records@.len(),
                forall|q: int|
                    0 <= q < i ==> (#[trigger] self.records@[q]).record_id@ != record_id@,
            decreases self.records@.len() - i,
        {
            if str_eq(self.records[i].record_id.as_str(), record_id) {
                return true;
            }
            i = i + 1;
        }
        false
    }

    /// Appends one record: the plaintext is sealed under the vault key with
    /// the record AAD, the container chains to the current head, and the
    /// head advances to the new record's digest. The sequence number must
    /// be the next one and the record id fresh.
    pub fn append_record(
        &mut self,
        header: &KeyVaultHeaderV1,
        vault_key: &[u8],
        record: &KeyVaultRecordPlainV1,
        seq: u64,
    ) -> (r: CoreResult<KeyVaultRecordContainerV1>)
        requires
            state_wf(*old(self)),
        ensures
            state_wf(*final(self)),
            r is Err ==> *final(self) == *old(self),
            r is Ok ==> ({
                let c = r->Ok_0;
                &&& seq == old(self).head_seq + 1
                &&& cbor_canon(record.payload@)
                &&& c.v == 1
                &&& c.seq == seq
                &&& c.prev_hash@ == old(self).head_hash@
                &&& c.record_id@ == record.record_id@
                &&& c.nonce@.len() == 12
                &&& c.ct@ == aead_seal_of(
                    vault_key@,
                    c.nonce@,
                    record_aad(*header, record.record_id@),
                    cbor_enc(plain_val(*record)),
                )
                &&& aead_open_of(
                    vault_key@,
                    c.nonce@,
                    record_aad(*header, record.record_id@),
                    c.ct@,
                ) == Some(cbor_enc(plain_val(*record)))
                &&& final(self).records@.len() == old(self).records@.len() + 1
                &&& final(self).records@.drop_last() == old(self).records@
                &&& cont_view(final(self).records@.last()) == cont_view(c)
                &&& final(self).head_seq == seq
                &&& final(self).head_hash@ == sha256_of(cbor_enc(container_val(c)))
                &&& final(self).head_hash@ == vault_head_hash(final(self).records@)
            }),
            seq != old(self).head_seq + 1 ==> r is Err,
            (exists|i: int|
                0 <= i < old(self).records@.len() && (#[trigger] old(self).records@[i]).record_id@
                    == record.record_id@) ==> r is Err,
    {
        if seq != self.head_seq.checked_add(1).unwrap_or(u64::MAX) || self.head_seq == u64::MAX {
            return Err(CoreError::Format("keyvault seq mismatch".to_owned()));
        }
        if self.has_record_id(record.record_id.as_str()) {
            return Err(CoreError::Format("duplicate keyvault record_id".to_owned()));
        }
        let plaintext = encode_keyvault_record_plain_v1(record)?;
        let aad = aad_keyvault_record_v1(
            header.vault_id.as_str(),
            header.user_id.as_str(),
            header.aead,
            record.record_id.as_str(),
        )?;
        let sealed = encrypt_vault_record(vault_key, aad.as_slice(), plaintext.as_slice())?;
        let (nonce, ct) = sealed;
        let container = KeyVaultRecordContainerV1 {
            v: 1,
            seq,
            prev_hash: clone_bytes(&self.head_hash),
            record_id: record.record_id.clone(),
            nonce,
            ct,
        };
        let container_bytes = match encode_keyvault_record_container_v1(&container) {
            Ok(b) => b,
            Err(_) => {
                proof {
                    assert(false);
                }
                return Err(CoreError::Format("unreachable".to_owned()));
            },
        };
        let digest = sha256(container_bytes.as_slice());
        let hash = crate::cbor::slice_to_vec(digest.as_slice(), 0, 32);
        proof {
            assert(digest@.subrange(0, 32) =~= digest@);
        }
        self.head_seq = seq;
        self.head_hash = hash;
        let ghost old_records = self.records@;
        let returned = container.clone();
        self.records.push(container);
        proof {
            assert(self.records@.drop_last() =~= old_records);
            assert(container_val(self.records@.last()) == container_val(returned)) by {
                assert(crate::formats::container_entries(self.records@.last())
                    =~= crate::formats::container_entries(returned));
            }
            let rs = self.records@;
            let c = rs.last();
            assert(rs.drop_last() =~= old_records);
            assert forall|i: int|
                0 <= i < rs.len() implies (#[trigger] rs[i]).seq == i + 1 && rs[i].prev_hash@
                == chain_prev(rs, i) by {
                if i < rs.len() - 1 {
                    assert(rs[i] == old_records[i]);
                    assert(chain_prev(rs, i) == chain_prev(old_records, i));
                } else {
                    if i > 0 {
                        assert(rs[i - 1] == old_records[i - 1]);
                        assert(old_records[i - 1] == old_records.last());
                    }
                }
            }
            assert forall|i: int, j: int|
                0 <= i < j < rs.len() implies (#[trigger] rs[i]).record_id@ != (
            #[trigger] rs[j]).record_id@ by {
                if j < rs.len() - 1 {
                    assert(rs[i] == old_records[i]);
                    assert(rs[j] == old_records[j]);
                } else {
                    assert(rs[i] == old_records[i]);
                }
            }
        }
        Ok(returned)
    }
}

/// Extending a chained sequence with a record whose sequence number is the
/// next one and whose previous hash is the current head keeps the chain
/// intact and moves the head to the new record's digest.
pub proof fn lemma_chain_append(records: Seq<KeyVaultRecordContainerV1>, c: KeyVaultRecordContainerV1)
    requires
        chain_ok(records),
        c.seq == records.len() + 1,
        c.prev_hash@ == vault_head_hash(records),
        forall|i: int|
            0 <= i < records.len() ==> (#[trigger] records[i]).record_id@ != c.record_id@,
    ensures
        chain_ok(records.push(c)),
        vault_head_hash(records.push(c)) == sha256_of(cbor_enc(container_val(c))),
{
    let rs = records.push(c);
    assert(rs.drop_last() =~= records);
    assert forall|i: int|
        0 <= i < rs.len() implies (#[trigger] rs[i]).seq == i + 1 && rs[i].prev_hash@
        == chain_prev(rs, i) by {
        if i < rs.len() - 1 {
            assert(rs[i] == records[i]);
            assert(chain_prev(rs, i) == chain_prev(records, i));
        } else {
            if i > 0 {
                assert(rs[i - 1] == records[i - 1]);
                assert(records[i - 1] == records.last());
            }
        }
    }
    assert forall|i: int, j: int|
        0 <= i < j < rs.len() implies (#[trigger] rs[i]).record_id@ != (
    #[trigger] rs[j]).record_id@ by {
        if j < rs.len() - 1 {
            assert(rs[i] == records[i]);
            assert(rs[j] == records[j]);
        } else {
            assert(rs[i] == records[i]);
        }
    }
}

/// Records with equal field views chain identically: the chain predicate
/// and the head hash depend on the views alone.
pub proof fn lemma_chain_views(
    a: Seq<KeyVaultRecordContainerV1>,
    b: Seq<KeyVaultRecordContainerV1>,
)
    requires
        a.len() == b.len(),
        forall|i: int| 0 <= i < a.len() ==> cont_view(#[trigger] a[i]) == cont_view(b[i]),
    ensures
        chain_ok(b) ==> chain_ok(a),
        vault_head_hash(a) == vault_head_hash(b),
{
    assert forall|i: int| 0 <= i < a.len() implies container_val(#[trigger] a[i]) == container_val(
        b[i],
    ) by {
        assert(crate::formats::container_entries(a[i]) =~= crate::formats::container_entries(
            b[i],
        ));
    }
    assert forall|i: int| 0 <= i <= a.len() implies chain_prev(a, i) == #[trigger] chain_prev(
        b,
        i,
    ) by {
        if i > 0 {
            assert(container_val(a[i - 1]) == container_val(b[i - 1]));
        }
    }
    if chain_ok(b) {
        assert forall|i: int|
            0 <= i < a.len() implies (#[trigger] a[i]).seq == i + 1 && a[i].prev_hash@
            == chain_prev(a, i) by {
            assert(cont_view(a[i]) == cont_view(b[i]));
            assert(b[i].seq == i + 1 && b[i].prev_hash@ == chain_prev(b, i));
        }
        assert forall|i: int, j: int|
            0 <= i < j < a.len() implies (#[trigger] a[i]).record_id@ != (
        #[trigger] a[j]).record_id@ by {
            assert(cont_view(a[i]) == cont_view(b[i]));
            assert(cont_view(a[j]) == cont_view(b[j]));
        }
    }
}

/// The shape of a user KEM keypair payload: the private and public
/// two-element encodings at keys 0 and 1, with well-sized components.
pub open spec fn user_record_shape(p: CborVal) -> bool {
    &&& p is Dict
    &&& (map_get_spec(p->Dict_0, 0) matches Some(x) && x is Bytes
        && (crate::ciphersuite::parse_two_bytes(x->Bytes_0) matches Some((s, d)) && s.len() == 32
        && d.len() == 64))
    &&& (map_get_spec(p->Dict_0, 1) matches Some(x) && x is Bytes
        && (crate::ciphersuite::parse_two_bytes(x->Bytes_0) matches Some((xp, e)) && xp.len()
        == 32))
}

/// The shape of a device signing keypair payload: the device id, both key
/// pairs, and the sole recognized signature suite tag.
pub open spec fn device_record_shape(p: CborVal) -> bool {
    &&& p is Dict
    &&& (map_get_spec(p->Dict_0, 0) matches Some(x) && x is Text)
    &&& (map_get_spec(p->Dict_0, 1) matches Some(x) && x is Bytes)
    &&& (map_get_spec(p->Dict_0, 2) matches Some(x) && x is Bytes)
    &&& map_get_spec(p->Dict_0, 3) == Some(
        CborVal::Text(
            encode_utf8(crate::types::sig_id_tag(crate::types::SigCiphersuiteId::HybridSig1)),
        ),
    )
    &&& (map_get_spec(p->Dict_0, 4) matches Some(x) && x is Bytes)
    &&& (map_get_spec(p->Dict_0, 5) matches Some(x) && x is Bytes)
}

/// The shape of a scope-key payload: scope id, epoch, and key.
pub open spec fn scope_record_shape(p: CborVal) -> bool {
    &&& p is Dict
    &&& (map_get_spec(p->Dict_0, 0) matches Some(x) && x is Text)
    &&& (map_get_spec(p->Dict_0, 1) matches Some(x) && x is Uint)
    &&& (map_get_spec(p->Dict_0, 2) matches Some(x) && x is Bytes)
}

/// The shape of a resource-key payload: resource id, resource-key id, and
/// key.
pub open spec fn resource_record_shape(p: CborVal) -> bool {
    &&& p is Dict
    &&& (map_get_spec(p->Dict_0, 0) matches Some(x) && x is Text)
    &&& (map_get_spec(p->Dict_0, 1) matches Some(x) && x is Text)
    &&& (map_get_spec(p->Dict_0, 2) matches Some(x) && x is Bytes)
}

/// Applies one decrypted record to the materialized maps by kind: the user
/// KEM keypair, a device signing keypair, a scope key, or a resource key.
/// Exactly the well-shaped payloads of known kinds apply; unknown kinds are
/// ignored; a malformed payload of a known kind is an error that leaves the
/// materialization unchanged.
pub fn apply_record_plain(record: &KeyVaultRecordPlainV1, materialized: &mut KeyVaultMaterialized) -> (r: CoreResult<()>)
    ensures
        r is Err ==> r->Err_0 is Cbor || r->Err_0 is Format,
        r is Err ==> *final(materialized) == *old(materialized),
        record.kind == 1 ==> (r is Ok <==> user_record_shape(record.payload@)),
        record.kind == 2 ==> (r is Ok <==> device_record_shape(record.payload@)),
        record.kind == 3 ==> (r is Ok <==> scope_record_shape(record.payload@)),
        record.kind == 4 ==> (r is Ok <==> resource_record_shape(record.payload@)),
        !(record.kind == 1 || record.kind == 2 || record.kind == 3 || record.kind == 4) ==> r is Ok
            && *final(materialized) == *old(materialized),
        record.kind == 1 && r is Ok ==> (final(materialized).user_key matches Some(rec) && ({
            let m = record.payload@->Dict_0;
            &&& crate::ciphersuite::recipient_wf(rec)
            &&& (map_get_spec(m, 0) matches Some(x) && crate::ciphersuite::parse_two_bytes(
                x->Bytes_0,
            ) == Some((rec.x25519_secret@, rec.mlkem_decaps_bytes@)))
            &&& map_get_spec(m, 1) == Some(CborVal::Bytes(rec.public_bytes@))
            &&& crate::ciphersuite::parse_two_bytes(rec.public_bytes@) == Some(
                (rec.x25519_public@, rec.mlkem_encaps_bytes@),
            )
        })) && final(materialized).device_signing_keys@ == old(materialized).device_signing_keys@ && final(materialized).scope_keys@ == old(materialized).scope_keys@
            && final(materialized).resource_keys@ == old(materialized).resource_keys@,
        record.kind == 2 && r is Ok ==> final(materialized).device_signing_keys@.len() == old(materialized).device_signing_keys@.len() + 1 && final(materialized).device_signing_keys@.drop_last()
            == old(materialized).device_signing_keys@ && ({
            let m = record.payload@->Dict_0;
            let added = final(materialized).device_signing_keys@.last();
            &&& map_get_spec(m, 0) == Some(CborVal::Text(encode_utf8(added.0@)))
            &&& map_get_spec(m, 1) == Some(CborVal::Bytes(added.1.ed25519_priv@))
            &&& map_get_spec(m, 2) == Some(CborVal::Bytes(added.1.ed25519_pub@))
            &&& map_get_spec(m, 4) == Some(CborVal::Bytes(added.1.mldsa_priv@))
            &&& map_get_spec(m, 5) == Some(CborVal::Bytes(added.1.mldsa_pub@))
        }) && final(materialized).user_key == old(materialized).user_key && final(materialized).scope_keys@ == old(materialized).scope_keys@ && final(materialized).resource_keys@
            == old(materialized).resource_keys@,
        record.kind == 3 && r is Ok ==> final(materialized).scope_keys@.len() == old(materialized).scope_keys@.len() + 1 && final(materialized).scope_keys@.drop_last() == old(materialized).scope_keys@ && ({
            let m = record.payload@->Dict_0;
            let added = final(materialized).scope_keys@.last();
            &&& map_get_spec(m, 0) == Some(CborVal::Text(encode_utf8(added.0.0@)))
            &&& map_get_spec(m, 1) == Some(CborVal::Uint(added.0.1))
            &&& map_get_spec(m, 2) == Some(CborVal::Bytes(added.1@))
        }) && final(materialized).user_key == old(materialized).user_key && final(materialized).device_signing_keys@ == old(materialized).device_signing_keys@ && final(materialized).resource_keys@ == old(materialized).resource_keys@,
        record.kind == 4 && r is Ok ==> final(materialized).resource_keys@.len() == old(materialized).resource_keys@.len() + 1 && final(materialized).resource_keys@.drop_last() == old(materialized).resource_keys@ && ({
            let m = record.payload@->Dict_0;
            let added = final(materialized).resource_keys@.last();
            &&& map_get_spec(m, 0) == Some(CborVal::Text(encode_utf8(added.0.0@)))
            &&& map_get_spec(m, 1) == Some(CborVal::Text(encode_utf8(added.0.1@)))
            &&& map_get_spec(m, 2) == Some(CborVal::Bytes(added.1@))
        }) && final(materialized).user_key == old(materialized).user_key && final(materialized).device_signing_keys@ == old(materialized).device_signing_keys@ && final(materialized).scope_keys@ == old(materialized).scope_keys@,
        record.kind != 3 ==> final(materialized).scope_keys@ == old(materialized).scope_keys@,
        record.kind != 4 ==> final(materialized).resource_keys@ == old(materialized).resource_keys@,
{
    if record.kind == 1 {
        let map = as_map(&record.payload)?;
        let uk_priv = req_bytes(map, 0)?;
        let uk_pub = req_bytes(map, 1)?;
        let user = match crate::ciphersuite::decode_user_keypair(
            uk_priv.as_slice(),
            uk_pub.as_slice(),
        ) {
            Ok(u) => u,
            Err(_) => {
                return Err(CoreError::Format("invalid user key record".to_owned()));
            },
        };
        materialized.user_key = Some(user);
        Ok(())
    } else if record.kind == 2 {
        let map = as_map(&record.payload)?;
        let device_id = req_text(map, 0)?;
        let ed_priv = req_bytes(map, 1)?;
        let ed_pub = req_bytes(map, 2)?;
        let suite_tag = req_text(map, 3)?;
        if !str_eq(suite_tag.as_str(), "hybrid-sig-1") {
            proof {
                broadcast use vstd::utf8::encode_utf8_decode_utf8;

                assert(vstd::utf8::decode_utf8(encode_utf8(suite_tag@)) == suite_tag@);
                assert(vstd::utf8::decode_utf8(encode_utf8("hybrid-sig-1"@))
                    == "hybrid-sig-1"@);
            }
            return Err(CoreError::Format("unsupported signing suite".to_owned()));
        }
        let ml_priv = req_bytes(map, 4)?;
        let ml_pub = req_bytes(map, 5)?;
        let keypair = HybridSignatureKeypair {
            ed25519_priv: ed_priv,
            ed25519_pub: ed_pub,
            mldsa_priv: ml_priv,
            mldsa_pub: ml_pub,
        };
        materialized.device_signing_keys.push((device_id, keypair));
        Ok(())
    } else if record.kind == 3 {
        let map = as_map(&record.payload)?;
        let scope_id = req_text(map, 0)?;
        let scope_epoch = req_uint(map, 1)?;
        let scope_key = req_bytes(map, 2)?;
        materialized.scope_keys.push(((scope_id, scope_epoch), scope_key));
        Ok(())
    } else if record.kind == 4 {
        let map = as_map(&record.payload)?;
        let resource_id = req_text(map, 0)?;
        let resource_key_id = req_text(map, 1)?;
        let resource_key = req_bytes(map, 2)?;
        materialized.resource_keys.push(((resource_id, resource_key_id), resource_key));
        Ok(())
    } else {
        Ok(())
    }
}


/// Whether a batch holds a record with the given sequence number.
pub open spec fn has_seq(containers: Seq<KeyVaultRecordContainerV1>, s: int) -> bool {
    exists|j: int| 0 <= j < containers.len() && (#[trigger] containers[j]).seq == s
}

/// Whether a batch's sequence numbers are exactly 1 through its length,
/// each exactly once.
pub open spec fn batch_seqs_ok(containers: Seq<KeyVaultRecordContainerV1>) -> bool {
    &&& forall|j: int|
        0 <= j < containers.len() ==> 1 <= (#[trigger] containers[j]).seq <= containers.len()
    &&& forall|i: int, j: int|
        0 <= i < j < containers.len() ==> (#[trigger] containers[i]).seq != (
        #[trigger] containers[j]).seq
    &&& forall|s: int| 1 <= s <= containers.len() ==> #[trigger] has_seq(containers, s)
}

/// The position of the record carrying the given sequence number.
pub open spec fn index_of_seq(containers: Seq<KeyVaultRecordContainerV1>, s: int) -> int {
    choose|j: int| 0 <= j < containers.len() && (#[trigger] containers[j]).seq == s
}

/// The batch in replay order: the record with sequence number `i + 1` at
/// position `i`.
pub open spec fn sorted_batch(
    containers: Seq<KeyVaultRecordContainerV1>,
) -> Seq<KeyVaultRecordContainerV1> {
    Seq::new(containers.len(), |i: int| containers[index_of_seq(containers, i + 1)])
}

/// Whether one sealed record replays: it opens under the vault key and its
/// record AAD, the plaintext decodes canonically to a record whose id
/// matches the container's, and the payload fits the record's kind.
pub open spec fn record_replays(
    header: KeyVaultHeaderV1,
    vault_key: Seq<u8>,
    c: KeyVaultRecordContainerV1,
) -> bool {
    &&& c.nonce@.len() == 12
    &&& (aead_open_of(vault_key, c.nonce@, record_aad(header, c.record_id@), c.ct@) matches Some(
        pt,
    ) && (crate::cbor::decode_spec(pt, 0x100000, 64, 4096) matches Some(v)
        && crate::formats::plain_shape(v) && map_get_spec(v->Dict_0, 0) == Some(
        CborVal::Text(encode_utf8(c.record_id@)),
    ) && payload_applies(v)))
}

/// Whether a decoded record plaintext's payload fits its kind.
pub open spec fn payload_applies(v: CborVal) -> bool {
    let k = map_get_spec(v->Dict_0, 1)->Some_0->Uint_0;
    let p = map_get_spec(v->Dict_0, 2)->Some_0;
    &&& (k == 1 ==> user_record_shape(p))
    &&& (k == 2 ==> device_record_shape(p))
    &&& (k == 3 ==> scope_record_shape(p))
    &&& (k == 4 ==> resource_record_shape(p))
}

/// Whether a batch must replay: the sequence numbers are exactly 1 through
/// its length, the replay order forms an intact chain, and every record
/// opens and applies.
pub open spec fn batch_replays(
    header: KeyVaultHeaderV1,
    vault_key: Seq<u8>,
    containers: Seq<KeyVaultRecordContainerV1>,
) -> bool {
    &&& vault_key.len() == 32
    &&& batch_seqs_ok(containers)
    &&& chain_ok(sorted_batch(containers))
    &&& forall|i: int|
        0 <= i < containers.len() ==> record_replays(
            header,
            vault_key,
            #[trigger] sorted_batch(containers)[i],
        )
}

/// Orders a batch of containers by sequence number: record `seq` goes to
/// position `seq - 1`. Sequence numbers outside `1..=n` or repeated are a
/// format error, exactly the batches whose replay must fail.
fn sort_by_seq(containers: &[KeyVaultRecordContainerV1]) -> (r: CoreResult<
    Vec<KeyVaultRecordContainerV1>,
>)
    ensures
        r is Ok ==> ({
            let s = r->Ok_0@;
            &&& s.len() == containers@.len()
            &&& forall|i: int| 0 <= i < s.len() ==> (#[trigger] s[i]).seq == i + 1
            &&& forall|j: int|
                0 <= j < containers@.len() ==> 1 <= (#[trigger] containers@[j]).seq
                    <= containers@.len() && cont_view(s[containers@[j].seq - 1]) == cont_view(
                    containers@[j],
                )
        }),
        r is Err ==> r->Err_0 is Format,
        batch_seqs_ok(containers@) ==> r is Ok,
{
    let n = containers.len();
    let mut slots: Vec<Option<KeyVaultRecordContainerV1>> = Vec::new();
    let mut f: usize = 0;
    while f < n
        invariant
            f <= n,
            slots@.len() == f,
            forall|i: int| 0 <= i < f ==> (#[trigger] slots@[i]) is None,
        decreases n - f,
    {
        slots.push(None);
        f = f + 1;
    }
    let mut j: usize = 0;
    while j < n
        invariant
            j <= n,
            n == containers@.len(),
            slots@.len() == n,
            forall|q: int|
                0 <= q < j ==> 1 <= (#[trigger] containers@[q]).seq <= n && (slots@[
                    containers@[q].seq - 1] matches Some(x) && cont_view(x) == cont_view(
                    containers@[q],
                )),
            forall|i: int|
                0 <= i < n ==> ((#[trigger] slots@[i]) matches Some(x) ==> x.seq == i + 1),
            forall|i: int|
                0 <= i < n && (#[trigger] slots@[i]) is Some ==> exists|q: int|
                    0 <= q < j && (#[trigger] containers@[q]).seq == i + 1,
        decreases n - j,
    {
        let c = &containers[j];
        if !(c.seq >= 1 && c.seq <= n as u64) {
            return Err(CoreError::Format("keyvault seq mismatch".to_owned()));
        }
        let idx = (c.seq - 1) as usize;
        let occupied = match &slots[idx] {
            Some(_) => true,
            None => false,
        };
        if occupied {
            proof {
                if batch_seqs_ok(containers@) {
                    let q = choose|q: int|
                        0 <= q < j && (#[trigger] containers@[q]).seq == idx + 1;
                    assert(containers@[q].seq == containers@[j as int].seq);
                    assert(false);
                }
            }
            return Err(CoreError::Format("keyvault seq mismatch".to_owned()));
        }
        slots.set(idx, Some(c.clone()));
        proof {
            assert forall|i: int| 0 <= i < n && (#[trigger] slots@[i]) is Some implies exists|q: int|
                0 <= q < j + 1 && (#[trigger] containers@[q]).seq == i + 1 by {
                if i == idx {
                    assert(containers@[j as int].seq == i + 1);
                } else {
                    let q = choose|q: int|
                        0 <= q < j && (#[trigger] containers@[q]).seq == i + 1;
                    assert(containers@[q].seq == i + 1);
                }
            }
        }
        j = j + 1;
    }
    let mut out: Vec<KeyVaultRecordContainerV1> = Vec::new();
    let mut i: usize = 0;
    while i < n
        invariant
            i <= n,
            n == containers@.len(),
            slots@.len() == n,
            out@.len() == i,
            forall|q: int|
                0 <= q < n ==> 1 <= (#[trigger] containers@[q]).seq <= n && (slots@[
                    containers@[q].seq - 1] matches Some(x) && cont_view(x) == cont_view(
                    containers@[q],
                )),
            forall|q: int|
                0 <= q < n ==> ((#[trigger] slots@[q]) matches Some(x) ==> x.seq == q + 1),
            forall|q: int| 0 <= q < i ==> (#[trigger] slots@[q]) is Some,
            forall|q: int|
                0 <= q < i ==> cont_view(#[trigger] out@[q]) == cont_view(
                    slots@[q]->Some_0,
                ),
        decreases n - i,
    {
        match &slots[i] {
            Some(c) => {
                proof {
                    assert(slots@[i as int] is Some);
                    assert(*c == slots@[i as int]->Some_0);
                }
                let ghost stored = slots@[i as int]->Some_0;
                out.push(c.clone());
                proof {
                    assert(cont_view(out@.last()) == cont_view(stored));
                    assert forall|q: int|
                        0 <= q < i + 1 implies (#[trigger] slots@[q]) is Some && cont_view(
                        out@[q],
                    ) == cont_view(slots@[q]->Some_0) by {
                        if q < i {
                            assert(out@[q] == out@.drop_last()[q]);
                        } else {
                            assert(out@[q] == out@.last());
                        }
                    }
                }
            },
            None => {
                proof {
                    if batch_seqs_ok(containers@) {
                        assert(has_seq(containers@, i + 1));
                        let w = choose|w: int|
                            0 <= w < containers@.len() && (#[trigger] containers@[w]).seq == i
                                + 1;
                        assert(slots@[containers@[w].seq - 1] is Some);
                        assert(false);
                    }
                }
                return Err(CoreError::Format("keyvault seq mismatch".to_owned()));
            },
        }
        i = i + 1;
    }
    proof {
        assert forall|q: int| 0 <= q < n implies (#[trigger] out@[q]).seq == q + 1 by {
            assert(slots@[q] is Some);
            let x = slots@[q]->Some_0;
            assert(x.seq == q + 1);
            assert(cont_view(out@[q]) == cont_view(x));
        }
    }
    Ok(out)
}

impl KeyVaultState {
    /// Replays a batch of containers, ordering it by sequence number
    /// first: sequence numbers must be gap-free from 1, every previous hash
    /// must link to its predecessor's digest, record ids must be distinct,
    /// and every payload must decrypt and apply. Any failure aborts the
    /// replay; nothing is materialized partially.
    #[verifier::rlimit(100)]
    #[verifier::loop_isolation(false)]
    pub fn apply_containers(
        header: &KeyVaultHeaderV1,
        vault_key: &[u8],
        containers: &[KeyVaultRecordContainerV1],
    ) -> (r: CoreResult<(KeyVaultState, KeyVaultMaterialized)>)
        ensures
            r is Ok ==> ({
                let (state, m) = r->Ok_0;
                &&& state_wf(state)
                &&& state.records@.len() == containers@.len()
                &&& forall|j: int|
                    0 <= j < containers@.len() ==> 1 <= (#[trigger] containers@[j]).seq
                        <= containers@.len() && cont_view(
                        state.records@[containers@[j].seq - 1],
                    ) == cont_view(containers@[j])
                &&& forall|i: int|
                    0 <= i < state.records@.len() ==> record_opens(
                        *header,
                        vault_key@,
                        #[trigger] state.records@[i],
                    )
                &&& state.head_seq == containers@.len()
                &&& state.head_hash@ == vault_head_hash(state.records@)
            }),
            r is Err ==> r->Err_0 is Cbor || r->Err_0 is Format || r->Err_0 is Crypto,
            batch_replays(*header, vault_key@, containers@) ==> r is Ok,
    {
        let ghost orig = containers@;
        let sorted = sort_by_seq(containers)?;
        let containers = sorted.as_slice();
        proof {
            if batch_replays(*header, vault_key@, orig) {
                assert forall|q: int| 0 <= q < containers@.len() implies cont_view(
                    #[trigger] containers@[q],
                ) == cont_view(sorted_batch(orig)[q]) by {
                    assert(has_seq(orig, q + 1));
                    let w = index_of_seq(orig, q + 1);
                    assert(0 <= w < orig.len() && orig[w].seq == q + 1);
                    assert(cont_view(containers@[orig[w].seq - 1]) == cont_view(orig[w]));
                }
                lemma_chain_views(containers@, sorted_batch(orig));
                assert(chain_ok(containers@));
                assert forall|q: int| 0 <= q < containers@.len() implies record_replays(
                    *header,
                    vault_key@,
                    #[trigger] containers@[q],
                ) by {
                    assert(record_replays(*header, vault_key@, sorted_batch(orig)[q]));
                    assert(cont_view(containers@[q]) == cont_view(sorted_batch(orig)[q]));
                    assert(containers@[q].nonce@ == sorted_batch(orig)[q].nonce@);
                    assert(containers@[q].record_id@ == sorted_batch(orig)[q].record_id@);
                    assert(containers@[q].ct@ == sorted_batch(orig)[q].ct@);
                }
            }
        }
        let mut materialized = KeyVaultMaterialized::new();
        let mut state = KeyVaultState::new();
        let mut i: usize = 0;
        while i < containers.len()
            invariant
                i <= containers@.len(),
                state.records@.len() == i,
                forall|q: int|
                    0 <= q < i ==> cont_view(#[trigger] state.records@[q]) == cont_view(
                        containers@[q],
                    ),
                state.head_seq == i,
                state.head_hash@ == vault_head_hash(containers@.take(i as int)),
                state.head_hash@.len() == 32,
                chain_ok(containers@.take(i as int)),
                forall|q: int|
                    0 <= q < i ==> record_opens(*header, vault_key@, #[trigger] containers@[q]),
            decreases containers@.len() - i,
        {
            let container = &containers[i];
            if !(container.seq >= 1 && i as u64 == container.seq - 1) {
                proof {
                    assert(containers@[i as int].seq == i + 1);
                    assert(false);
                }
                return Err(CoreError::Format("keyvault seq mismatch".to_owned()));
            }
            let mut fresh = true;
            let mut q: usize = 0;
            while q < i
                invariant
                    q <= i,
                    i < containers@.len(),
                    fresh == (forall|p: int|
                        0 <= p < q ==> (#[trigger] containers@[p]).record_id@
                            != containers@[i as int].record_id@),
                decreases i - q,
            {
                if str_eq(
                    containers[q].record_id.as_str(),
                    containers[i].record_id.as_str(),
                ) {
                    fresh = false;
                }
                q = q + 1;
            }
            if !fresh {
                proof {
                    if batch_replays(*header, vault_key@, orig) {
                        let p = choose|p: int|
                            0 <= p < i && (#[trigger] containers@[p]).record_id@
                                == containers@[i as int].record_id@;
                        assert(containers@[p].record_id@ == containers@[i as int].record_id@);
                        assert(false);
                    }
                }
                return Err(CoreError::Format("duplicate keyvault record_id".to_owned()));
            }
            let container_bytes = match encode_keyvault_record_container_v1(container) {
                Ok(b) => b,
                Err(e) => {
                    return Err(e);
                },
            };
            let digest = sha256(container_bytes.as_slice());
            let hash = crate::cbor::slice_to_vec(digest.as_slice(), 0, 32);
            proof {
                assert(digest@.subrange(0, 32) =~= digest@);
            }
            let mut prev_ok = true;
            if container.prev_hash.len() != 32 {
                prev_ok = false;
            } else {
                let mut t: usize = 0;
                while t < 32
                    invariant
                        t <= 32,
                        container.prev_hash@.len() == 32,
                        state.head_hash@.len() == 32,
                        prev_ok == (forall|p: int|
                            0 <= p < t ==> container.prev_hash@[p] == state.head_hash@[p]),
                        container == &containers@[i as int],
                        i < containers@.len(),
                    decreases 32 - t,
                {
                    if container.prev_hash[t] != state.head_hash[t] {
                        prev_ok = false;
                    }
                    t = t + 1;
                }
                proof {
                    if prev_ok {
                        assert(container.prev_hash@ =~= state.head_hash@);
                    }
                }
            }
            proof {
                if batch_replays(*header, vault_key@, orig) {
                    if i > 0 {
                        assert(containers@.take(i as int)[i as int - 1] == containers@[i as int
                            - 1]);
                    }
                    assert(container.prev_hash@ == chain_prev(containers@, i as int));
                    assert(container.prev_hash@ == state.head_hash@);
                    assert forall|p: int| 0 <= p < 32 implies container.prev_hash@[p]
                        == state.head_hash@[p] by {}
                    assert(prev_ok);
                }
            }
            if !prev_ok {
                return Err(CoreError::Format("keyvault chain mismatch".to_owned()));
            }
            let aad = aad_keyvault_record_v1(
                header.vault_id.as_str(),
                header.user_id.as_str(),
                header.aead,
                container.record_id.as_str(),
            )?;
            let plaintext = match aead_decrypt(
                vault_key,
                aad.as_slice(),
                container.nonce.as_slice(),
                container.ct.as_slice(),
            ) {
                Ok(pt) => pt,
                Err(_) => {
                    return Err(CoreError::Format("keyvault record decrypt failed".to_owned()));
                },
            };
            let record_plain = decode_keyvault_record_plain_v1(plaintext.as_slice())?;
            proof {
                broadcast use vstd::utf8::encode_utf8_decode_utf8;

                if batch_replays(*header, vault_key@, orig) {
                    assert(vstd::utf8::decode_utf8(encode_utf8(record_plain.record_id@))
                        == record_plain.record_id@);
                    assert(vstd::utf8::decode_utf8(encode_utf8(container.record_id@))
                        == container.record_id@);
                    assert(record_plain.record_id@ == container.record_id@);
                }
            }
            if !str_eq(record_plain.record_id.as_str(), container.record_id.as_str()) {
                return Err(CoreError::Format("record id mismatch".to_owned()));
            }
            apply_record_plain(&record_plain, &mut materialized)?;
            proof {
                lemma_chain_append(containers@.take(i as int), containers@[i as int]);
                assert(containers@.take(i + 1) =~= containers@.take(i as int).push(
                    containers@[i as int],
                ));
            }
            let ghost old_state_records = state.records@;
            state.head_seq = container.seq;
            state.head_hash = hash;
            state.records.push(container.clone());
            proof {
                assert(container_val(containers@.take(i + 1).last()) == container_val(
                    containers@[i as int],
                ));
                assert forall|q: int|
                    0 <= q < i + 1 implies cont_view(#[trigger] state.records@[q]) == cont_view(
                    containers@[q],
                ) by {
                    if q < i {
                        assert(state.records@[q] == old_state_records[q]);
                    } else {
                        assert(state.records@[q] == state.records@.last());
                    }
                }
            }
            i = i + 1;
        }
        proof {
            assert(containers@.take(containers@.len() as int) =~= containers@);
            lemma_chain_views(state.records@, containers@);
        }
        proof {
            assert forall|i: int| 0 <= i < state.records@.len() implies record_opens(
                *header,
                vault_key@,
                #[trigger] state.records@[i],
            ) by {
                assert(cont_view(state.records@[i]) == cont_view(containers@[i]));
                assert(record_opens(*header, vault_key@, containers@[i]));
            }
        }
        Ok((state, materialized))
    }
}

/// A user KEM keypair record: kind 1 with the private and public encodings.
pub fn make_store_user_key_record(record_id: &str, uk_priv: &[u8], uk_pub: &[u8]) -> (r:
    KeyVaultRecordPlainV1)
    ensures
        r.record_id@ == record_id@,
        r.kind == 1,
        cbor_canon(r.payload@),
        r.payload@ == uint_map(
            seq![(0u64, CborVal::Bytes(uk_priv@)), (1u64, CborVal::Bytes(uk_pub@))],
        ),
{
    let entries = vec![(0u64, cbor_bytes(uk_priv)), (1u64, cbor_bytes(uk_pub))];
    let ghost ev = entries@;
    let payload = build_uint_map(entries);
    proof {
        lemma_uint_entry_views(ev);
        assert(uint_entry_views(ev) =~= seq![
            (0u64, CborVal::Bytes(uk_priv@)),
            (1u64, CborVal::Bytes(uk_pub@)),
        ]);
    }
    KeyVaultRecordPlainV1 { record_id: record_id.to_owned(), kind: 1, payload }
}

/// A device signing keypair record: kind 2 with the device id, both key
/// pairs, and the signature suite tag.
pub fn make_store_device_signing_key_record(
    record_id: &str,
    device_id: &str,
    ed_priv: &[u8],
    ed_pub: &[u8],
    ml_priv: &[u8],
    ml_pub: &[u8],
    sig_suite: crate::types::SigCiphersuiteId,
) -> (r: KeyVaultRecordPlainV1)
    ensures
        r.record_id@ == record_id@,
        r.kind == 2,
        cbor_canon(r.payload@),
{
    let entries = vec![
        (0u64, cbor_text(device_id)),
        (1u64, cbor_bytes(ed_priv)),
        (2u64, cbor_bytes(ed_pub)),
        (3u64, cbor_text(sig_suite.as_str())),
        (4u64, cbor_bytes(ml_priv)),
        (5u64, cbor_bytes(ml_pub)),
    ];
    let payload = build_uint_map(entries);
    KeyVaultRecordPlainV1 { record_id: record_id.to_owned(), kind: 2, payload }
}

/// A scope key record: kind 3 with the scope id, epoch, and key.
pub fn make_store_scope_key_record(
    record_id: &str,
    scope_id: &str,
    scope_epoch: u64,
    scope_key: &[u8],
) -> (r: KeyVaultRecordPlainV1)
    ensures
        r.record_id@ == record_id@,
        r.kind == 3,
        cbor_canon(r.payload@),
        r.payload@ == uint_map(
            seq![
                (0u64, CborVal::Text(encode_utf8(scope_id@))),
                (1u64, CborVal::Uint(scope_epoch)),
                (2u64, CborVal::Bytes(scope_key@)),
            ],
        ),
{
    let entries = vec![
        (0u64, cbor_text(scope_id)),
        (1u64, cbor_uint(scope_epoch)),
        (2u64, cbor_bytes(scope_key)),
    ];
    let ghost ev = entries@;
    let payload = build_uint_map(entries);
    proof {
        lemma_uint_entry_views(ev);
        assert(uint_entry_views(ev) =~= seq![
            (0u64, CborVal::Text(encode_utf8(scope_id@))),
            (1u64, CborVal::Uint(scope_epoch)),
            (2u64, CborVal::Bytes(scope_key@)),
        ]);
    }
    KeyVaultRecordPlainV1 { record_id: record_id.to_owned(), kind: 3, payload }
}

/// A resource key record: kind 4 with the resource id, resource-key id,
/// and key.
pub fn make_store_resource_key_record(
    record_id: &str,
    resource_id: &str,
    resource_key_id: &str,
    resource_key: &[u8],
) -> (r: KeyVaultRecordPlainV1)
    ensures
        r.record_id@ == record_id@,
        r.kind == 4,
        cbor_canon(r.payload@),
        r.payload@ == uint_map(
            seq![
                (0u64, CborVal::Text(encode_utf8(resource_id@))),
                (1u64, CborVal::Text(encode_utf8(resource_key_id@))),
                (2u64, CborVal::Bytes(resource_key@)),
            ],
        ),
{
    let entries = vec![
        (0u64, cbor_text(resource_id)),
        (1u64, cbor_text(resource_key_id)),
        (2u64, cbor_bytes(resource_key)),
    ];
    let ghost ev = entries@;
    let payload = build_uint_map(entries);
    proof {
        lemma_uint_entry_views(ev);
        assert(uint_entry_views(ev) =~= seq![
            (0u64, CborVal::Text(encode_utf8(resource_id@))),
            (1u64, CborVal::Text(encode_utf8(resource_key_id@))),
            (2u64, CborVal::Bytes(resource_key@)),
        ]);
    }
    KeyVaultRecordPlainV1 { record_id: record_id.to_owned(), kind: 4, payload }
}

/// The materialized-map key of a scope key.
pub fn scope_key_lookup_key(scope_id: &ScopeId, scope_epoch: ScopeEpoch) -> (r: (String, u64))
    ensures
        r.0@ == scope_id.0@,
        r.1 == scope_epoch.0,
{
    (scope_id.0.clone(), scope_epoch.0)
}

/// The materialized-map key of a resource key.
pub fn resource_key_lookup_key(resource_id: &ResourceId, resource_key_id: &ResourceKeyId) -> (r: (
    String,
    String,
))
    ensures
        r.0@ == resource_id.0@,
        r.1@ == resource_key_id.0@,
{
    (resource_id.0.clone(), resource_key_id.0.clone())
}

/// The ledger's AEAD suite.
pub fn aead_id() -> (r: AeadId)
    ensures
        r is Aead1,
{
    AeadId::Aead1
}

/// Checks the chain invariant of a ledger state by recomputing every link.
/// A true answer certifies the invariant; the check is sound, not complete.
pub fn check_state_wf(s: &KeyVaultState) -> (r: bool)
    ensures
        r ==> state_wf(*s),
{
    if s.head_hash.len() != 32 {
        return false;
    }
    if s.records.len() > u64::MAX as usize {
        return false;
    }
    if s.head_seq != s.records.len() as u64 {
        return false;
    }
    let mut prev = KeyVaultState::new().head_hash;
    let mut i: usize = 0;
    while i < s.records.len()
        invariant
            i <= s.records@.len(),
            prev@ == chain_prev(s.records@, i as int),
            prev@.len() == 32,
            forall|p: int, q: int|
                0 <= p < q < i ==> (#[trigger] s.records@[p]).record_id@ != (
                #[trigger] s.records@[q]).record_id@,
            forall|p: int|
                0 <= p < i ==> (#[trigger] s.records@[p]).seq == p + 1
                    && s.records@[p].prev_hash@ == chain_prev(s.records@, p),
        decreases s.records@.len() - i,
    {
        let c = &s.records[i];
        if !(c.seq >= 1 && i as u64 == c.seq - 1) {
            return false;
        }
        if !crate::cbor::bytes_eq(&c.prev_hash, &prev) {
            return false;
        }
        let mut q: usize = 0;
        while q < i
            invariant
                q <= i,
                i < s.records@.len(),
                forall|p: int|
                    0 <= p < q ==> (#[trigger] s.records@[p]).record_id@
                        != s.records@[i as int].record_id@,
            decreases i - q,
        {
            if str_eq(s.records[q].record_id.as_str(), s.records[i].record_id.as_str()) {
                return false;
            }
            q = q + 1;
        }
        let bytes = match encode_keyvault_record_container_v1(c) {
            Ok(b) => b,
            Err(_) => {
                return false;
            },
        };
        let digest = sha256(bytes.as_slice());
        prev = crate::cbor::slice_to_vec(digest.as_slice(), 0, 32);
        proof {
            assert(digest@.subrange(0, 32) =~= digest@);
        }
        i = i + 1;
    }
    if !crate::cbor::bytes_eq(&s.head_hash, &prev) {
        return false;
    }
    proof {
        assert(chain_ok(s.records@));
        assert(s.head_hash@ == vault_head_hash(s.records@));
    }
    true
}

} // verus!
