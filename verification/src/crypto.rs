//! Crypto primitives: the password KDF, HKDF-SHA-256, the AEAD, and the
//! entropy source, each behind a narrow trusted boundary.

use aes_gcm::aead::{Aead, KeyInit};
use vstd::prelude::*;
use crate::error::{CoreError, CoreResult};
use crate::types::str_eq;

verus! {

/// Parameters of the sole recognized password KDF, stored with the vault
/// header.
pub struct KdfParams {
    pub id: String,
    pub salt: Vec<u8>,
    pub memory_kib: u32,
    pub iterations: u32,
    pub parallelism: u32,
}

impl Clone for KdfParams {
    fn clone(&self) -> (r: Self)
        ensures
            r.id@ == self.id@,
            r.salt@ == self.salt@,
            r.memory_kib == self.memory_kib,
            r.iterations == self.iterations,
            r.parallelism == self.parallelism,
    {
        KdfParams {
            id: self.id.clone(),
            salt: crate::cbor::clone_bytes(&self.salt),
            memory_kib: self.memory_kib,
            iterations: self.iterations,
            parallelism: self.parallelism,
        }
    }
}

impl KdfParams {
    /// Fresh parameters with a random 16-byte salt and the default costs.
    pub fn new_random() -> (r: CoreResult<KdfParams>)
        ensures
            r is Ok ==> ({
                let p = r->Ok_0;
                &&& p.id@ == "kdf-1"@
                &&& p.salt@.len() == 16
                &&& p.memory_kib == 65536
                &&& p.iterations == 3
                &&& p.parallelism == 1
            }),
            r is Err ==> r->Err_0 is Entropy,
    {
        let salt = random_bytes(16)?;
        Ok(
            KdfParams {
                id: "kdf-1".to_owned(),
                salt,
                memory_kib: 65536,
                iterations: 3,
                parallelism: 1,
            },
        )
    }
}

/// The 32-byte Argon2id digest of a passphrase under the given salt and
/// cost parameters: a function of those inputs alone.
pub uninterp spec fn argon2id_of(
    passphrase: Seq<u8>,
    salt: Seq<u8>,
    memory_kib: u32,
    iterations: u32,
    parallelism: u32,
) -> Seq<u8>;

/// Relies on argon2's Argon2id, version 0x13, with a 32-byte output: the
/// digest depends on the passphrase, salt, and cost parameters alone;
/// parameters or salts outside argon2's documented bounds are rejected.
#[verifier::external_body]
fn argon2id_hash(
    passphrase: &[u8],
    salt: &Vec<u8>,
    memory_kib: u32,
    iterations: u32,
    parallelism: u32,
) -> (r: CoreResult<Vec<u8>>)
    ensures
        r is Ok ==> r->Ok_0@ == argon2id_of(
            passphrase@,
            salt@,
            memory_kib,
            iterations,
            parallelism,
        ) && r->Ok_0@.len() == 32,
        r is Err ==> r->Err_0 is Crypto,
{
    let params = match argon2::Params::new(memory_kib, iterations, parallelism, Some(32)) {
        Ok(p) => p,
        Err(e) => return Err(CoreError::Crypto(e.to_string())),
    };
    let argon = argon2::Argon2::new(argon2::Algorithm::Argon2id, argon2::Version::V0x13, params);
    let mut out = vec![0u8; 32];
    match argon.hash_password_into(passphrase, salt, &mut out) {
        Ok(()) => Ok(out),
        Err(e) => Err(CoreError::Crypto(e.to_string())),
    }
}

/// Derives the 32-byte key-encrypting key from a passphrase under `kdf-1`.
/// Any other KDF id is rejected.
pub fn derive_kek(passphrase_utf8: &[u8], params: &KdfParams) -> (r: CoreResult<Vec<u8>>)
    ensures
        params.id@ != "kdf-1"@ ==> r is Err,
        r is Ok ==> params.id@ == "kdf-1"@ && r->Ok_0@ == argon2id_of(
            passphrase_utf8@,
            params.salt@,
            params.memory_kib,
            params.iterations,
            params.parallelism,
        ) && r->Ok_0@.len() == 32,
        r is Err ==> r->Err_0 is Crypto,
{
    if !str_eq(params.id.as_str(), "kdf-1") {
        return Err(CoreError::Crypto("unsupported kdf".to_owned()));
    }
    argon2id_hash(
        passphrase_utf8,
        &params.salt,
        params.memory_kib,
        params.iterations,
        params.parallelism,
    )
}

/// The `len`-byte HKDF-SHA-256 output for the given input key material and
/// info string, with no salt: a function of those inputs alone.
pub uninterp spec fn hkdf_sha256_of(ikm: Seq<u8>, info: Seq<u8>, len: nat) -> Seq<u8>;

/// Relies on hkdf's `Hkdf::<Sha256>` with no salt: `expand` fills exactly
/// `len` bytes that depend on the input key material, the info string, and
/// the length alone; it rejects lengths over 255 hash lengths (8160 bytes).
#[verifier::external_body]
pub fn hkdf_sha256(ikm: &[u8], info: &[u8], len: usize) -> (r: CoreResult<Vec<u8>>)
    ensures
        r is Ok <==> len <= 8160,
        r is Ok ==> r->Ok_0@ == hkdf_sha256_of(ikm@, info@, len as nat) && r->Ok_0@.len() == len,
        r is Err ==> r->Err_0 is Crypto,
{
    let hk = hkdf::Hkdf::<sha2::Sha256>::new(None, ikm);
    let mut okm = vec![0u8; len];
    match hk.expand(info, &mut okm) {
        Ok(()) => Ok(okm),
        Err(_) => Err(CoreError::Crypto("hkdf expand failed".to_owned())),
    }
}

/// The SHA-256 digest as a plain byte vector.
pub fn sha256_bytes(input: &[u8]) -> (r: Vec<u8>)
    ensures
        r@ == crate::hash::sha256_of(input@),
        r@.len() == 32,
{
    let digest = crate::hash::sha256(input);
    let out = crate::cbor::slice_to_vec(digest.as_slice(), 0, 32);
    proof {
        assert(digest@.subrange(0, 32) =~= digest@);
    }
    out
}

/// The AEAD ciphertext (with its trailing tag) that `aead-1` produces for
/// the given key, nonce, associated data, and plaintext: a function of
/// those inputs alone.
pub uninterp spec fn aead_seal_of(
    key: Seq<u8>,
    nonce: Seq<u8>,
    aad: Seq<u8>,
    plaintext: Seq<u8>,
) -> Seq<u8>;

/// What `aead-1` decryption yields for the given key, nonce, associated
/// data, and ciphertext: the plaintext, or nothing when authentication
/// fails. A function of those inputs alone.
pub uninterp spec fn aead_open_of(
    key: Seq<u8>,
    nonce: Seq<u8>,
    aad: Seq<u8>,
    ciphertext: Seq<u8>,
) -> Option<Seq<u8>>;

/// Relies on aes_gcm's `Aes256Gcm` encryption: the ciphertext is the
/// plaintext length plus the 16-byte tag, depends on key, nonce, associated
/// data, and plaintext alone, and aes_gcm's own decryption inverts it;
/// plaintexts and associated data beyond the GCM length bounds are
/// rejected.
#[verifier::external_body]
fn aes256_gcm_seal(key: &[u8], nonce: &[u8], aad: &[u8], plaintext: &[u8]) -> (r: CoreResult<Vec<u8>>)
    requires
        key@.len() == 32,
        nonce@.len() == 12,
    ensures
        r is Ok <==> (plaintext@.len() <= 0xFFFFFFFE0 && aad@.len() < 0x2000000000000000),
        r is Ok ==> r->Ok_0@ == aead_seal_of(key@, nonce@, aad@, plaintext@) && r->Ok_0@.len()
            == plaintext@.len() + 16 && aead_open_of(key@, nonce@, aad@, r->Ok_0@) == Some(
            plaintext@,
        ),
        r is Err ==> r->Err_0 is Crypto,
{
    let cipher = aes_gcm::Aes256Gcm::new(aes_gcm::Key::<aes_gcm::Aes256Gcm>::from_slice(key));
    let payload = aes_gcm::aead::Payload { msg: plaintext, aad };
    match cipher.encrypt(aes_gcm::Nonce::from_slice(nonce), payload) {
        Ok(ct) => Ok(ct),
        Err(_) => Err(CoreError::Crypto("encrypt failed".to_owned())),
    }
}

/// Relies on aes_gcm's `Aes256Gcm` decryption: success and the recovered
/// plaintext depend on key, nonce, associated data, and ciphertext alone,
/// and the plaintext is the ciphertext minus the 16-byte tag.
#[verifier::external_body]
fn aes256_gcm_open(key: &[u8], nonce: &[u8], aad: &[u8], ciphertext: &[u8]) -> (r: CoreResult<Vec<u8>>)
    requires
        key@.len() == 32,
        nonce@.len() == 12,
    ensures
        r is Ok <==> aead_open_of(key@, nonce@, aad@, ciphertext@) is Some,
        r is Ok ==> aead_open_of(key@, nonce@, aad@, ciphertext@) == Some(r->Ok_0@)
            && r->Ok_0@.len() + 16 == ciphertext@.len(),
        r is Err ==> r->Err_0 is Crypto,
{
    let cipher = aes_gcm::Aes256Gcm::new(aes_gcm::Key::<aes_gcm::Aes256Gcm>::from_slice(key));
    let payload = aes_gcm::aead::Payload { msg: ciphertext, aad };
    match cipher.decrypt(aes_gcm::Nonce::from_slice(nonce), payload) {
        Ok(pt) => Ok(pt),
        Err(_) => Err(CoreError::Crypto("decrypt failed".to_owned())),
    }
}

/// Seals a plaintext under `aead-1`. The key must be 32 bytes and the nonce
/// 12; decryption with the same key, nonce, and associated data recovers
/// the plaintext. Succeeds exactly on well-sized keys and nonces with the
/// plaintext and associated data inside the GCM length bounds.
pub fn aead_encrypt(key_bytes: &[u8], aad: &[u8], plaintext: &[u8], nonce: &[u8]) -> (r: CoreResult<Vec<u8>>)
    ensures
        r is Ok <==> (key_bytes@.len() == 32 && nonce@.len() == 12 && plaintext@.len()
            <= 0xFFFFFFFE0 && aad@.len() < 0x2000000000000000),
        r is Ok ==> key_bytes@.len() == 32 && nonce@.len() == 12 && r->Ok_0@ == aead_seal_of(
            key_bytes@,
            nonce@,
            aad@,
            plaintext@,
        ) && r->Ok_0@.len() == plaintext@.len() + 16 && aead_open_of(
            key_bytes@,
            nonce@,
            aad@,
            r->Ok_0@,
        ) == Some(plaintext@),
        r is Err ==> r->Err_0 is Crypto,
{
    if key_bytes.len() != 32 {
        return Err(CoreError::Crypto("invalid key length".to_owned()));
    }
    if nonce.len() != 12 {
        return Err(CoreError::Crypto("invalid nonce length".to_owned()));
    }
    aes256_gcm_seal(key_bytes, nonce, aad, plaintext)
}

/// Opens an `aead-1` ciphertext. The key must be 32 bytes and the nonce 12;
/// authentication failure is a `Crypto` error.
pub fn aead_decrypt(key_bytes: &[u8], aad: &[u8], nonce: &[u8], ciphertext: &[u8]) -> (r: CoreResult<Vec<u8>>)
    ensures
        !(key_bytes@.len() == 32 && nonce@.len() == 12) ==> r is Err,
        r is Ok <==> key_bytes@.len() == 32 && nonce@.len() == 12 && aead_open_of(
            key_bytes@,
            nonce@,
            aad@,
            ciphertext@,
        ) is Some,
        r is Ok ==> aead_open_of(key_bytes@, nonce@, aad@, ciphertext@) == Some(r->Ok_0@)
            && r->Ok_0@.len() + 16 == ciphertext@.len(),
        r is Err ==> r->Err_0 is Crypto,
{
    if key_bytes.len() != 32 {
        return Err(CoreError::Crypto("invalid key length".to_owned()));
    }
    if nonce.len() != 12 {
        return Err(CoreError::Crypto("invalid nonce length".to_owned()));
    }
    aes256_gcm_open(key_bytes, nonce, aad, ciphertext)
}

/// Relies on getrandom's `fill`: on success the buffer is filled with `len`
/// bytes of OS entropy; nothing is stated of their values.
#[verifier::external_body]
pub fn random_bytes(len: usize) -> (r: CoreResult<Vec<u8>>)
    ensures
        r is Ok ==> r->Ok_0@.len() == len,
        r is Err ==> r->Err_0 is Entropy,
{
    let mut out = vec![0u8; len];
    match getrandom::fill(&mut out) {
        Ok(()) => Ok(out),
        Err(_) => Err(CoreError::Entropy("getrandom failed".to_owned())),
    }
}

/// Seals a record plaintext under the vault key with a fresh 12-byte nonce:
/// the nonce and the ciphertext it seals.
pub fn encrypt_vault_record(vault_key: &[u8], aad: &[u8], plaintext: &[u8]) -> (r: CoreResult<(Vec<u8>, Vec<u8>)>)
    ensures
        vault_key@.len() != 32 ==> r is Err,
        r is Ok ==> ({
            let (nonce, ct) = r->Ok_0;
            &&& nonce@.len() == 12
            &&& ct@ == aead_seal_of(vault_key@, nonce@, aad@, plaintext@)
            &&& ct@.len() == plaintext@.len() + 16
            &&& aead_open_of(vault_key@, nonce@, aad@, ct@) == Some(plaintext@)
        }),
        r is Err ==> r->Err_0 is Crypto || r->Err_0 is Entropy,
{
    let nonce = random_bytes(12)?;
    let ct = aead_encrypt(vault_key, aad, plaintext, nonce.as_slice())?;
    Ok((nonce, ct))
}

} // verus!
