//! Hybrid suites: X25519 with ML-KEM-768 for key encapsulation, and
//! Ed25519 with ML-DSA-65 for signatures, where both components must
//! verify. Packing uses the canonical codec.

use ed25519_dalek::Verifier as EdVerifier;
use kem::{Decapsulate, KeyExport};
use signature::Signer as EdSigner;
use signature::Verifier as MlVerifier;
use vstd::prelude::*;
use vstd::utf8::encode_utf8;
use crate::cbor::{
    as_array, cbor_array, cbor_bytes, cbor_canon, cbor_enc, cbor_enc_list,
    decode_canonical_value, encode_canon_value, lemma_canon_list_build, view_list, CborLimits,
    CborVal, CborValue, clone_bytes, decode_spec,
};
use crate::crypto::{hkdf_sha256, hkdf_sha256_of, random_bytes};
use crate::error::{CoreError, CoreResult};
use crate::types::{KemCiphersuiteId, SigCiphersuiteId};

verus! {

/// The user's hybrid KEM keypair: the X25519 secret and public keys, the
/// ML-KEM-768 decapsulation seed and encapsulation key, and the canonical
/// public encoding.
pub struct HybridKemRecipient {
    pub x25519_secret: Vec<u8>,
    pub x25519_public: Vec<u8>,
    pub mlkem_decaps_bytes: Vec<u8>,
    pub mlkem_encaps_bytes: Vec<u8>,
    pub public_bytes: Vec<u8>,
}

/// The public half of a hybrid KEM keypair.
pub struct HybridKemRecipientPublic {
    pub x25519_public: Vec<u8>,
    pub mlkem_encaps_bytes: Vec<u8>,
}

/// A fresh encapsulation: the on-wire `enc` and the derived wrap key.
pub struct HybridKemEncap {
    pub enc: Vec<u8>,
    pub wrap_key: Vec<u8>,
}

/// A device's hybrid signing keypair: the Ed25519 seed and public key and
/// the ML-DSA-65 seed and public key.
pub struct HybridSignatureKeypair {
    pub ed25519_priv: Vec<u8>,
    pub ed25519_pub: Vec<u8>,
    pub mldsa_priv: Vec<u8>,
    pub mldsa_pub: Vec<u8>,
}

/// A trusted signer's public keys.
pub struct SignerKeys {
    pub sig_suite: SigCiphersuiteId,
    pub ed25519_pub: Vec<u8>,
    pub mldsa_pub: Vec<u8>,
}

impl Clone for SignerKeys {
    fn clone(&self) -> (r: Self)
        ensures
            r.sig_suite == self.sig_suite,
            r.ed25519_pub@ == self.ed25519_pub@,
            r.mldsa_pub@ == self.mldsa_pub@,
    {
        SignerKeys {
            sig_suite: self.sig_suite,
            ed25519_pub: clone_bytes(&self.ed25519_pub),
            mldsa_pub: clone_bytes(&self.mldsa_pub),
        }
    }
}

/// The canonical two-element array of byte strings used for packed
/// encapsulations, packed signatures, and user key encodings.
pub open spec fn two_bytes_val(a: Seq<u8>, b: Seq<u8>) -> CborVal {
    CborVal::Array(seq![CborVal::Bytes(a), CborVal::Bytes(b)])
}

/// Encodes a two-element array of byte strings.
fn encode_two_bytes(a: &[u8], b: &[u8]) -> (r: Vec<u8>)
    ensures
        r@ == cbor_enc(two_bytes_val(a@, b@)),
{
    let items = vec![cbor_bytes(a), cbor_bytes(b)];
    let ghost iv = items@;
    let value = cbor_array(items);
    proof {
        assert(view_list(iv) =~= seq![CborVal::Bytes(a@), CborVal::Bytes(b@)]);
        assert forall|i: int| 0 <= i < view_list(iv).len() implies cbor_canon(
            #[trigger] view_list(iv)[i],
        ) by {
        }
        lemma_canon_list_build(view_list(iv));
    }
    encode_canon_value(&value)
}

/// What a packed two-element array of byte strings decodes to under the
/// default limits, when it is exactly that shape.
pub open spec fn parse_two_bytes(bytes: Seq<u8>) -> Option<(Seq<u8>, Seq<u8>)> {
    match decode_spec(bytes, 0x100000, 64, 4096) {
        Some(v) => match v {
            CborVal::Array(items) => if items.len() == 2 && items[0] is Bytes
                && items[1] is Bytes {
                Some((items[0]->Bytes_0, items[1]->Bytes_0))
            } else {
                None
            },
            _ => None,
        },
        None => None,
    }
}

/// Decodes a packed two-element array of byte strings.
fn decode_two_bytes(bytes: &[u8]) -> (r: CoreResult<(Vec<u8>, Vec<u8>)>)
    ensures
        r is Ok <==> parse_two_bytes(bytes@) is Some,
        r is Ok ==> parse_two_bytes(bytes@) == Some((r->Ok_0.0@, r->Ok_0.1@)),
{
    let limits = CborLimits::standard();
    let value = match decode_canonical_value(bytes, &limits) {
        Ok(v) => v,
        Err(_) => {
            return Err(CoreError::Format("invalid packed array".to_owned()));
        },
    };
    let items = match as_array(&value) {
        Ok(items) => items,
        Err(_) => {
            return Err(CoreError::Format("invalid packed array".to_owned()));
        },
    };
    proof {
        crate::cbor::lemma_view_list(items@);
    }
    if items.len() != 2 {
        return Err(CoreError::Format("invalid packed array length".to_owned()));
    }
    proof {
        assert(view_list(items@)[0] == items@[0]@);
        assert(view_list(items@)[1] == items@[1]@);
    }
    let first = match &items[0] {
        CborValue::Bytes(b) => clone_bytes(b),
        _ => {
            return Err(CoreError::Format("invalid packed array element".to_owned()));
        },
    };
    let second = match &items[1] {
        CborValue::Bytes(b) => clone_bytes(b),
        _ => {
            return Err(CoreError::Format("invalid packed array element".to_owned()));
        },
    };
    Ok((first, second))
}


/// A packed two-element array of byte strings parses back to exactly its
/// two components under the default limits.
#[verifier::rlimit(60)]
pub proof fn lemma_parse_packed(a: Seq<u8>, b: Seq<u8>)
    requires
        a.len() <= 0x10000,
        b.len() <= 0x10000,
    ensures
        parse_two_bytes(cbor_enc(two_bytes_val(a, b))) == Some((a, b)),
{
    let items = seq![CborVal::Bytes(a), CborVal::Bytes(b)];
    let v = two_bytes_val(a, b);
    assert forall|i: int| 0 <= i < items.len() implies crate::cbor::cbor_canon(
        #[trigger] items[i],
    ) by {
    }
    crate::cbor::lemma_canon_list_build(items);
    assert forall|i: int| 0 <= i < items.len() implies crate::cbor::cbor_wf(
        #[trigger] items[i],
    ) by {
    }
    crate::cbor::lemma_wf_list_build(items);
    assert(crate::cbor::cbor_canon(v));
    assert(crate::cbor::cbor_wf(v));
    let e = cbor_enc(v);
    assert(crate::cbor::cbor_hdr(4, 2).len() == 1);
    assert(crate::cbor::cbor_hdr(2, a.len()).len() <= 5);
    assert(crate::cbor::cbor_hdr(2, b.len()).len() <= 5);
    let rest = seq![CborVal::Bytes(b)];
    assert(items[0] == CborVal::Bytes(a));
    assert(items.drop_first() =~= rest);
    assert(cbor_enc_list(items) == cbor_enc(CborVal::Bytes(a)) + cbor_enc_list(rest));
    assert(rest[0] == CborVal::Bytes(b));
    assert(rest.drop_first() =~= Seq::<CborVal>::empty());
    assert(cbor_enc_list(rest.drop_first()).len() == 0);
    assert(cbor_enc_list(rest) == cbor_enc(CborVal::Bytes(b)) + cbor_enc_list(rest.drop_first()));
    assert(cbor_enc(CborVal::Bytes(a)).len() <= a.len() + 5);
    assert(cbor_enc(CborVal::Bytes(b)).len() <= b.len() + 5);
    assert(e.len() <= 0x100000);
    assert(e.subrange(0, e.len() as int) =~= e);
    crate::cbor::lemma_dec_complete(v, e, 0);
    assert(crate::cbor::within_limits(v, 0, 64, 4096)) by {
        assert(crate::cbor::limits_list(rest.drop_first(), 1, 64, 4096));
        assert(crate::cbor::within_limits(rest[0], 1, 64, 4096));
        assert(crate::cbor::limits_list(rest, 1, 64, 4096));
        assert(items.drop_first() == rest);
        assert(crate::cbor::within_limits(items[0], 1, 64, 4096));
        assert(crate::cbor::limits_list(items, 1, 64, 4096));
    }
    assert(decode_spec(e, 0x100000, 64, 4096) == Some(v));
    assert(v->Array_0[0] == CborVal::Bytes(a));
    assert(v->Array_0[1] == CborVal::Bytes(b));
}

/// The X25519 public key of a secret key: a function of the secret alone.
pub uninterp spec fn x25519_pub_of(secret: Seq<u8>) -> Seq<u8>;

/// Relies on x25519_dalek's `PublicKey::from(&StaticSecret)`: the public
/// key is 32 bytes and depends on the 32-byte secret alone (the secret is
/// clamped internally).
#[verifier::external_body]
fn x25519_public_key(secret: &Vec<u8>) -> (r: Vec<u8>)
    requires
        secret@.len() == 32,
    ensures
        r@ == x25519_pub_of(secret@) && r@.len() == 32,
{
    let mut seed = [0u8; 32];
    seed.copy_from_slice(secret);
    let s = x25519_dalek::StaticSecret::from(seed);
    let p = x25519_dalek::PublicKey::from(&s);
    p.to_bytes().to_vec()
}

/// The X25519 shared secret of a secret key and a peer public key: a
/// function of the two alone.
pub uninterp spec fn x25519_shared_of(secret: Seq<u8>, peer_public: Seq<u8>) -> Seq<u8>;

/// Relies on x25519_dalek's `StaticSecret::diffie_hellman`: the shared
/// secret is 32 bytes and depends on the secret and the peer public key
/// alone; and the X25519 function is a Diffie-Hellman exchange, so both
/// sides of a key pair agree (RFC 7748).
#[verifier::external_body]
fn x25519_diffie_hellman(secret: &Vec<u8>, peer_public: &Vec<u8>) -> (r: Vec<u8>)
    requires
        secret@.len() == 32,
        peer_public@.len() == 32,
    ensures
        r@ == x25519_shared_of(secret@, peer_public@) && r@.len() == 32,
        forall|peer_secret: Seq<u8>|
            peer_public@ == #[trigger] x25519_pub_of(peer_secret) ==> r@ == x25519_shared_of(
                peer_secret,
                x25519_pub_of(secret@),
            ),
{
    let mut seed = [0u8; 32];
    seed.copy_from_slice(secret);
    let mut peer = [0u8; 32];
    peer.copy_from_slice(peer_public);
    let s = x25519_dalek::StaticSecret::from(seed);
    let shared = s.diffie_hellman(&x25519_dalek::PublicKey::from(peer));
    shared.as_bytes().to_vec()
}

/// The encoded ML-KEM-768 encapsulation key of a 64-byte seed: a function
/// of the seed alone.
pub uninterp spec fn mlkem_ek_of(seed: Seq<u8>) -> Seq<u8>;

/// Relies on ml_kem's `DecapsulationKey::from_seed` and the key export of
/// its encapsulation half: the 1184-byte encoded encapsulation key depends
/// on the 64-byte seed alone.
#[verifier::external_body]
fn mlkem768_encaps_key(seed: &Vec<u8>) -> (r: Vec<u8>)
    requires
        seed@.len() == 64,
    ensures
        r@ == mlkem_ek_of(seed@) && r@.len() == 1184,
{
    let mut s = ml_kem::Seed::default();
    s.copy_from_slice(seed);
    let dk = ml_kem::DecapsulationKey::<ml_kem::MlKem768>::from_seed(s);
    dk.encapsulation_key().to_bytes().to_vec()
}

/// The ML-KEM-768 ciphertext produced for an encapsulation key and the
/// 32-byte encapsulation randomness: a function of the two alone.
pub uninterp spec fn mlkem_ct_of(ek: Seq<u8>, m: Seq<u8>) -> Seq<u8>;

/// The ML-KEM-768 shared secret produced for an encapsulation key and the
/// 32-byte encapsulation randomness: a function of the two alone.
pub uninterp spec fn mlkem_ss_of(ek: Seq<u8>, m: Seq<u8>) -> Seq<u8>;

/// Whether 1184 bytes form a valid encoded ML-KEM-768 encapsulation key.
pub uninterp spec fn mlkem_ek_valid(ek: Seq<u8>) -> bool;

/// Relies on ml_kem's `EncapsulationKey::new` and
/// `encapsulate_deterministic`: key validity, the 1088-byte ciphertext, and
/// the 32-byte shared secret depend on the encoded key and the randomness
/// alone; and decapsulating a fresh ciphertext under the decapsulation key
/// whose seed produced this encapsulation key recovers the same shared
/// secret (FIPS 203 correctness).
#[verifier::external_body]
fn mlkem768_encapsulate(ek: &Vec<u8>, m: &Vec<u8>) -> (r: CoreResult<(Vec<u8>, Vec<u8>)>)
    requires
        ek@.len() == 1184,
        m@.len() == 32,
    ensures
        r is Ok <==> mlkem_ek_valid(ek@),
        r is Ok ==> r->Ok_0.0@ == mlkem_ct_of(ek@, m@) && r->Ok_0.0@.len() == 1088
            && r->Ok_0.1@ == mlkem_ss_of(ek@, m@) && r->Ok_0.1@.len() == 32,
        r is Ok ==> forall|seed: Seq<u8>|
            #[trigger] mlkem_ek_of(seed) == ek@ ==> mlkem_decap_of(seed, r->Ok_0.0@)
                == r->Ok_0.1@,
        r is Err ==> r->Err_0 is Crypto,
{
    let mut key = kem::Key::<ml_kem::EncapsulationKey<ml_kem::MlKem768>>::default();
    key.copy_from_slice(ek);
    let ekey = match ml_kem::EncapsulationKey::<ml_kem::MlKem768>::new(&key) {
        Ok(k) => k,
        Err(_) => return Err(CoreError::Crypto("mlkem encaps key invalid".to_owned())),
    };
    let mut rand = ml_kem::B32::default();
    rand.copy_from_slice(m);
    let (ct, ss) = ekey.encapsulate_deterministic(&rand);
    Ok((ct.to_vec(), ss.to_vec()))
}

/// The ML-KEM-768 shared secret recovered from a ciphertext under the
/// decapsulation key of a 64-byte seed: a function of the two alone
/// (implicit rejection makes decapsulation total).
pub uninterp spec fn mlkem_decap_of(seed: Seq<u8>, ct: Seq<u8>) -> Seq<u8>;

/// Relies on ml_kem's `DecapsulationKey::from_seed` and `decapsulate`: the
/// 32-byte shared secret depends on the seed and the 1088-byte ciphertext
/// alone.
#[verifier::external_body]
fn mlkem768_decapsulate(seed: &Vec<u8>, ct: &Vec<u8>) -> (r: Vec<u8>)
    requires
        seed@.len() == 64,
        ct@.len() == 1088,
    ensures
        r@ == mlkem_decap_of(seed@, ct@) && r@.len() == 32,
{
    let mut s = ml_kem::Seed::default();
    s.copy_from_slice(seed);
    let dk = ml_kem::DecapsulationKey::<ml_kem::MlKem768>::from_seed(s);
    let mut c = kem::Ciphertext::<ml_kem::MlKem768>::default();
    c.copy_from_slice(ct);
    dk.decapsulate(&c).to_vec()
}

/// The Ed25519 public key of a 32-byte seed: a function of the seed alone.
pub uninterp spec fn ed25519_pub_of(seed: Seq<u8>) -> Seq<u8>;

/// Relies on ed25519_dalek's `SigningKey::from_bytes` and `verifying_key`:
/// the 32-byte public key depends on the 32-byte seed alone.
#[verifier::external_body]
fn ed25519_public_key(seed: &Vec<u8>) -> (r: Vec<u8>)
    requires
        seed@.len() == 32,
    ensures
        r@ == ed25519_pub_of(seed@) && r@.len() == 32,
{
    let mut s = [0u8; 32];
    s.copy_from_slice(seed);
    let sk = ed25519_dalek::SigningKey::from_bytes(&s);
    sk.verifying_key().to_bytes().to_vec()
}

/// The Ed25519 signature of a message under a 32-byte seed: deterministic
/// per RFC 8032, a function of seed and message alone.
pub uninterp spec fn ed25519_sig_of(seed: Seq<u8>, msg: Seq<u8>) -> Seq<u8>;

/// Relies on ed25519_dalek's `SigningKey::sign`: the 64-byte signature is
/// deterministic in the seed and message (RFC 8032), and `verify_strict`
/// accepts an honestly produced signature under the seed's public key.
#[verifier::external_body]
fn ed25519_sign(seed: &Vec<u8>, msg: &[u8]) -> (r: Vec<u8>)
    requires
        seed@.len() == 32,
    ensures
        r@ == ed25519_sig_of(seed@, msg@) && r@.len() == 64,
        ed25519_ok(ed25519_pub_of(seed@), msg@, r@),
{
    let mut s = [0u8; 32];
    s.copy_from_slice(seed);
    let sk = ed25519_dalek::SigningKey::from_bytes(&s);
    sk.sign(msg).to_bytes().to_vec()
}

/// Whether a 64-byte signature verifies strictly under a 32-byte Ed25519
/// public key for a message: a function of the three alone, false when the
/// public key fails to decode.
pub uninterp spec fn ed25519_ok(pubkey: Seq<u8>, msg: Seq<u8>, sig: Seq<u8>) -> bool;

/// Relies on ed25519_dalek's `VerifyingKey::from_bytes` and
/// `verify_strict`: acceptance depends on the public key, message, and
/// signature alone.
#[verifier::external_body]
fn ed25519_verify(pubkey: &Vec<u8>, msg: &[u8], sig: &Vec<u8>) -> (r: bool)
    requires
        pubkey@.len() == 32,
        sig@.len() == 64,
    ensures
        r == ed25519_ok(pubkey@, msg@, sig@),
{
    let mut p = [0u8; 32];
    p.copy_from_slice(pubkey);
    let vk = match ed25519_dalek::VerifyingKey::from_bytes(&p) {
        Ok(k) => k,
        Err(_) => return false,
    };
    let mut sg = [0u8; 64];
    sg.copy_from_slice(sig);
    let signature = ed25519_dalek::Signature::from_bytes(&sg);
    vk.verify_strict(msg, &signature).is_ok()
}

/// The encoded ML-DSA-65 verifying key of a 32-byte seed: a function of the
/// seed alone.
pub uninterp spec fn mldsa_pub_of(seed: Seq<u8>) -> Seq<u8>;

/// Relies on ml_dsa's `SigningKey::from_seed` and the verifying key's
/// encoding: the 1952-byte public key depends on the 32-byte seed alone.
#[verifier::external_body]
fn mldsa65_public_key(seed: &Vec<u8>) -> (r: Vec<u8>)
    requires
        seed@.len() == 32,
    ensures
        r@ == mldsa_pub_of(seed@) && r@.len() == 1952,
{
    let mut s = ml_dsa::Seed::default();
    s.copy_from_slice(seed);
    let sk = ml_dsa::SigningKey::<ml_dsa::MlDsa65>::from_seed(&s);
    sk.expanded_key().verifying_key().encode().to_vec()
}

/// The ML-DSA-65 signature of a message under a 32-byte seed, in the
/// deterministic variant with an empty context: a function of seed and
/// message alone.
pub uninterp spec fn mldsa_sig_of(seed: Seq<u8>, msg: Seq<u8>) -> Seq<u8>;

/// Relies on ml_dsa's `SigningKey::try_sign`, which uses the deterministic
/// ML-DSA variant with an empty context: it never fails for an empty
/// context, the 3309-byte signature depends on the seed and message alone,
/// and `verify` accepts an honestly produced signature under the seed's
/// verifying key (FIPS 204 correctness).
#[verifier::external_body]
fn mldsa65_sign(seed: &Vec<u8>, msg: &[u8]) -> (r: CoreResult<Vec<u8>>)
    requires
        seed@.len() == 32,
    ensures
        r is Ok,
        r is Ok ==> r->Ok_0@ == mldsa_sig_of(seed@, msg@) && r->Ok_0@.len() == 3309,
        r is Ok ==> mldsa_ok(mldsa_pub_of(seed@), msg@, r->Ok_0@),
{
    let mut s = ml_dsa::Seed::default();
    s.copy_from_slice(seed);
    let sk = ml_dsa::SigningKey::<ml_dsa::MlDsa65>::from_seed(&s);
    match sk.try_sign(msg) {
        Ok(sig) => Ok(sig.encode().to_vec()),
        Err(_) => Err(CoreError::Crypto("mldsa sign failed".to_owned())),
    }
}

/// Whether a 3309-byte signature verifies under a 1952-byte encoded
/// ML-DSA-65 verifying key for a message: a function of the three alone,
/// false when the signature fails to decode.
pub uninterp spec fn mldsa_ok(pubkey: Seq<u8>, msg: Seq<u8>, sig: Seq<u8>) -> bool;

/// Relies on ml_dsa's `VerifyingKey::decode`, `Signature::decode`, and
/// `verify`: acceptance depends on the public key, message, and signature
/// alone.
#[verifier::external_body]
fn mldsa65_verify(pubkey: &Vec<u8>, msg: &[u8], sig: &Vec<u8>) -> (r: bool)
    requires
        pubkey@.len() == 1952,
        sig@.len() == 3309,
    ensures
        r == mldsa_ok(pubkey@, msg@, sig@),
{
    let mut p = ml_dsa::EncodedVerifyingKey::<ml_dsa::MlDsa65>::default();
    p.copy_from_slice(pubkey);
    let vk = ml_dsa::VerifyingKey::<ml_dsa::MlDsa65>::decode(&p);
    let mut sg = ml_dsa::EncodedSignature::<ml_dsa::MlDsa65>::default();
    sg.copy_from_slice(sig);
    let signature = match ml_dsa::Signature::<ml_dsa::MlDsa65>::decode(&sg) {
        Some(s) => s,
        None => return false,
    };
    vk.verify(msg, &signature).is_ok()
}

/// A recipient whose stored key material has the right lengths and whose
/// public parts match its secrets.
pub open spec fn recipient_wf(r: HybridKemRecipient) -> bool {
    &&& r.x25519_secret@.len() == 32
    &&& r.x25519_public@.len() == 32
    &&& r.mlkem_decaps_bytes@.len() == 64
}

/// Generates a fresh user hybrid KEM keypair: the recipient and its
/// canonical private encoding. The public and private encodings are the
/// canonical two-element arrays of the component keys.
pub fn generate_user_keypair() -> (r: CoreResult<(HybridKemRecipient, Vec<u8>)>)
    ensures
        r is Ok ==> ({
            let (rec, priv_bytes) = r->Ok_0;
            &&& recipient_wf(rec)
            &&& rec.x25519_public@ == x25519_pub_of(rec.x25519_secret@)
            &&& rec.mlkem_encaps_bytes@ == mlkem_ek_of(rec.mlkem_decaps_bytes@)
            &&& rec.public_bytes@ == cbor_enc(
                two_bytes_val(rec.x25519_public@, rec.mlkem_encaps_bytes@),
            )
            &&& priv_bytes@ == cbor_enc(
                two_bytes_val(rec.x25519_secret@, rec.mlkem_decaps_bytes@),
            )
        }),
        r is Err ==> r->Err_0 is Entropy,
{
    let x_secret = random_bytes(32)?;
    let mlkem_seed = random_bytes(64)?;
    let x_public = x25519_public_key(&x_secret);
    let ek = mlkem768_encaps_key(&mlkem_seed);
    let public_bytes = encode_two_bytes(x_public.as_slice(), ek.as_slice());
    let private_bytes = encode_two_bytes(x_secret.as_slice(), mlkem_seed.as_slice());
    let recipient = HybridKemRecipient {
        x25519_secret: x_secret,
        x25519_public: x_public,
        mlkem_decaps_bytes: mlkem_seed,
        mlkem_encaps_bytes: ek,
        public_bytes,
    };
    Ok((recipient, private_bytes))
}

/// The public half of a recipient.
pub fn user_keypair_public(recipient: &HybridKemRecipient) -> (r: HybridKemRecipientPublic)
    ensures
        r.x25519_public@ == recipient.x25519_public@,
        r.mlkem_encaps_bytes@ == recipient.mlkem_encaps_bytes@,
{
    HybridKemRecipientPublic {
        x25519_public: clone_bytes(&recipient.x25519_public),
        mlkem_encaps_bytes: clone_bytes(&recipient.mlkem_encaps_bytes),
    }
}

/// Generates a fresh device hybrid signing keypair.
pub fn generate_device_signing_keypair() -> (r: CoreResult<HybridSignatureKeypair>)
    ensures
        r is Ok ==> ({
            let kp = r->Ok_0;
            &&& kp.ed25519_priv@.len() == 32
            &&& kp.ed25519_pub@ == ed25519_pub_of(kp.ed25519_priv@)
            &&& kp.ed25519_pub@.len() == 32
            &&& kp.mldsa_priv@.len() == 32
            &&& kp.mldsa_pub@ == mldsa_pub_of(kp.mldsa_priv@)
            &&& kp.mldsa_pub@.len() == 1952
        }),
        r is Err ==> r->Err_0 is Entropy,
{
    let ed_seed = random_bytes(32)?;
    let ml_seed = random_bytes(32)?;
    let ed_pub = ed25519_public_key(&ed_seed);
    let ml_pub = mldsa65_public_key(&ml_seed);
    Ok(
        HybridSignatureKeypair {
            ed25519_priv: ed_seed,
            ed25519_pub: ed_pub,
            mldsa_priv: ml_seed,
            mldsa_pub: ml_pub,
        },
    )
}

/// The HKDF info string that domain-separates envelope wrap keys.
pub open spec fn kem_wrap_info() -> Seq<u8> {
    encode_utf8("mo-key-envelope|hybrid-kem-1"@)
}

/// Packs an encapsulation as the canonical array of the X25519 ephemeral
/// public key and the ML-KEM ciphertext.
pub fn pack_hybrid_kem_enc(x25519_pub: &[u8], mlkem_ct: &[u8]) -> (r: CoreResult<Vec<u8>>)
    ensures
        r is Ok,
        r is Ok ==> r->Ok_0@ == cbor_enc(two_bytes_val(x25519_pub@, mlkem_ct@)),
{
    Ok(encode_two_bytes(x25519_pub, mlkem_ct))
}

/// Unpacks an encapsulation: the 32-byte X25519 ephemeral public key and
/// the ML-KEM ciphertext.
pub fn unpack_hybrid_kem_enc(bytes: &[u8]) -> (r: CoreResult<(Vec<u8>, Vec<u8>)>)
    ensures
        r is Ok <==> (parse_two_bytes(bytes@) matches Some((a, b)) && a.len() == 32),
        r is Ok ==> parse_two_bytes(bytes@) == Some((r->Ok_0.0@, r->Ok_0.1@)) && r->Ok_0.0@.len()
            == 32,
{
    let (a, b) = decode_two_bytes(bytes)?;
    if a.len() != 32 {
        return Err(CoreError::Format("invalid x25519 public size".to_owned()));
    }
    Ok((a, b))
}

/// Packs the two component signatures as a canonical array.
pub fn pack_hybrid_signature(ed_sig: &[u8], mldsa_sig: &[u8]) -> (r: CoreResult<Vec<u8>>)
    ensures
        r is Ok,
        r is Ok ==> r->Ok_0@ == cbor_enc(two_bytes_val(ed_sig@, mldsa_sig@)),
{
    Ok(encode_two_bytes(ed_sig, mldsa_sig))
}

/// Unpacks a packed hybrid signature into its two components.
pub fn unpack_hybrid_signature(bytes: &[u8]) -> (r: CoreResult<(Vec<u8>, Vec<u8>)>)
    ensures
        r is Ok <==> parse_two_bytes(bytes@) is Some,
        r is Ok ==> parse_two_bytes(bytes@) == Some((r->Ok_0.0@, r->Ok_0.1@)),
{
    decode_two_bytes(bytes)
}

/// Encodes a user public key as the canonical array of the X25519 public
/// key and the ML-KEM encapsulation key.
pub fn encode_user_public_bytes(x25519_pub: &[u8], mlkem_encaps: &[u8]) -> (r: CoreResult<Vec<u8>>)
    ensures
        r is Ok,
        r is Ok ==> r->Ok_0@ == cbor_enc(two_bytes_val(x25519_pub@, mlkem_encaps@)),
{
    Ok(encode_two_bytes(x25519_pub, mlkem_encaps))
}

/// Decodes a user public key.
pub fn decode_user_public_bytes(bytes: &[u8]) -> (r: CoreResult<HybridKemRecipientPublic>)
    ensures
        r is Ok <==> (parse_two_bytes(bytes@) matches Some((a, b)) && a.len() == 32),
        r is Ok ==> parse_two_bytes(bytes@) == Some(
            (r->Ok_0.x25519_public@, r->Ok_0.mlkem_encaps_bytes@),
        ) && r->Ok_0.x25519_public@.len() == 32,
{
    let (a, b) = decode_two_bytes(bytes)?;
    if a.len() != 32 {
        return Err(CoreError::Format("invalid x25519 public size".to_owned()));
    }
    Ok(HybridKemRecipientPublic { x25519_public: a, mlkem_encaps_bytes: b })
}

/// Encodes a user private key as the canonical array of the X25519 secret
/// and the ML-KEM decapsulation seed.
pub fn encode_user_private_bytes(x25519_priv: &[u8], mlkem_decaps: &[u8]) -> (r: CoreResult<
    Vec<u8>,
>)
    ensures
        r is Ok,
        r is Ok ==> r->Ok_0@ == cbor_enc(two_bytes_val(x25519_priv@, mlkem_decaps@)),
{
    Ok(encode_two_bytes(x25519_priv, mlkem_decaps))
}

/// Decodes a user keypair from its private and public encodings. The
/// private part must be the canonical array of a 32-byte X25519 secret and
/// a 64-byte ML-KEM seed, and the public part the matching public array.
pub fn decode_user_keypair(uk_priv: &[u8], uk_pub: &[u8]) -> (r: CoreResult<HybridKemRecipient>)
    ensures
        r is Ok ==> ({
            let rec = r->Ok_0;
            &&& recipient_wf(rec)
            &&& parse_two_bytes(uk_priv@) == Some((rec.x25519_secret@, rec.mlkem_decaps_bytes@))
            &&& parse_two_bytes(uk_pub@) == Some((rec.x25519_public@, rec.mlkem_encaps_bytes@))
            &&& rec.public_bytes@ == uk_pub@
        }),
        r is Ok <==> (parse_two_bytes(uk_priv@) matches Some((s, d)) && s.len() == 32 && d.len()
            == 64 && (parse_two_bytes(uk_pub@) matches Some((p, e)) && p.len() == 32)),
{
    let pub_parts = decode_user_public_bytes(uk_pub)?;
    let (x_secret, ml_seed) = decode_two_bytes(uk_priv)?;
    if x_secret.len() != 32 {
        return Err(CoreError::Format("invalid x25519 secret size".to_owned()));
    }
    if ml_seed.len() != 64 {
        return Err(CoreError::Format("invalid mlkem seed size".to_owned()));
    }
    Ok(
        HybridKemRecipient {
            x25519_secret: x_secret,
            x25519_public: pub_parts.x25519_public,
            mlkem_decaps_bytes: ml_seed,
            mlkem_encaps_bytes: pub_parts.mlkem_encaps_bytes,
            public_bytes: crate::cbor::slice_to_vec(uk_pub, 0, uk_pub.len()),
        },
    )
}

/// Encapsulates a fresh wrap key to a recipient: X25519 and ML-KEM shared
/// secrets are concatenated and run through HKDF-SHA-256. Only
/// `hybrid-kem-1` is recognized.
pub fn hybrid_kem_encapsulate(recipient: &HybridKemRecipientPublic, kem: KemCiphersuiteId) -> (r:
    CoreResult<HybridKemEncap>)
    requires
        recipient.x25519_public@.len() == 32,
        recipient.mlkem_encaps_bytes@.len() == 1184,
    ensures
        r is Ok ==> ({
            let out = r->Ok_0;
            &&& out.wrap_key@.len() == 32
            &&& exists|eph: Seq<u8>, m: Seq<u8>|
                out.enc@ == cbor_enc(
                    two_bytes_val(
                        #[trigger] x25519_pub_of(eph),
                        #[trigger] mlkem_ct_of(recipient.mlkem_encaps_bytes@, m),
                    ),
                ) && out.wrap_key@ == hkdf_sha256_of(
                    x25519_shared_of(eph, recipient.x25519_public@) + mlkem_ss_of(
                        recipient.mlkem_encaps_bytes@,
                        m,
                    ),
                    kem_wrap_info(),
                    32,
                ) && (forall|rs: Seq<u8>|
                    recipient.x25519_public@ == #[trigger] x25519_pub_of(rs)
                        ==> x25519_shared_of(eph, recipient.x25519_public@) == x25519_shared_of(
                        rs,
                        x25519_pub_of(eph),
                    )) && (forall|seed: Seq<u8>|
                    #[trigger] mlkem_ek_of(seed) == recipient.mlkem_encaps_bytes@
                        ==> mlkem_decap_of(seed, mlkem_ct_of(recipient.mlkem_encaps_bytes@, m))
                        == mlkem_ss_of(recipient.mlkem_encaps_bytes@, m))
        }),
        !mlkem_ek_valid(recipient.mlkem_encaps_bytes@) ==> r is Err,
{
    if kem != KemCiphersuiteId::HybridKem1 {
        return Err(CoreError::Crypto("unsupported kem".to_owned()));
    }
    let eph_secret = random_bytes(32)?;
    let m = random_bytes(32)?;
    let eph_public = x25519_public_key(&eph_secret);
    let x_shared = x25519_diffie_hellman(&eph_secret, &recipient.x25519_public);
    let (ct, ml_shared) = mlkem768_encapsulate(&recipient.mlkem_encaps_bytes, &m)?;
    let mut ikm = x_shared;
    let ghost xs = ikm@;
    crate::cbor::push_bytes(&mut ikm, ml_shared.as_slice());
    let info = "mo-key-envelope|hybrid-kem-1";
    let wrap_key = hkdf_sha256(ikm.as_slice(), info.as_bytes(), 32)?;
    let enc = encode_two_bytes(eph_public.as_slice(), ct.as_slice());
    proof {
        assert(ikm@ == x25519_shared_of(eph_secret@, recipient.x25519_public@) + mlkem_ss_of(
            recipient.mlkem_encaps_bytes@,
            m@,
        ));
    }
    Ok(HybridKemEncap { enc, wrap_key })
}

/// Recovers the wrap key from an encapsulation addressed to this recipient:
/// the mirror of encapsulation. Only `hybrid-kem-1` is recognized.
pub fn derive_hybrid_kem_wrap_key(
    enc: &[u8],
    recipient: &HybridKemRecipient,
    kem: KemCiphersuiteId,
) -> (r: CoreResult<Vec<u8>>)
    requires
        recipient_wf(*recipient),
    ensures
        r is Ok <==> (parse_two_bytes(enc@) matches Some((eph, ct)) && eph.len() == 32 && ct.len()
            == 1088),
        r is Ok ==> ({
            let (eph, ct) = parse_two_bytes(enc@)->Some_0;
            r->Ok_0@ == hkdf_sha256_of(
                x25519_shared_of(recipient.x25519_secret@, eph) + mlkem_decap_of(
                    recipient.mlkem_decaps_bytes@,
                    ct,
                ),
                kem_wrap_info(),
                32,
            ) && r->Ok_0@.len() == 32
        }),
{
    if kem != KemCiphersuiteId::HybridKem1 {
        return Err(CoreError::Crypto("unsupported kem".to_owned()));
    }
    let (eph, ct) = unpack_hybrid_kem_enc(enc)?;
    if ct.len() != 1088 {
        return Err(CoreError::Format("invalid mlkem ciphertext size".to_owned()));
    }
    let x_shared = x25519_diffie_hellman(&recipient.x25519_secret, &eph);
    let ml_shared = mlkem768_decapsulate(&recipient.mlkem_decaps_bytes, &ct);
    let mut ikm = x_shared;
    crate::cbor::push_bytes(&mut ikm, ml_shared.as_slice());
    let info = "mo-key-envelope|hybrid-kem-1";
    let wrap_key = hkdf_sha256(ikm.as_slice(), info.as_bytes(), 32)?;
    Ok(wrap_key)
}

/// Whether a packed hybrid signature verifies for the claimed data and
/// signer keys: the packed form must parse, the components must have the
/// right lengths, and both the Ed25519 and the ML-DSA-65 component must
/// verify.
pub open spec fn hybrid_sig_ok(
    data: Seq<u8>,
    signature: Seq<u8>,
    suite: SigCiphersuiteId,
    ed_pub: Seq<u8>,
    ml_pub: Seq<u8>,
) -> bool {
    match parse_two_bytes(signature) {
        Some((ed_sig, ml_sig)) => ed_pub.len() == 32 && ed_sig.len() == 64 && ml_pub.len() == 1952
            && ml_sig.len() == 3309 && ed25519_ok(ed_pub, data, ed_sig) && mldsa_ok(
            ml_pub,
            data,
            ml_sig,
        ),
        None => false,
    }
}

/// Signs data with both components and packs the two signatures. The
/// keypair's seeds must be 32 bytes each; a packed signature produced here
/// verifies under the seeds' public keys.
pub fn hybrid_sign(data: &[u8], keypair: &HybridSignatureKeypair) -> (r: CoreResult<Vec<u8>>)
    ensures
        r is Ok <==> (keypair.ed25519_priv@.len() == 32 && keypair.mldsa_priv@.len() == 32),
        r is Ok ==> r->Ok_0@ == cbor_enc(
            two_bytes_val(
                ed25519_sig_of(keypair.ed25519_priv@, data@),
                mldsa_sig_of(keypair.mldsa_priv@, data@),
            ),
        ),
        r is Ok && keypair.ed25519_pub@ == ed25519_pub_of(keypair.ed25519_priv@)
            && keypair.ed25519_pub@.len() == 32 && keypair.mldsa_pub@ == mldsa_pub_of(
            keypair.mldsa_priv@,
        ) && keypair.mldsa_pub@.len() == 1952 ==> hybrid_sig_ok(
            data@,
            r->Ok_0@,
            SigCiphersuiteId::HybridSig1,
            keypair.ed25519_pub@,
            keypair.mldsa_pub@,
        ),
        r is Err ==> r->Err_0 is Crypto,
{
    if keypair.ed25519_priv.len() != 32 {
        return Err(CoreError::Crypto("ed25519 priv size".to_owned()));
    }
    if keypair.mldsa_priv.len() != 32 {
        return Err(CoreError::Crypto("mldsa priv size".to_owned()));
    }
    let ed_sig = ed25519_sign(&keypair.ed25519_priv, data);
    let ml_sig = match mldsa65_sign(&keypair.mldsa_priv, data) {
        Ok(s) => s,
        Err(e) => {
            return Err(e);
        },
    };
    let packed = encode_two_bytes(ed_sig.as_slice(), ml_sig.as_slice());
    proof {
        lemma_parse_packed(ed_sig@, ml_sig@);
    }
    Ok(packed)
}

/// Verifies a packed hybrid signature: true exactly when the suite is
/// `hybrid-sig-1` and both component signatures verify under the signer's
/// keys. Structural faults yield false, never an error.
pub fn hybrid_verify(data: &[u8], signature: &[u8], signer: &SignerKeys) -> (r: bool)
    ensures
        r == (signer.sig_suite is HybridSig1 && hybrid_sig_ok(
            data@,
            signature@,
            signer.sig_suite,
            signer.ed25519_pub@,
            signer.mldsa_pub@,
        )),
{
    if signer.sig_suite != SigCiphersuiteId::HybridSig1 {
        return false;
    }
    let parsed = unpack_hybrid_signature(signature);
    let (ed_sig, ml_sig) = match parsed {
        Ok(p) => p,
        Err(_) => {
            return false;
        },
    };
    if signer.ed25519_pub.len() != 32 || ed_sig.len() != 64 {
        return false;
    }
    if signer.mldsa_pub.len() != 1952 || ml_sig.len() != 3309 {
        return false;
    }
    let ed_ok_now = ed25519_verify(&signer.ed25519_pub, data, &ed_sig);
    let ml_ok_now = mldsa65_verify(&signer.mldsa_pub, data, &ml_sig);
    ed_ok_now && ml_ok_now
}

} // verus!
