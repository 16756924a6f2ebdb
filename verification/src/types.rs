//! Opaque identifiers and the closed set of ciphersuite tags.

use vstd::prelude::*;
use vstd::string::StringSliceAdditionalSpecFns;

verus! {

/// Whether two strings hold the same characters.
pub fn str_eq(a: &str, b: &str) -> (r: bool)
    ensures
        r == (a@ == b@),
{
    broadcast use vstd::utf8::encode_utf8_decode_utf8;

    let ab = a.as_bytes();
    let bb = b.as_bytes();
    if ab.len() != bb.len() {
        proof {
            assert(a@ != b@);
        }
        return false;
    }
    let n = ab.len();
    let mut i: usize = 0;
    while i < n
        invariant
            n == ab@.len() == bb@.len(),
            i <= n,
            ab@ == a.spec_bytes(),
            bb@ == b.spec_bytes(),
            forall|q: int| 0 <= q < i ==> ab@[q] == bb@[q],
        decreases n - i,
    {
        if ab[i] != bb[i] {
            proof {
                assert(a@ != b@);
            }
            return false;
        }
        i = i + 1;
    }
    proof {
        assert(ab@ =~= bb@);
        assert(vstd::utf8::encode_utf8(a@) == vstd::utf8::encode_utf8(b@));
        assert(vstd::utf8::decode_utf8(vstd::utf8::encode_utf8(a@)) == a@);
        assert(vstd::utf8::decode_utf8(vstd::utf8::encode_utf8(b@)) == b@);
    }
    true
}

/// Random session identifier, 16 bytes of entropy as lowercase hex.
#[derive(Debug)]
pub struct SessionId(pub String);

/// Opaque in-session token referring to a held key.
#[derive(Debug)]
pub struct KeyHandle(pub String);

#[derive(Debug)]
pub struct UserId(pub String);

#[derive(Debug)]
pub struct DeviceId(pub String);

#[derive(Debug)]
pub struct ScopeId(pub String);

#[derive(Debug)]
pub struct ResourceId(pub String);

/// Monotonic scope epoch.
#[derive(Clone, Copy, PartialEq, Eq, Structural, Debug)]
pub struct ScopeEpoch(pub u64);

#[derive(Debug)]
pub struct ResourceKeyId(pub String);

#[derive(Clone, Copy, PartialEq, Eq, Structural, Debug)]
pub enum SessionKind {
    Normal,
    StepUp,
}

#[derive(Clone, Copy, PartialEq, Eq, Structural, Debug)]
pub enum SessionAssurance {
    Passphrase,
    UserPresence,
}

/// The sole recognized AEAD: 256-bit key, 96-bit nonce, 128-bit tag.
#[derive(Clone, Copy, PartialEq, Eq, Structural, Debug)]
pub enum AeadId {
    Aead1,
}

/// The sole recognized hybrid KEM: X25519 combined with ML-KEM-768 via
/// HKDF-SHA-256.
#[derive(Clone, Copy, PartialEq, Eq, Structural, Debug)]
pub enum KemCiphersuiteId {
    HybridKem1,
}

/// The sole recognized hybrid signature: Ed25519 and ML-DSA-65, both of
/// which must verify.
#[derive(Clone, Copy, PartialEq, Eq, Structural, Debug)]
pub enum SigCiphersuiteId {
    HybridSig1,
}

impl Clone for SessionId {
    fn clone(&self) -> (r: Self)
        ensures
            r.0@ == self.0@,
    {
        SessionId(self.0.clone())
    }
}

impl Clone for KeyHandle {
    fn clone(&self) -> (r: Self)
        ensures
            r.0@ == self.0@,
    {
        KeyHandle(self.0.clone())
    }
}

impl Clone for UserId {
    fn clone(&self) -> (r: Self)
        ensures
            r.0@ == self.0@,
    {
        UserId(self.0.clone())
    }
}

impl Clone for DeviceId {
    fn clone(&self) -> (r: Self)
        ensures
            r.0@ == self.0@,
    {
        DeviceId(self.0.clone())
    }
}

impl Clone for ScopeId {
    fn clone(&self) -> (r: Self)
        ensures
            r.0@ == self.0@,
    {
        ScopeId(self.0.clone())
    }
}

impl Clone for ResourceId {
    fn clone(&self) -> (r: Self)
        ensures
            r.0@ == self.0@,
    {
        ResourceId(self.0.clone())
    }
}

impl Clone for ResourceKeyId {
    fn clone(&self) -> (r: Self)
        ensures
            r.0@ == self.0@,
    {
        ResourceKeyId(self.0.clone())
    }
}

impl AeadId {
    pub fn as_str(&self) -> (r: &'static str)
        ensures
            r@ == aead_id_tag(*self),
    {
        proof {
            reveal_strlit("aead-1");
        }
        match self {
            AeadId::Aead1 => "aead-1",
        }
    }
}

impl KemCiphersuiteId {
    pub fn as_str(&self) -> (r: &'static str)
        ensures
            r@ == kem_id_tag(*self),
    {
        proof {
            reveal_strlit("hybrid-kem-1");
        }
        match self {
            KemCiphersuiteId::HybridKem1 => "hybrid-kem-1",
        }
    }
}

impl SigCiphersuiteId {
    pub fn as_str(&self) -> (r: &'static str)
        ensures
            r@ == sig_id_tag(*self),
    {
        proof {
            reveal_strlit("hybrid-sig-1");
        }
        match self {
            SigCiphersuiteId::HybridSig1 => "hybrid-sig-1",
        }
    }
}

/// The wire tag of an AEAD suite.
pub open spec fn aead_id_tag(id: AeadId) -> Seq<char> {
    "aead-1"@
}

/// The wire tag of a hybrid KEM suite.
pub open spec fn kem_id_tag(id: KemCiphersuiteId) -> Seq<char> {
    "hybrid-kem-1"@
}

/// The wire tag of a hybrid signature suite.
pub open spec fn sig_id_tag(id: SigCiphersuiteId) -> Seq<char> {
    "hybrid-sig-1"@
}

} // verus!
