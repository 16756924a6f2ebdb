//! The narrow interfaces the core consumes: durable storage, the clock,
//! the entropy source, and a device anchor. Hosts implement these.

use vstd::prelude::*;

verus! {

/// One page of listed entries and the cursor to continue from.
pub type ListSinceResult = (Vec<(String, Vec<u8>)>, String);

/// Synchronous durable storage. Errors are opaque text and are surfaced as
/// storage errors.
pub trait StorageAdapter {
    fn get(&mut self, namespace: &str, key: &str) -> Result<Option<Vec<u8>>, String>;

    fn put(&mut self, namespace: &str, key: &str, value: &[u8]) -> Result<(), String>;

    fn list_since(&mut self, namespace: &str, cursor: &str, limit: usize) -> Result<
        ListSinceResult,
        String,
    >;
}

/// The wall clock in milliseconds. Monotonicity is not assumed.
pub trait ClockAdapter {
    fn now_ms(&mut self) -> u64;
}

/// OS-quality entropy: every implementation must fill exactly the requested
/// number of bytes.
pub trait EntropyAdapter {
    fn random_bytes(&mut self, len: usize) -> (r: Vec<u8>)
        ensures
            r@.len() == len,
    ;
}

/// Host platform signals that may prompt a lock.
pub enum PlatformSignal {
    Idle,
    Blur,
}

/// A device-bound sealer for platforms that offer one.
pub trait DeviceAnchorAdapter {
    fn seal(&mut self, label: &str, aad: &[u8], plaintext: &[u8]) -> Result<Vec<u8>, String>;

    fn unseal(&mut self, label: &str, aad: &[u8], ciphertext: &[u8]) -> Result<Vec<u8>, String>;
}

} // verus!
