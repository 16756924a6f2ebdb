//! Client-side key service core: canonical codec, AAD builders, hybrid
//! ciphersuites, the hash-chained KeyVault ledger, session and handle
//! management, and the orchestrating key service.

pub mod aad;
pub mod cbor;
pub mod ciphersuite;
pub mod crypto;
pub mod adapters;
pub mod error;
pub mod formats;
pub mod hash;
pub mod key_service;
pub mod keyvault;
pub mod session;
pub mod shim;
pub mod types;

use vstd::prelude::*;

verus! {

} // verus!
