//! A human-readable naming registry over a content-addressed, versioned
//! record store.
//!
//! A registrant claims a unique long name, associates it with a messaging
//! keypair and a set of named services (each resolving to a storage
//! location), and later mutates that association under optimistic
//! concurrency control.  The network, file-storage and cryptographic
//! collaborators are external: this crate holds the registry logic itself,
//! which works on plain values that the caller exchanges with those
//! collaborators.

pub mod codec;
pub mod dns_operations;
pub mod errors;
pub mod keys;
pub mod locator;
pub mod storage;

use vstd::prelude::*;

verus! {

/// Fixed type discriminator under which every registry record is stored.
pub const DNS_TAG: u64 = 5;

} // verus!
