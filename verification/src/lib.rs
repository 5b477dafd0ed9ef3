//! Access-controlled key manager and encrypted key-value broker.
//!
//! The crate keeps a durable authorization table that says which principals
//! may read, write or administer a key namespace, mirrors it in a share
//! index for reverse lookup, and gates every operation of an encrypted
//! value store and of the vetKD key-derivation mediator on that table.

pub mod types;
pub mod stores;
pub mod key_manager;
pub mod encrypted_maps;
pub mod laws;
