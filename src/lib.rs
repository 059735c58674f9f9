//! A local, single-user encrypted credential store.
//!
//! The library holds the verified core: the locked/unlocked vault engine, the
//! byte format of entries and envelopes, the key-derivation and authenticated
//! cipher adapter, the decisions of the crash-safe save protocol, and the
//! parsing and completion of command lines.

pub mod errors;
pub mod entry;
pub mod vault_state;
pub mod codec;
pub mod crypto;
pub mod storage;
pub mod engine;
pub mod command;
pub mod cli;
