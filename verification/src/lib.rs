//! Validation and coordination core of a registry that publishes its contents
//! as signed, append-only logs.
//!
//! The crate is organised leaves first: hashes and identifiers, the canonical
//! record encoding, signed envelopes, the per-log validator, the in-memory data
//! store, the single-writer core service and the client's pending publish.

pub mod table;
pub mod hash;
pub mod record;
pub mod codec;
pub mod wire;
pub mod envelope;
pub mod state;
pub mod validator;
pub mod text;
pub mod checkpoint;
pub mod log;
pub mod store;
pub mod service;
pub mod publish;
pub mod validation;
