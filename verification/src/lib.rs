//! Storage-proof verification and prover-job bookkeeping for an Ethereum
//! light-client bridge.
//!
//! `mpt` verifies a contract's account record and storage slots against an
//! execution state root and lays the verified slots out as field elements;
//! `merkle` folds them into one root, the sponge hash being the caller's;
//! `event_loop` keeps the table of prover jobs and says what each message to
//! the loop leads to; `golem` prepares proof bundles for the entity store.
//! `field` holds the field elements, `trie_proof` the check of trie proofs,
//! `ethereum` the calls into the `alloy` crates, `text` the building of
//! messages.

pub mod ethereum;
pub mod event_loop;
pub mod field;
pub mod golem;
pub mod merkle;
pub mod mpt;
pub mod text;
pub mod trie_proof;
