//! Core of a co-signing daemon for a multi-party vault protocol.
//!
//! The daemon's one trusted duty is at-most-once signing: given a proposed
//! spending transaction, add this daemon's signature to each of its inputs at
//! most once, ever, and record that fact before the signature leaves the
//! process.  The modules below hold the pieces of that duty:
//!
//! - [`outpoint`]: the identity of a spendable previous output, the unit the
//!   whole guarantee is stated over;
//! - [`sign`]: the signing key and the signature payload it produces;
//! - [`ledger`]: the append-only record of already-signed outpoints, whose
//!   check-and-insert is the single serialization point of the system;
//! - [`processing`]: the signing-policy engine, which walks a request's
//!   inputs and signs exactly the first unseen occurrence of each outpoint;
//! - [`message`]: the adapter between byte payloads handed over by the
//!   transport layer and the engine's request and response values;
//! - [`cosignerd`]: the process-wide daemon state assembled once at startup.
//!
//! Transport encryption, the cryptographic strength of signatures, and disk
//! I/O are collaborators outside this crate; the contracts here pin down the
//! duplicate-prevention logic between them.

pub mod cosignerd;
pub mod ledger;
pub mod message;
pub mod outpoint;
pub mod processing;
pub mod sign;
