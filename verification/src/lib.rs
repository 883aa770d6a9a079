//! Addressable todo and vote records.
//!
//! Records live at storage addresses derived deterministically from a
//! namespace and the record's logical identity, mutation is gated on the
//! recorded owner, and voting is kept at-most-once per identity by a
//! zero-payload receipt record whose address is derived from the vote and
//! the voter.

pub mod address;
pub mod auth;
pub mod error;
pub mod laws;
pub mod records;
pub mod store;
