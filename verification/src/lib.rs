//! A pseudonym identity registry.
//!
//! Participants claim a unique, human-readable alias bound to their account;
//! a restricted set of verifier accounts may attest that an alias-to-account
//! binding is trustworthy, and a single authority account administers the
//! verifier set.

pub mod account;
pub mod assoc;
pub mod laws;
pub mod pseudonyms;
pub mod registry;
pub mod result;
