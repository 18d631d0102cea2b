//! A minimal keyed record store for journal entries.
//!
//! Each record is addressed by a deterministic function of its title and its
//! owning identity, derived through the ledger host's program-derived-address
//! search. The store supports three authorized lifecycle operations — create,
//! update and delete — whose rules, storage sizing and error conditions are
//! stated in the contracts of [`ledger::Ledger`].

pub mod address;
pub mod errors;
pub mod keys;
pub mod laws;
pub mod ledger;
pub mod schema;
