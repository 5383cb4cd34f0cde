//! Encrypted, multi-profile entry store: the storage engine behind a SQL backend.
//!
//! The crate holds the decisions of the engine as verified code over plain values:
//! the statements it issues, the order in which it issues them, and how it reads
//! what the database hands back. Connections, transactions and the scheduling of
//! the work belong to the program around it.

pub mod error;
pub mod types;
pub mod text;
pub mod hex;
pub mod tags;
pub mod keys;
pub mod query;
pub mod filter;
pub mod protocol;
pub mod session;
pub mod postgres;
pub mod sqlite;
pub mod scan;
pub mod update;
pub mod profile;
pub mod jwk;
