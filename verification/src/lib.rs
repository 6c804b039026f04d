//! Verified core of a racing-game backend: session tokens, replay
//! validation against a deterministic simulation oracle, and a
//! best-time ledger with atomic reconciliation.

pub mod archive;
pub mod auth;
pub mod blobs;
pub mod config;
pub mod crypto;
pub mod pipeline;
pub mod records;
pub mod routes;
pub mod text;
pub mod token;
pub mod tt;
pub mod user;
pub mod uuid;
