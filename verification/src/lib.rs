//! Verified core of a small banking back-end: the account and transaction
//! data model, the transfer (deposit) and withdrawal engines, the history
//! read model, and the authorization gate that fronts them.

pub mod auth;
pub mod bank;
pub mod config;
pub mod errors;
pub mod gateway;
pub mod laws;
pub mod model;
pub mod oid;
pub mod wrappers;
