//! Trust, governance and encryption layer for the Melda delta-state JSON CRDT.
pub mod adapter;
pub mod utils;
pub mod error;
pub mod crypto;
pub mod bytes;
pub mod deltafilter;
pub mod encryptionadapter;
pub mod deltaid;
pub mod endorsement;
pub mod glob;
pub mod json;
pub mod keystore;
pub mod policy;
pub mod trustadapter;
