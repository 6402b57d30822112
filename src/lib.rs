//! Issuance, indexing and revocation of secret-id credentials for a
//! role-based machine-authentication backend.
pub mod error;
pub mod hmac;
pub mod storage;
pub mod entry;
pub mod backend;
pub mod cidr;
pub mod memory;
