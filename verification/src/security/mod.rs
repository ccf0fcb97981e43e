//! Security of the boot chain: secure-boot state, the policy applied when a
//! check fails, file integrity and rollback protection.

pub mod blake2b;
pub mod integrity;
pub mod policy;
pub mod rollback;
pub mod secure_boot;
pub mod secureboot;
pub mod sha256;
