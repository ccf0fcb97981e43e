//! Recovery: boot-attempt bookkeeping, fallback to a recovery entry and a
//! pre-boot health check.

pub mod diagnostics;
pub mod fallback;
pub mod keydetect;
pub mod manager;
pub mod state;
