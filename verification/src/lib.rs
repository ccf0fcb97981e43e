//! Ignite: the boot loader of Redstone OS, as a verified library.
//!
//! The modules hold the decisions the boot loader makes (page tables, heap
//! bookkeeping, boot-protocol detection, recovery, security policy); the
//! firmware calls that feed them live outside this crate.

pub mod config;
pub mod error;
pub mod handoff;
pub mod memory;
pub mod protos;
pub mod text;
pub mod recovery;
pub mod security;
pub mod types;
pub mod os;
