//! Secure Boot detection and signature checks, not implemented yet: the
//! state is unknown and every signature is accepted (permissive mode).

use vstd::prelude::*;

verus! {

/// State of Secure Boot.
#[derive(Debug, Clone, Copy, PartialEq, Eq, Structural)]
pub enum SecureBootState {
    Enabled,
    Disabled,
    Unknown,
}

impl SecureBootState {
    /// The state's name.
    pub fn as_str(&self) -> (r: &'static str)
        ensures
            *self == SecureBootState::Enabled ==> r == "Habilitado",
            *self == SecureBootState::Disabled ==> r == "Desabilitado",
            *self == SecureBootState::Unknown ==> r == "Desconhecido",
    {
        match self {
            SecureBootState::Enabled => "Habilitado",
            SecureBootState::Disabled => "Desabilitado",
            SecureBootState::Unknown => "Desconhecido",
        }
    }
}

/// Secure Boot manager.
pub struct SecureBootManager;

impl SecureBootManager {
    /// The state; not read from the firmware yet.
    pub fn get_state() -> (r: SecureBootState)
        ensures
            r == SecureBootState::Unknown,
    {
        SecureBootState::Unknown
    }

    /// Whether the firmware is in setup mode; not read yet.
    pub fn is_setup_mode() -> (r: bool)
        ensures
            !r,
    {
        false
    }

    /// Checks a file's signature. A missing (empty) signature is invalid;
    /// the cryptographic check of a present one is not done yet, so in
    /// permissive mode any present signature is accepted.
    pub fn validate_signature(_data: &[u8], signature: &[u8]) -> (r: bool)
        ensures
            r == (signature@.len() > 0),
    {
        signature.len() > 0
    }

    /// The authorized-certificate database (db); not read yet.
    pub fn read_authorized_db() -> (r: Option<Vec<u8>>)
        ensures
            r is None,
    {
        None
    }

    /// The revoked-certificate database (dbx); not read yet.
    pub fn read_forbidden_db() -> (r: Option<Vec<u8>>)
        ensures
            r is None,
    {
        None
    }

    /// Whether a certificate is revoked; not checked yet.
    pub fn is_certificate_revoked(_cert: &[u8]) -> (r: bool)
        ensures
            !r,
    {
        false
    }
}

} // verus!
