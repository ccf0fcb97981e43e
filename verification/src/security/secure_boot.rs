//! Secure Boot state from the firmware's global variables (UEFI 2.10,
//! section 3.3). Reading the variables is done by the firmware glue; here
//! is what their values mean.

use vstd::prelude::*;

verus! {

/// State of Secure Boot.
#[derive(Debug, Clone, Copy, PartialEq, Eq, Structural)]
pub enum SecureBootState {
    /// Active and enforcing.
    Enforced,
    /// Turned off by the user.
    Disabled,
    /// Setup mode: keys are being enrolled.
    SetupMode,
    /// The variables could not be read.
    Unknown,
}

/// The state from the variables: `setup_mode` and `secure_boot` are the
/// byte read from `SetupMode` and `SecureBoot`, `None` where the read
/// failed.
pub fn state_from_variables(setup_mode: Option<u8>, secure_boot: Option<u8>) -> (r: SecureBootState)
    ensures
        r == if setup_mode == Some(1u8) {
            SecureBootState::SetupMode
        } else {
            match secure_boot {
                Some(v) => if v == 1 {
                    SecureBootState::Enforced
                } else {
                    SecureBootState::Disabled
                },
                None => SecureBootState::Unknown,
            }
        },
{
    if let Some(1) = setup_mode {
        return SecureBootState::SetupMode;
    }
    match secure_boot {
        Some(v) => if v == 1 {
            SecureBootState::Enforced
        } else {
            SecureBootState::Disabled
        },
        None => SecureBootState::Unknown,
    }
}

/// Whether signatures must be enforced.
pub fn enforcement_required(state: SecureBootState) -> (r: bool)
    ensures
        r == (state == SecureBootState::Enforced),
{
    matches!(state, SecureBootState::Enforced)
}

} // verus!
