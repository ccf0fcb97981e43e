//! What the boot loader does when a check fails.

use vstd::prelude::*;

use crate::config::BootConfig;

verus! {

/// Reaction to a failed check.
#[derive(Debug, Clone, Copy, PartialEq, Eq, Structural)]
pub enum PolicyAction {
    /// Stop the boot.
    Halt,
    /// Report and go on (permissive / development).
    WarnAndContinue,
    /// Try a fallback (such as the previous kernel).
    Fallback,
}

/// The policy in force.
pub struct SecurityPolicy {
    secure_boot: bool,
    developer_mode: bool,
}

impl SecurityPolicy {
    pub closed spec fn secure_boot(self) -> bool {
        self.secure_boot
    }

    pub closed spec fn developer_mode(self) -> bool {
        self.developer_mode
    }

    /// Developer mode is never on under secure boot.
    pub open spec fn wf(self) -> bool {
        self.developer_mode() ==> !self.secure_boot()
    }

    /// Reaction to a signature failure.
    pub open spec fn signature_fail_action(self) -> PolicyAction {
        if self.secure_boot() {
            PolicyAction::Halt
        } else {
            PolicyAction::WarnAndContinue
        }
    }

    /// Reaction to an integrity failure.
    pub open spec fn integrity_fail_action(self) -> PolicyAction {
        if self.developer_mode() {
            PolicyAction::WarnAndContinue
        } else {
            PolicyAction::Halt
        }
    }

    /// The policy for the configuration and the firmware's secure-boot
    /// enforcement: developer mode when secure boot is off and the
    /// configuration is not quiet.
    pub fn new(config: &BootConfig, secure_boot_enforced: bool) -> (r: Self)
        ensures
            r.secure_boot() == secure_boot_enforced,
            r.developer_mode() == (!secure_boot_enforced && !config.quiet),
            r.wf(),
    {
        Self { secure_boot: secure_boot_enforced, developer_mode: !secure_boot_enforced && !config.quiet }
    }

    /// Reaction to a signature failure: halt under secure boot.
    pub fn on_signature_fail(&self) -> (r: PolicyAction)
        ensures
            r == self.signature_fail_action(),
    {
        if self.secure_boot {
            PolicyAction::Halt
        } else {
            PolicyAction::WarnAndContinue
        }
    }

    /// Reaction to an integrity failure: go on only in developer mode.
    pub fn on_integrity_fail(&self) -> (r: PolicyAction)
        ensures
            r == self.integrity_fail_action(),
    {
        if self.developer_mode {
            PolicyAction::WarnAndContinue
        } else {
            PolicyAction::Halt
        }
    }
}

/// Under enforced secure boot every failed check halts the boot.
pub proof fn law_secure_boot_halts(p: SecurityPolicy)
    requires
        p.wf(),
        p.secure_boot(),
    ensures
        p.signature_fail_action() == PolicyAction::Halt,
        p.integrity_fail_action() == PolicyAction::Halt,
{
}

/// A permissive policy never halts on a signature failure.
pub proof fn law_no_secure_boot_continues(p: SecurityPolicy)
    requires
        !p.secure_boot(),
    ensures
        p.signature_fail_action() == PolicyAction::WarnAndContinue,
{
}

} // verus!
