//! Boot attempts and the choice of kernel.

use vstd::prelude::*;

verus! {

/// A kernel the boot loader can start.
#[derive(Debug, Clone)]
pub struct KernelEntry {
    /// Path of the kernel file.
    pub path: &'static str,
    /// Name shown to the user.
    pub name: &'static str,
    /// Path of the InitFS, if any.
    pub initfs: Option<&'static str>,
}

impl KernelEntry {
    /// An entry with the default InitFS (`initfs`).
    pub fn new(path: &'static str, name: &'static str) -> (r: Self)
        ensures
            r.path == path,
            r.name == name,
            r.initfs == Some("initfs"),
    {
        Self { path, name, initfs: Some("initfs") }
    }

    /// An entry without InitFS.
    pub fn new_without_initfs(path: &'static str, name: &'static str) -> (r: Self)
        ensures
            r.path == path,
            r.name == name,
            r.initfs is None,
    {
        Self { path, name, initfs: None }
    }
}

/// Boot options with a fallback kernel.
pub struct BootOptions {
    /// Main kernel.
    pub primary_kernel: KernelEntry,
    /// Recovery kernel, if any.
    pub recovery_kernel: Option<KernelEntry>,
    /// Boot attempts so far.
    pub boot_attempts: u8,
    /// Attempts before recovery is used.
    pub max_attempts: u8,
}

impl BootOptions {
    /// Whether the recovery kernel is due.
    pub open spec fn spec_should_enter_recovery(&self) -> bool {
        self.boot_attempts >= self.max_attempts && self.recovery_kernel is Some
    }

    /// The kernel to boot.
    pub open spec fn spec_selected(&self) -> KernelEntry {
        if self.spec_should_enter_recovery() {
            self.recovery_kernel->Some_0
        } else {
            self.primary_kernel
        }
    }

    /// The default options: kernel `forge` ("Redstone OS"), no recovery
    /// kernel, three attempts.
    pub fn default() -> (r: Self)
        ensures
            r.primary_kernel.path == "forge",
            r.primary_kernel.name == "Redstone OS",
            r.primary_kernel.initfs == Some("initfs"),
            r.recovery_kernel is None,
            r.boot_attempts == 0,
            r.max_attempts == 3,
    {
        Self {
            primary_kernel: KernelEntry::new("forge", "Redstone OS"),
            recovery_kernel: None,
            boot_attempts: 0,
            max_attempts: 3,
        }
    }

    /// The kernel to boot: the recovery kernel once the attempts reach the
    /// limit and one exists, the primary kernel otherwise.
    pub fn select_kernel(&self) -> (r: &KernelEntry)
        ensures
            *r == self.spec_selected(),
    {
        if self.boot_attempts >= self.max_attempts {
            if let Some(ref recovery) = self.recovery_kernel {
                return recovery;
            }
        }
        &self.primary_kernel
    }

    /// Counts one more boot attempt.
    pub fn increment_attempts(&mut self)
        requires
            old(self).boot_attempts < 255,
        ensures
            final(self).boot_attempts == old(self).boot_attempts + 1,
            final(self).max_attempts == old(self).max_attempts,
            final(self).primary_kernel == old(self).primary_kernel,
            final(self).recovery_kernel == old(self).recovery_kernel,
    {
        self.boot_attempts = self.boot_attempts + 1;
    }

    /// Clears the attempt count after a successful boot.
    pub fn reset_attempts(&mut self)
        ensures
            final(self).boot_attempts == 0,
            final(self).max_attempts == old(self).max_attempts,
            final(self).primary_kernel == old(self).primary_kernel,
            final(self).recovery_kernel == old(self).recovery_kernel,
    {
        if self.boot_attempts > 0 {
            self.boot_attempts = 0;
        }
    }

    /// Whether the recovery kernel is due.
    pub fn should_enter_recovery(&self) -> (r: bool)
        ensures
            r == self.spec_should_enter_recovery(),
    {
        self.boot_attempts >= self.max_attempts && self.recovery_kernel.is_some()
    }
}

/// The selected kernel is the recovery kernel exactly when recovery is due,
/// and the primary kernel otherwise.
pub proof fn law_select_follows_recovery(o: BootOptions)
    ensures
        o.spec_should_enter_recovery() ==> Some(o.spec_selected()) == o.recovery_kernel,
        !o.spec_should_enter_recovery() ==> o.spec_selected() == o.primary_kernel,
{
}

/// With the default options the primary kernel is selected until three
/// attempts have been counted, because there is no recovery kernel.
pub proof fn law_default_never_recovers(o: BootOptions)
    requires
        o.recovery_kernel is None,
    ensures
        !o.spec_should_enter_recovery(),
        o.spec_selected() == o.primary_kernel,
{
}

/// Outcome of a boot attempt.
pub enum BootAttemptResult {
    /// The boot went through (never returns in practice).
    Success,
    /// The boot failed and may be retried.
    Failed,
    /// Recovery mode is due.
    EnterRecovery,
}

} // verus!
