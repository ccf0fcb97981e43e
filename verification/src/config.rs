//! The parts of the boot configuration the boot loader's decisions read.

use vstd::prelude::*;

verus! {

/// A module (such as an initrd) loaded with an entry.
pub struct Module {
    pub path: String,
}

/// A boot entry.
pub struct Entry {
    pub name: String,
    pub path: String,
    pub modules: Vec<Module>,
}

/// The boot configuration.
pub struct BootConfig {
    pub entries: Vec<Entry>,
    pub default_entry_idx: usize,
    pub quiet: bool,
}

} // verus!
