//! Special keys held during boot.

use vstd::prelude::*;

verus! {

/// Detects the recovery key.
pub struct KeyDetector;

impl KeyDetector {
    /// Whether the recovery key (`R`) is held. Key input is not read yet, so
    /// the answer is always no.
    pub fn check_recovery_key() -> (r: bool)
        ensures
            !r,
    {
        false
    }

    /// Shows the hint about the recovery key. The hint is only logged; the
    /// boot loader's log sink lives with the firmware glue, so nothing
    /// happens here.
    pub fn show_recovery_hint() {
    }
}

} // verus!
