//! Chooses the boot entry from the failure history and the user's keys.

use vstd::prelude::*;

use super::state::PersistentState;
use crate::config::{BootConfig, Entry};
use crate::os::OsKey;
use crate::text::{contains_lower, has_lower};

verus! {

/// Failures tolerated: recovery is forced once the count exceeds it.
pub const MAX_FAILURES: u8 = 3;

/// Whether an entry name marks a recovery entry.
pub open spec fn is_recovery_name(name: Seq<char>) -> bool {
    contains_lower(name, "recovery"@) || contains_lower(name, "rescue"@) || contains_lower(
        name,
        "fallback"@,
    )
}

/// The recovery entry: the first whose name marks it, else the last.
pub open spec fn recovery_index(names: Seq<Seq<char>>) -> Option<int> {
    if exists|i: int| 0 <= i < names.len() && is_recovery_name(#[trigger] names[i]) {
        Some(choose|i: int|
            0 <= i < names.len() && is_recovery_name(names[i]) && forall|j: int|
                0 <= j < i ==> !is_recovery_name(#[trigger] names[j]))
    } else if names.len() > 0 {
        Some(names.len() - 1)
    } else {
        None
    }
}

/// The names of the entries.
pub open spec fn entry_names(entries: Seq<Entry>) -> Seq<Seq<char>> {
    entries.map_values(|e: Entry| e.name@)
}

/// The entry used when no recovery applies: the configured default, capped
/// to the last entry.
pub open spec fn default_index(config: BootConfig) -> int {
    if config.default_entry_idx < config.entries@.len() {
        config.default_entry_idx as int
    } else {
        config.entries@.len() - 1
    }
}

/// Picks boot entries and records attempts.
pub struct RecoveryManager {
    state: PersistentState,
}

impl RecoveryManager {
    /// The persistent state the manager holds.
    pub closed spec fn state(self) -> PersistentState {
        self.state
    }

    /// The state to save back to NVRAM after a selection.
    pub fn current_state(&self) -> (r: PersistentState)
        ensures
            r == self.state(),
    {
        self.state
    }

    /// A manager over the state read from NVRAM.
    pub fn new(state: PersistentState) -> (r: Self)
        ensures
            r.state() == state,
    {
        Self { state }
    }

    fn name_marks_recovery(name: &String) -> (b: bool)
        ensures
            b == is_recovery_name(name@),
    {
        let s = name.as_str();
        proof {
            reveal_strlit("recovery");
            reveal_strlit("rescue");
            reveal_strlit("fallback");
        }
        has_lower(s, "recovery") || has_lower(s, "rescue") || has_lower(s, "fallback")
    }

    /// The index of the recovery entry, if any.
    fn find_recovery_entry(&self, config: &BootConfig) -> (r: Option<usize>)
        ensures
            r matches Some(i) ==> i < config.entries@.len() && Some(i as int) == recovery_index(
                entry_names(config.entries@),
            ),
            r is None ==> recovery_index(entry_names(config.entries@)) is None,
    {
        let ghost names = entry_names(config.entries@);
        let mut i: usize = 0;
        while i < config.entries.len()
            invariant
                i <= config.entries@.len(),
                names == entry_names(config.entries@),
                forall|j: int| 0 <= j < i ==> !is_recovery_name(#[trigger] names[j]),
            decreases config.entries@.len() - i,
        {
            if Self::name_marks_recovery(&config.entries[i].name) {
                proof {
                    assert(is_recovery_name(names[i as int]));
                    let c = choose|c: int|
                        0 <= c < names.len() && is_recovery_name(names[c]) && forall|j: int|
                            0 <= j < c ==> !is_recovery_name(#[trigger] names[j]);
                    assert(0 <= c < names.len() && is_recovery_name(names[c]) && forall|j: int|
                            0 <= j < c ==> !is_recovery_name(#[trigger] names[j]));
                    if c < i {
                    } else if c > i {
                        assert(!is_recovery_name(names[i as int]));
                    }
                }
                return Some(i);
            }
            i = i + 1;
        }
        if config.entries.len() > 0 {
            Some(config.entries.len() - 1)
        } else {
            None
        }
    }

    /// Whether the key read at start-up asks for recovery: `r` or `R`.
    pub fn check_force_keys(key: Option<OsKey>) -> (r: bool)
        ensures
            r == (key == Some(OsKey::Char('r')) || key == Some(OsKey::Char('R'))),
    {
        match key {
            Some(OsKey::Char(c)) => c == 'r' || c == 'R',
            _ => false,
        }
    }

    /// Picks the entry to boot. With `force_recovery` (the recovery key is
    /// held) or after more than `MAX_FAILURES` failed attempts the recovery entry is
    /// used; otherwise the default entry, and the attempt is recorded (the
    /// caller then saves the state).
    pub fn select_entry<'a>(&mut self, config: &'a BootConfig, force_recovery: bool) -> (r: &'a Entry)
        requires
            config.entries@.len() > 0,
        ensures
            (force_recovery || old(self).state().failed_attempts > MAX_FAILURES) ==> {
                &&& *r == config.entries@[recovery_index(entry_names(config.entries@))->Some_0]
                &&& final(self).state() == old(self).state()
            },
            !(force_recovery || old(self).state().failed_attempts > MAX_FAILURES) ==> {
                &&& *r == config.entries@[default_index(*config)]
                &&& final(self).state().failed_attempts == (old(self).state().failed_attempts
                    + 1) as u8
                &&& final(self).state().last_entry_idx == (#[verifier::truncate] (default_index(*config) as u8))
                &&& final(self).state().flags == old(self).state().flags
            },
    {
        let too_many_failures = self.state.failed_attempts > MAX_FAILURES;
        if force_recovery || too_many_failures {
            if let Some(i) = self.find_recovery_entry(config) {
                return &config.entries[i];
            }
        }
        let last = config.entries.len() - 1;
        let idx = if config.default_entry_idx < last {
            config.default_entry_idx
        } else {
            last
        };
        self.state.mark_attempt(idx);
        &config.entries[idx]
    }
}

/// From a clean failure count, `MAX_FAILURES` recorded attempts still leave
/// the default entry in use; the attempt recorded by one more selection
/// brings the count past the threshold, so the next selection uses the
/// recovery entry.
pub proof fn law_failures_force_recovery(s: PersistentState, a: usize, b: usize, c: usize, d: usize)
    requires
        s.failed_attempts == 0,
    ensures
        !(s.attempted(a).attempted(b).attempted(c).failed_attempts > MAX_FAILURES),
        s.attempted(a).attempted(b).attempted(c).attempted(d).failed_attempts > MAX_FAILURES,
{
}

/// An entry name marks recovery exactly when it contains "recovery",
/// "rescue" or "fallback", in any case.
pub proof fn law_recovery_words(name: Seq<char>)
    ensures
        contains_lower(name, "recovery"@) ==> is_recovery_name(name),
        contains_lower(name, "rescue"@) ==> is_recovery_name(name),
        contains_lower(name, "fallback"@) ==> is_recovery_name(name),
        is_recovery_name(name) ==> contains_lower(name, "recovery"@) || contains_lower(name, "rescue"@)
            || contains_lower(name, "fallback"@),
{
}

proof fn lemma_first_marked(names: Seq<Seq<char>>, i: int)
    requires
        0 <= i < names.len(),
        is_recovery_name(names[i]),
    ensures
        exists|k: int|
            0 <= k <= i && is_recovery_name(#[trigger] names[k]) && forall|j: int|
                0 <= j < k ==> !is_recovery_name(#[trigger] names[j]),
    decreases i,
{
    if exists|j: int| 0 <= j < i && is_recovery_name(#[trigger] names[j]) {
        let j = choose|j: int| 0 <= j < i && is_recovery_name(#[trigger] names[j]);
        lemma_first_marked(names, j);
    } else {
        assert(forall|j: int| 0 <= j < i ==> !is_recovery_name(#[trigger] names[j]));
    }
}

/// When some entry's name marks recovery, the recovery entry is the first
/// such entry: at or before it, marked, with no marked entry before it.
pub proof fn law_first_recovery_entry(names: Seq<Seq<char>>, i: int)
    requires
        0 <= i < names.len(),
        is_recovery_name(names[i]),
    ensures
        recovery_index(names) matches Some(k) && 0 <= k <= i && is_recovery_name(names[k]) && forall|j: int|
            0 <= j < k ==> !is_recovery_name(#[trigger] names[j]),
{
    lemma_first_marked(names, i);
    let k = recovery_index(names)->Some_0;
    assert(is_recovery_name(names[k]));
    if k > i {
        assert(!is_recovery_name(names[i]));
    }
}

} // verus!
