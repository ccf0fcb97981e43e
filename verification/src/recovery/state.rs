//! Boot state kept in NVRAM across reboots.
//!
//! Reading and writing the firmware variable happens in the firmware glue;
//! here is the state and how each event changes it.

use vstd::prelude::*;

verus! {

/// The state stored in the firmware variable.
#[derive(Debug, Clone, Copy)]
pub struct PersistentState {
    /// Consecutive failed boot attempts.
    pub failed_attempts: u8,
    /// Index of the entry tried last.
    pub last_entry_idx: u8,
    /// State flags (such as "force recovery on next boot").
    pub flags: u8,
    /// Checksum of the structure.
    pub checksum: u8,
}

impl Default for PersistentState {
    fn default() -> (r: Self)
        ensures
            r.failed_attempts == 0 && r.last_entry_idx == 0 && r.flags == 0 && r.checksum == 0,
    {
        PersistentState { failed_attempts: 0, last_entry_idx: 0, flags: 0, checksum: 0 }
    }
}

impl PersistentState {
    /// Records a boot attempt of entry `entry_idx`: one more failure
    /// (saturating at 255) and the entry index truncated to a byte. The
    /// caller then saves the state.
    pub fn mark_attempt(&mut self, entry_idx: usize)
        ensures
            *final(self) == old(self).attempted(entry_idx),
    {
        self.failed_attempts = self.failed_attempts.saturating_add(1);
        self.last_entry_idx = entry_idx as u8;
    }

    /// Clears the failure count and the flags after a successful boot. The
    /// caller then saves the state.
    pub fn reset(&mut self)
        ensures
            final(self).failed_attempts == 0,
            final(self).flags == 0,
            final(self).last_entry_idx == old(self).last_entry_idx,
            final(self).checksum == old(self).checksum,
    {
        self.failed_attempts = 0;
        self.flags = 0;
    }

    /// The bytes stored in the firmware variable: the four fields in
    /// declaration order.
    pub fn to_bytes(&self) -> (r: [u8; 4])
        ensures
            r@ == self.bytes(),
    {
        [self.failed_attempts, self.last_entry_idx, self.flags, self.checksum]
    }

    /// The state read back from the variable's contents: the four fields
    /// in declaration order when exactly four bytes were read, else `None`
    /// (the caller then starts from the default state).
    pub fn from_bytes(data: &[u8]) -> (r: Option<PersistentState>)
        ensures
            r == Self::decode(data@),
    {
        if data.len() != 4 {
            return None;
        }
        Some(
            PersistentState {
                failed_attempts: data[0],
                last_entry_idx: data[1],
                flags: data[2],
                checksum: data[3],
            },
        )
    }

    /// The state after recording an attempt of entry `entry_idx`.
    pub open spec fn attempted(self, entry_idx: usize) -> PersistentState {
        PersistentState {
            failed_attempts: if self.failed_attempts == 255 {
                255
            } else {
                (self.failed_attempts + 1) as u8
            },
            last_entry_idx: #[verifier::truncate] (entry_idx as u8),
            flags: self.flags,
            checksum: self.checksum,
        }
    }

    /// The stored form of the state.
    pub open spec fn bytes(self) -> Seq<u8> {
        seq![self.failed_attempts, self.last_entry_idx, self.flags, self.checksum]
    }

    /// What a read of `data` yields.
    pub open spec fn decode(data: Seq<u8>) -> Option<PersistentState> {
        if data.len() == 4 {
            Some(
                PersistentState {
                    failed_attempts: data[0],
                    last_entry_idx: data[1],
                    flags: data[2],
                    checksum: data[3],
                },
            )
        } else {
            None
        }
    }
}

/// Reading back what was saved gives the same state.
pub proof fn law_state_round_trip(s: PersistentState)
    ensures
        PersistentState::decode(s.bytes()) == Some(s),
{
}

} // verus!
