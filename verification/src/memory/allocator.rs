//! Physical frame allocation.

use vstd::prelude::*;

use crate::error::BootResult;


verus! {

/// A source of physical frames (4 KiB each).
///
/// The firmware-backed implementation lives with the firmware glue; nothing
/// is assumed of what an implementation returns: the page-table code checks
/// every frame it is given.
pub trait FrameAllocator {
    /// Allocates `count` contiguous frames anywhere and returns the physical
    /// address of the first.
    fn allocate_frame(&mut self, count: usize) -> BootResult<u64>;

    /// Allocates `count` contiguous frames at `addr`.
    fn allocate_at(&mut self, addr: u64, count: usize) -> BootResult<u64>;
}

/// One request made to a frame allocator: at a fixed address or anywhere,
/// for how many frames, and what came back.
pub struct FrameRequest {
    pub at: Option<u64>,
    pub count: usize,
    pub result: BootResult<u64>,
}

/// The requests made through it to frame allocators, oldest first. It
/// holds nothing at run time: it is what a caller's contract speaks of.
pub struct RequestLog {
    requests: Ghost<Seq<FrameRequest>>,
}

impl RequestLog {
    /// The requests recorded so far.
    pub closed spec fn requests(&self) -> Seq<FrameRequest> {
        self.requests@
    }

    /// A log with no request.
    pub fn new() -> (r: Self)
        ensures
            r.requests() == Seq::<FrameRequest>::empty(),
    {
        RequestLog { requests: Ghost(Seq::empty()) }
    }

    /// Asks `allocator` for `count` frames anywhere and records the request
    /// with what came back.
    pub fn allocate_frame<A: FrameAllocator + ?Sized>(&mut self, allocator: &mut A, count: usize) -> (r:
        BootResult<u64>)
        ensures
            final(self).requests() == old(self).requests().push(FrameRequest { at: None, count, result: r }),
    {
        let r = allocator.allocate_frame(count);
        proof {
            self.requests@ = self.requests@.push(FrameRequest { at: None, count, result: r });
        }
        r
    }
}

} // verus!
