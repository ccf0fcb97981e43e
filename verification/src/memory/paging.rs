//! Four-level x86_64 page tables (PML4 -> PDPT -> PD -> PT).
//!
//! The manager keeps the page-table frames it created together with their
//! contents: `frames[k]` is the physical address of table `k` and
//! `entries[512 * k .. 512 * k + 512]` are its 512 entries. Every table is
//! tagged (in ghost state) with its level and with the indices a walk takes
//! to reach it, which is what makes the walk of one address independent of
//! writes made for another.
//!
//! The meaning of the tables is `translate`: the physical address the
//! hardware walk reaches for a virtual address, if any.

use vstd::prelude::*;
use vstd::arithmetic::div_mod::{lemma_add_mod_noop, lemma_add_mod_noop_right};

use super::allocator::{FrameAllocator, RequestLog};
use crate::error::{BootError, BootResult, MemoryError};

verus! {

/// P: the entry is present.
pub const PAGE_PRESENT: u64 = 0x1;

/// R/W: writes are allowed.
pub const PAGE_WRITABLE: u64 = 0x2;

/// U/S: user-mode accesses are allowed.
pub const PAGE_USER: u64 = 0x4;

/// PS: in a PD entry, the entry maps a 2 MiB page.
pub const PAGE_HUGE: u64 = 0x80;

/// Flags kept when a 2 MiB page is split into 4 KiB pages: P, R/W, U/S,
/// PWT, PCD, A, D, G and NX.
pub const PRESERVED_FLAGS_MASK: u64 = 0x8000_0000_0000_017F;

/// PAT bit of a 2 MiB page entry.
pub const HUGE_PAGE_PAT_BIT: u64 = 0x1000;

/// PAT bit of a 4 KiB page entry.
pub const PAGE_PAT_4K: u64 = 0x80;

/// Physical-address bits of an entry.
pub const ADDR_MASK: u64 = 0x000F_FFFF_FFFF_F000;

/// Size of a 4 KiB page.
pub const PAGE_SIZE: u64 = 4096;

/// Size of a 2 MiB page.
pub const SIZE_2MIB: u64 = 0x20_0000;

/// Size of the first 4 GiB.
pub const SIZE_4GIB: u64 = 0x1_0000_0000;

/// Virtual address of the scratch slot the kernel uses to map frames.
pub const SCRATCH_VIRT: u64 = 0xFFFF_FE00_0000_0000;

/// Whether an entry has its present bit.
pub open spec fn entry_present(e: u64) -> bool {
    e & 1u64 != 0u64
}

/// Whether an entry has its page-size bit.
pub open spec fn entry_huge(e: u64) -> bool {
    e & 0x80u64 != 0u64
}

/// The physical address an entry holds.
pub open spec fn entry_frame(e: u64) -> u64 {
    e & 0x000F_FFFF_FFFF_F000u64
}

/// Whether `f` can be stored in an entry unchanged: 4 KiB aligned and below
/// 2^52.
pub open spec fn frame_ok(f: u64) -> bool {
    f & 0x000F_FFFF_FFFF_F000u64 == f
}

/// Index into the PML4 for `v`.
pub open spec fn pml4_index(v: u64) -> int {
    ((v / 0x80_0000_0000u64) % 512u64) as int
}

/// Index into the PDPT for `v`.
pub open spec fn pdpt_index(v: u64) -> int {
    ((v / 0x4000_0000u64) % 512u64) as int
}

/// Index into the PD for `v`.
pub open spec fn pd_index(v: u64) -> int {
    ((v / 0x20_0000u64) % 512u64) as int
}

/// Index into the PT for `v`.
pub open spec fn pt_index(v: u64) -> int {
    ((v / 0x1000u64) % 512u64) as int
}

/// The 4 KiB page of `v` as the walk sees it (bits 12..48).
pub open spec fn page_number(v: u64) -> int {
    ((v / 0x1000u64) % 0x10_0000_0000u64) as int
}

/// The 2 MiB region of `v` as the walk sees it (bits 21..48).
pub open spec fn region_number(v: u64) -> int {
    ((v / 0x20_0000u64) % 0x800_0000u64) as int
}

/// The part of `v` the walk uses (bits 0..48).
pub open spec fn low48(v: u64) -> int {
    (v % 0x1_0000_0000_0000u64) as int
}

/// How many 4 KiB pages `v` lies after `base`, counted modulo the 2^36
/// pages the walk distinguishes.
pub open spec fn page_delta(v: u64, base: u64) -> int {
    (page_number(v) - page_number(base)) % 0x10_0000_0000
}

/// `x` rounded up to a multiple of 2 MiB.
pub open spec fn align_up_2mib(x: u64) -> int {
    (x as int + 0x1F_FFFF) / 0x20_0000 * 0x20_0000
}

/// The flags a 4 KiB entry gets when the 2 MiB page `e` is split: those of
/// `PRESERVED_FLAGS_MASK`, with the PAT bit moved from bit 12 to bit 7.
pub open spec fn split_flags(e: u64) -> u64 {
    if e & 0x1000u64 != 0 {
        (e & 0x8000_0000_0000_017Fu64) | 0x80u64
    } else {
        e & 0x8000_0000_0000_017Fu64
    }
}

/// Entry `i` of the PT that the 2 MiB page `e` is split into.
pub open spec fn split_entry(e: u64, i: int) -> u64 {
    (((entry_frame(e) + i * 0x1000) as u64) & 0x000F_FFFF_FFFF_F000u64) | split_flags(e)
}

/// The entry a 2 MiB identity mapping holds for `v`: the region's base
/// with PRESENT, WRITABLE and HUGE.
pub open spec fn huge_identity_entry(v: u64) -> u64 {
    ((low48(v) / 0x20_0000 * 0x20_0000) as u64) | 0x83u64
}

/// The leaf of `v` in `after` is that of `before`, or `v` was under a
/// 2 MiB page that has been split into 4 KiB pages keeping its flags.
pub open spec fn leaf_kept_or_split(after: PageTableManager, before: PageTableManager, v: u64) -> bool {
    ||| after.leaf(v) == before.leaf(v)
    ||| (before.pt_of(v) is None && before.leaf(v) is Some && after.leaf(v) == Some(
        split_entry(before.leaf(v)->0, pt_index(v)),
    ) && after.pt_of(v) is Some)
}

/// `after` maps the first `i` pages from `virt` on to the pages from `phys`
/// on and translates every other address as `before` does; the leaves of
/// the pages from `i` on are kept or split.
pub open spec fn prefix_mapped(after: PageTableManager, before: PageTableManager, phys: u64, virt: u64, i: int) -> bool {
    &&& forall|v: u64|
        #[trigger] after.translate(v) == if page_delta(v, virt) < i {
            Some(entry_frame((phys + page_delta(v, virt) * 4096) as u64) + v % 0x1000u64)
        } else {
            before.translate(v)
        }
    &&& forall|v: u64| page_delta(v, virt) >= i ==> #[trigger] leaf_kept_or_split(after, before, v)
}

/// The indices a walk for `v` takes before it reaches a table of `level`.
pub open spec fn path_above(v: u64, level: int) -> Seq<int> {
    if level == 4 {
        seq![]
    } else if level == 3 {
        seq![pml4_index(v)]
    } else if level == 2 {
        seq![pml4_index(v), pdpt_index(v)]
    } else {
        seq![pml4_index(v), pdpt_index(v), pd_index(v)]
    }
}

/// The index a walk for `v` uses in a table of `level`.
pub open spec fn index_at(v: u64, level: int) -> int {
    if level == 4 {
        pml4_index(v)
    } else if level == 3 {
        pdpt_index(v)
    } else if level == 2 {
        pd_index(v)
    } else {
        pt_index(v)
    }
}

proof fn lemma_index_bits(v: u64)
    by (bit_vector)
    ensures
        (v >> 39u64) & 0x1FFu64 == (v / 0x80_0000_0000u64) % 512u64,
        (v >> 30u64) & 0x1FFu64 == (v / 0x4000_0000u64) % 512u64,
        (v >> 21u64) & 0x1FFu64 == (v / 0x20_0000u64) % 512u64,
        (v >> 12u64) & 0x1FFu64 == (v / 0x1000u64) % 512u64,
{
}

proof fn lemma_entry_bits(f: u64, flags: u64)
    by (bit_vector)
    requires
        f & 0x000F_FFFF_FFFF_F000u64 == f,
        flags & 0x000F_FFFF_FFFF_F000u64 == 0u64,
    ensures
        (f | flags) & 0x000F_FFFF_FFFF_F000u64 == f,
        ((f | flags) & 1u64 != 0u64) == (flags & 1u64 != 0u64),
        ((f | flags) & 0x80u64 != 0u64) == (flags & 0x80u64 != 0u64),
{
}

proof fn lemma_flag_constants()
    by (bit_vector)
    ensures
        3u64 & 0x000F_FFFF_FFFF_F000u64 == 0u64,
        3u64 & 1u64 != 0u64,
        3u64 & 0x80u64 == 0u64,
        0x83u64 & 0x000F_FFFF_FFFF_F000u64 == 0u64,
        0x83u64 & 1u64 != 0u64,
        0x83u64 & 0x80u64 != 0u64,
        0u64 & 1u64 == 0u64,
        1u64 | 2u64 == 3u64,
{
}

proof fn lemma_huge_flags(flags: u64)
    by (bit_vector)
    requires
        flags & 0x000F_FFFF_FFFF_F000u64 == 0u64,
    ensures
        (flags | 0x80u64) & 0x000F_FFFF_FFFF_F000u64 == 0u64,
        ((flags | 0x80u64) & 1u64 != 0u64) == (flags & 1u64 != 0u64),
        (flags | 0x80u64) & 0x80u64 != 0u64,
{
}

proof fn lemma_frame_ok_bits(x: u64)
    by (bit_vector)
    ensures
        (x & 0x000F_FFFF_FFFF_F000u64) & 0x000F_FFFF_FFFF_F000u64 == x & 0x000F_FFFF_FFFF_F000u64,
        x & 0x000F_FFFF_FFFF_F000u64 == x ==> (x % 0x1000u64 == 0u64 && x < 0x10_0000_0000_0000u64),
        (x % 0x1000u64 == 0u64 && x < 0x10_0000_0000_0000u64) ==> x & 0x000F_FFFF_FFFF_F000u64 == x,
        x % 0x20_0000u64 == 0u64 ==> (x & 0x000F_FFFF_FFFF_F000u64) % 0x20_0000u64 == 0u64,
{
}

proof fn lemma_split_flags(e: u64, pf: u64)
    by (bit_vector)
    requires
        pf == (e & 0x8000_0000_0000_017Fu64) || pf == ((e & 0x8000_0000_0000_017Fu64) | 0x80u64),
    ensures
        pf & 0x000F_FFFF_FFFF_F000u64 == 0u64,
        (pf & 1u64 != 0u64) == (e & 1u64 != 0u64),
        ((e & 7u64) | 3u64) & 0x000F_FFFF_FFFF_F000u64 == 0u64,
        ((e & 7u64) | 3u64) & 1u64 != 0u64,
        ((e & 7u64) | 3u64) & 0x80u64 == 0u64,
{
}

proof fn lemma_align_2mib(x: u64, y: u64)
    by (bit_vector)
    requires
        x <= 0xFFFF_FFFF_FFE0_0000u64,
        y == ((x + 0x1F_FFFFu64) as u64),
    ensures
        (y & !0x1F_FFFFu64) % 0x20_0000u64 == 0u64,
        y & !0x1F_FFFFu64 >= x,
        y & !0x1F_FFFFu64 == y - y % 0x20_0000u64,
{
}

proof fn lemma_page_offsets(v: u64)
    by (bit_vector)
    ensures
        v % 0x20_0000u64 == ((v / 0x1000u64) % 512u64) * 0x1000u64 + v % 0x1000u64,
        v % 0x1000u64 < 0x1000u64,
        v % 0x20_0000u64 < 0x20_0000u64,
{
}

proof fn lemma_low48(v: u64)
    by (bit_vector)
    ensures
        (v / 0x20_0000u64) % 0x800_0000u64 == (v % 0x1_0000_0000_0000u64) / 0x20_0000u64,
        v % 0x20_0000u64 == (v % 0x1_0000_0000_0000u64) % 0x20_0000u64,
        v < 0x1_0000_0000_0000u64 ==> v % 0x1_0000_0000_0000u64 == v,
{
}

proof fn lemma_identity_page(v: u64, p: u64)
    by (bit_vector)
    requires
        (v / 0x1000u64) % 0x10_0000_0000u64 == (p / 0x1000u64) % 0x10_0000_0000u64,
        p < 0x1_0000_0000_0000u64,
    ensures
        (p & 0x000F_FFFF_FFFF_F000u64) + v % 0x1000u64 == v % 0x1_0000_0000_0000u64,
{
}

proof fn lemma_page_step(v: u64, base: u64, i: int)
    requires
        0 <= i < 0x10_0000_0000,
        base + i * 4096 <= u64::MAX,
    ensures
        (page_number(v) == page_number((base + i * 4096) as u64)) == (page_delta(v, base) == i),
{
    let w = (base + i * 4096) as u64;
    let a = base as int / 4096;
    assert(w as int / 4096 == a + i) by (nonlinear_arith)
        requires
            w as int == base as int + i * 4096,
            a == base as int / 4096,
            base >= 0,
    ;
    let m = 0x10_0000_0000int;
    let p = a % m;
    let q = page_number(v);
    assert(page_number(base) == p);
    assert(page_number(w) == (a + i) % m);
    assert((a + i) % m == (p + i) % m) by {
        lemma_add_mod_noop(a, i, m);
        lemma_add_mod_noop_right(p, i, m);
    }
    assert(0 <= q < m);
    assert(0 <= p < m);
    assert((q == (p + i) % m) == ((q - p) % m == i)) by (nonlinear_arith)
        requires
            0 <= q < m,
            0 <= p < m,
            0 <= i < m,
    ;
}

proof fn lemma_page_number_indices(v: u64, w: u64)
    by (bit_vector)
    ensures
        ((v / 0x1000u64) % 0x10_0000_0000u64 == (w / 0x1000u64) % 0x10_0000_0000u64) <==> (
        (v / 0x80_0000_0000u64) % 512u64 == (w / 0x80_0000_0000u64) % 512u64
            && (v / 0x4000_0000u64) % 512u64 == (w / 0x4000_0000u64) % 512u64
            && (v / 0x20_0000u64) % 512u64 == (w / 0x20_0000u64) % 512u64
            && (v / 0x1000u64) % 512u64 == (w / 0x1000u64) % 512u64),
        ((v / 0x20_0000u64) % 0x800_0000u64 == (w / 0x20_0000u64) % 0x800_0000u64) <==> (
        (v / 0x80_0000_0000u64) % 512u64 == (w / 0x80_0000_0000u64) % 512u64
            && (v / 0x4000_0000u64) % 512u64 == (w / 0x4000_0000u64) % 512u64
            && (v / 0x20_0000u64) % 512u64 == (w / 0x20_0000u64) % 512u64),
{
}

/// Whether one of the requests `from` to `to` (excluded) of `q` was taken
/// and gave frame `a`.
pub open spec fn granted(q: Seq<TableRequest>, from: int, to: int, a: u64) -> bool {
    exists|j: int| from <= j < to && (#[trigger] q[j]).accepted && q[j].result == Ok::<u64, BootError>(a)
}

proof fn lemma_granted_split(q: Seq<TableRequest>, a: int, b: int, c: int, x: u64)
    requires
        a <= b <= c,
    ensures
        granted(q, a, c, x) == (granted(q, a, b, x) || granted(q, b, c, x)),
{
    if granted(q, a, c, x) {
        let j = choose|j: int| a <= j < c && (#[trigger] q[j]).accepted && q[j].result == Ok::<u64, BootError>(x);
        if j < b {
            assert(granted(q, a, b, x));
        } else {
            assert(granted(q, b, c, x));
        }
    }
    if granted(q, a, b, x) {
        let j = choose|j: int| a <= j < b && (#[trigger] q[j]).accepted && q[j].result == Ok::<u64, BootError>(x);
        assert(granted(q, a, c, x));
    }
    if granted(q, b, c, x) {
        let j = choose|j: int| b <= j < c && (#[trigger] q[j]).accepted && q[j].result == Ok::<u64, BootError>(x);
        assert(granted(q, a, c, x));
    }
}

proof fn lemma_granted_prefix(q: Seq<TableRequest>, p: Seq<TableRequest>, a: int, b: int, x: u64)
    requires
        0 <= a,
        b <= p.len() <= q.len(),
        q.subrange(0, p.len() as int) == p,
    ensures
        granted(q, a, b, x) == granted(p, a, b, x),
{
    if granted(q, a, b, x) {
        let j = choose|j: int| a <= j < b && (#[trigger] q[j]).accepted && q[j].result == Ok::<u64, BootError>(x);
        assert(q[j] == q.subrange(0, p.len() as int)[j]);
        assert(granted(p, a, b, x));
    }
    if granted(p, a, b, x) {
        let j = choose|j: int| a <= j < b && (#[trigger] p[j]).accepted && p[j].result == Ok::<u64, BootError>(x);
        assert(q[j] == q.subrange(0, p.len() as int)[j]);
        assert(granted(q, a, b, x));
    }
}

/// `r` is what the allocator's answer `frame` gives for new tables: its
/// error as is; `AllocationFailed` for a frame that is not 4 KiB aligned
/// below 2^52; else well-formed, empty tables whose PML4 is that frame,
/// with no table request made.
pub open spec fn built_from_frame(r: BootResult<PageTableManager>, frame: BootResult<u64>) -> bool {
    match frame {
        Err(e) => r == Err::<PageTableManager, BootError>(e),
        Ok(f) => if frame_ok(f) {
            r matches Ok(m) && {
                &&& m.wf()
                &&& m.root() == f
                &&& forall|v: u64| #[trigger] m.translate(v) == None::<int>
                &&& forall|v: u64| #[trigger] m.leaf(v) == None::<u64>
                &&& m.table_requests().len() == 0
            }
        } else {
            r == Err::<PageTableManager, BootError>(BootError::Memory(MemoryError::AllocationFailed))
        },
    }
}

/// Through any sequence of states, each taken from the one before by an
/// operation that keeps the root (as every operation on the tables
/// ensures), the root stays the frame the first state was built from.
pub proof fn law_root_never_moves(states: Seq<PageTableManager>, frame: u64)
    requires
        states.len() > 0,
        built_from_frame(Ok::<PageTableManager, BootError>(states[0]), Ok::<u64, BootError>(frame)),
        forall|i: int| #![trigger states[i]] 0 < i < states.len() ==> states[i].root() == states[i - 1].root(),
    ensures
        forall|i: int| 0 <= i < states.len() ==> #[trigger] states[i].root() == frame,
    decreases states.len(),
{
    if states.len() > 1 {
        let before = states.drop_last();
        assert forall|i: int| #![trigger before[i]] 0 < i < before.len() implies before[i].root() == before[i - 1].root() by {
            assert(states[i].root() == states[i - 1].root());
        }
        law_root_never_moves(before, frame);
        let n = states.len() - 1;
        assert(states[n].root() == states[n - 1].root());
        assert(before[n - 1].root() == frame);
        assert forall|i: int| 0 <= i < states.len() implies #[trigger] states[i].root() == frame by {
            if i < n {
                assert(before[i].root() == frame);
            }
        }
    }
}

/// One call `allocate_frame(count)` made for a new table (`count` is
/// always 1): what the allocator gave back, and whether the frame was taken
/// (an entry can hold it and no table lives there yet).
pub struct TableRequest {
    pub count: usize,
    pub result: BootResult<u64>,
    pub accepted: bool,
}

/// Page tables under construction, with the frames that hold them and the
/// frame requests made for new tables.
///
/// Every operation that can fail states two things of its requests
/// (`extends_requests`, `failed_on_request`): which frames it took and why
/// it refused the others, and that a failure is always the last request's
/// refusal, so an allocator that hands out usable frames never makes one
/// fail.
pub struct PageTableManager {
    pml4_phys_addr: u64,
    frames: Vec<u64>,
    entries: Vec<u64>,
    levels: Ghost<Seq<int>>,
    prefixes: Ghost<Seq<Seq<int>>>,
    requests: Ghost<Seq<TableRequest>>,
}

impl PageTableManager {
    /// Physical address of the root table (PML4).
    pub closed spec fn root(self) -> u64 {
        self.pml4_phys_addr
    }

    /// The frame requests made for new tables, oldest first.
    pub closed spec fn table_requests(self) -> Seq<TableRequest> {
        self.requests@
    }

    /// `self` made the requests of `before`, then only requests of one
    /// frame each, explained as `requests_explained` says.
    pub open spec fn extends_requests(self, before: Self) -> bool {
        let q = self.table_requests();
        let n0 = before.table_requests().len() as int;
        &&& n0 <= q.len()
        &&& q.subrange(0, n0) == before.table_requests()
        &&& forall|i: int| n0 <= i < q.len() ==> #[trigger] q[i].count == 1
        &&& self.requests_explained(before)
    }

    /// Each request made since `before` was taken exactly when it gave a
    /// frame that an entry can hold, that held no table of `before` and that
    /// no earlier of those requests had given; and the tables of `self` are
    /// those of `before` and the frames taken.
    #[verifier::opaque]
    pub open spec fn requests_explained(self, before: Self) -> bool {
        let q = self.table_requests();
        let n0 = before.table_requests().len() as int;
        &&& forall|i: int|
            n0 <= i < q.len() ==> (#[trigger] q[i]).accepted == (q[i].result matches Ok(f) && frame_ok(f)
                && !before.has_table(f) && !granted(q, n0, i, f))
        &&& forall|a: u64| #[trigger] self.has_table(a) == (before.has_table(a) || granted(q, n0, q.len() as int, a))
    }

    /// If `r` is an error, it comes from the last request, made since
    /// `before` and refused: the allocator's own error, or `AllocationFailed`
    /// for a frame that cannot hold a table.
    pub open spec fn failed_on_request<T>(self, before: Self, r: BootResult<T>) -> bool {
        r matches Err(err) ==> {
            &&& self.table_requests().len() > before.table_requests().len()
            &&& !self.table_requests().last().accepted
            &&& err == match self.table_requests().last().result {
                Err(e) => e,
                Ok(_) => BootError::Memory(MemoryError::AllocationFailed),
            }
        }
    }

    /// The same tables, whatever the requests.
    spec fn same_tables(self, o: Self) -> bool {
        &&& self.pml4_phys_addr == o.pml4_phys_addr
        &&& self.frames@ == o.frames@
        &&& self.entries@ == o.entries@
        &&& self.levels == o.levels
        &&& self.prefixes == o.prefixes
    }

    proof fn lemma_same_tables(self, o: Self)
        requires
            self.same_tables(o),
            o.wf(),
        ensures
            self.wf(),
            self.root() == o.root(),
            forall|v: u64| #[trigger] self.translate(v) == o.translate(v),
            forall|v: u64| #[trigger] self.leaf(v) == o.leaf(v),
            forall|v: u64| #[trigger] self.pd_of(v) == o.pd_of(v),
            forall|v: u64| #[trigger] self.pt_of(v) == o.pt_of(v),
            forall|v: u64| #[trigger] self.pt_frame(v) == o.pt_frame(v),
            forall|a: u64| #[trigger] self.has_table(a) == o.has_table(a),
            forall|k: int, j: int| #[trigger] self.entry(k, j) == o.entry(k, j),
            forall|a: u64| o.has_table(a) ==> #[trigger] self.table_index(a) == o.table_index(a),
    {
        assert forall|a: u64| o.has_table(a) implies #[trigger] self.table_index(a) == o.table_index(a) by {
            o.lemma_table_index(a);
            self.lemma_table_index(a);
        }
        assert forall|k: int, j: int| 0 <= k < o.frames@.len() && 0 <= j < 512 implies #[trigger] self.entry_ok(k, j) by {
            assert(o.entry_ok(k, j));
        }
        assert forall|v: u64| #[trigger] self.pdpt_of(v) == o.pdpt_of(v) by {}
        assert forall|v: u64| #[trigger] self.pd_of(v) == o.pd_of(v) by {
            assert(self.pdpt_of(v) == o.pdpt_of(v));
        }
        assert forall|v: u64| #[trigger] self.pt_of(v) == o.pt_of(v) by {
            assert(self.pd_of(v) == o.pd_of(v));
        }
        assert forall|v: u64| #[trigger] self.translate(v) == o.translate(v) by {
            assert(self.pd_of(v) == o.pd_of(v));
            assert(self.pt_of(v) == o.pt_of(v));
        }
        assert forall|v: u64| #[trigger] self.leaf(v) == o.leaf(v) by {
            assert(self.pd_of(v) == o.pd_of(v));
            assert(self.pt_of(v) == o.pt_of(v));
        }
        assert forall|v: u64| #[trigger] self.pt_frame(v) == o.pt_frame(v) by {
            assert(self.pt_of(v) == o.pt_of(v));
        }
    }

    proof fn lemma_requests_trans(self, mid: Self, before: Self)
        requires
            mid.extends_requests(before),
            self.extends_requests(mid),
        ensures
            self.extends_requests(before),
    {
        reveal(PageTableManager::requests_explained);
        let q = self.table_requests();
        let qm = mid.table_requests();
        let n = before.table_requests().len() as int;
        let m = qm.len() as int;
        assert(q.subrange(0, n) =~= qm.subrange(0, n));
        assert forall|i: int| 0 <= i < m implies #[trigger] q[i] == qm[i] by {
            assert(q[i] == q.subrange(0, m)[i]);
        }
        assert forall|i: int| n <= i < q.len() implies #[trigger] q[i].count == 1 by {
            if i < m {
                assert(qm[i].count == 1);
            }
        }
        assert forall|i: int| n <= i < q.len() implies (#[trigger] q[i]).accepted == (q[i].result matches Ok(f)
            && frame_ok(f) && !before.has_table(f) && !granted(q, n, i, f)) by {
            if i < m {
                assert(q[i] == qm[i]);
                if let Ok(f) = q[i].result {
                    lemma_granted_prefix(q, qm, n, i, f);
                }
            } else {
                if let Ok(f) = q[i].result {
                    lemma_granted_prefix(q, qm, n, m, f);
                    lemma_granted_split(q, n, m, i, f);
                    assert(mid.has_table(f) == (before.has_table(f) || granted(qm, n, m, f)));
                }
            }
        }
        assert forall|a: u64| #[trigger] self.has_table(a) == (before.has_table(a) || granted(q, n, q.len() as int, a)) by {
            lemma_granted_prefix(q, qm, n, m, a);
            lemma_granted_split(q, n, m, q.len() as int, a);
            assert(mid.has_table(a) == (before.has_table(a) || granted(qm, n, m, a)));
            assert(self.has_table(a) == (mid.has_table(a) || granted(q, m, q.len() as int, a)));
        }
    }

    proof fn lemma_requests_refl(self)
        ensures
            self.extends_requests(self),
    {
        reveal(PageTableManager::requests_explained);
        let q = self.table_requests();
        assert(q.subrange(0, q.len() as int) =~= q);
        assert forall|a: u64| #[trigger] self.has_table(a) == (self.has_table(a) || granted(q, q.len() as int, q.len() as int, a)) by {
            if granted(q, q.len() as int, q.len() as int, a) {
                let j = choose|j: int| q.len() <= j < q.len() && (#[trigger] q[j]).accepted && q[j].result == Ok::<u64, BootError>(a);
            }
        }
    }

    /// One refused request: the tables are as they were.
    proof fn lemma_refused_extends(self, before: Self)
        requires
            self.same_tables(before),
            self.table_requests().len() == before.table_requests().len() + 1,
            self.table_requests().drop_last() == before.table_requests(),
            self.table_requests().last().count == 1,
            !self.table_requests().last().accepted,
            !(self.table_requests().last().result matches Ok(f) && frame_ok(f) && !before.has_table(f)),
        ensures
            self.extends_requests(before),
    {
        reveal(PageTableManager::requests_explained);
        let q = self.table_requests();
        let n = before.table_requests().len() as int;
        assert(q.subrange(0, n) =~= q.drop_last());
        assert forall|a: u64| #[trigger] self.has_table(a) == (before.has_table(a) || granted(q, n, q.len() as int, a)) by {
            if granted(q, n, q.len() as int, a) {
                let j = choose|j: int| n <= j < q.len() && (#[trigger] q[j]).accepted && q[j].result == Ok::<u64, BootError>(a);
                assert(j == n);
            }
            assert(self.frames@ == before.frames@);
        }
        assert forall|i: int| n <= i < q.len() implies (#[trigger] q[i]).accepted == (q[i].result matches Ok(f)
            && frame_ok(f) && !before.has_table(f) && !granted(q, n, i, f)) by {
            assert(i == n);
            if let Ok(f) = q[i].result {
                if granted(q, n, i, f) {
                    let j = choose|j: int| n <= j < i && (#[trigger] q[j]).accepted && q[j].result == Ok::<u64, BootError>(f);
                }
            }
        }
    }

    /// A write to an entry keeps what the requests explain.
    proof fn lemma_extends_after_write(self, mid: Self, before: Self)
        requires
            mid.extends_requests(before),
            self.frames@ == mid.frames@,
            self.table_requests() == mid.table_requests(),
        ensures
            self.extends_requests(before),
    {
        reveal(PageTableManager::requests_explained);
        assert forall|a: u64| #[trigger] self.has_table(a) == mid.has_table(a) by {}
    }

    proof fn lemma_has_after_push(self, t: Self, f: u64)
        requires
            t.frames@ == self.frames@.push(f),
        ensures
            forall|a: u64| #[trigger] t.has_table(a) == (self.has_table(a) || a == f),
    {
        assert forall|a: u64| #[trigger] t.has_table(a) == (self.has_table(a) || a == f) by {
            if self.has_table(a) {
                let i = choose|i: int| 0 <= i < self.frames@.len() && self.frames@[i] == a;
                assert(t.frames@[i] == a);
            }
            if a == f {
                assert(t.frames@[self.frames@.len() as int] == a);
            }
            if t.has_table(a) {
                let i = choose|i: int| 0 <= i < t.frames@.len() && t.frames@[i] == a;
                if i < self.frames@.len() {
                    assert(self.frames@[i] == a);
                }
            }
        }
    }

    /// One request taken, whose frame `f` became the one new table.
    proof fn lemma_taken_extends(self, before: Self, f: u64)
        requires
            self.table_requests().len() == before.table_requests().len() + 1,
            self.table_requests().drop_last() == before.table_requests(),
            self.table_requests().last().count == 1,
            self.table_requests().last().accepted,
            self.table_requests().last().result == Ok::<u64, BootError>(f),
            frame_ok(f),
            !before.has_table(f),
            forall|a: u64| #[trigger] self.has_table(a) == (before.has_table(a) || a == f),
        ensures
            self.extends_requests(before),
    {
        reveal(PageTableManager::requests_explained);
        let q = self.table_requests();
        let n = before.table_requests().len() as int;
        assert(q.subrange(0, n) =~= q.drop_last());
        assert forall|a: u64| #[trigger] self.has_table(a) == (before.has_table(a) || granted(q, n, q.len() as int, a)) by {
            if granted(q, n, q.len() as int, a) {
                let j = choose|j: int| n <= j < q.len() && (#[trigger] q[j]).accepted && q[j].result == Ok::<u64, BootError>(a);
                assert(j == n);
            }
            if a == f {
                assert(q[n].accepted && q[n].result == Ok::<u64, BootError>(a));
            }
        }
        assert forall|i: int| n <= i < q.len() implies (#[trigger] q[i]).accepted == (q[i].result matches Ok(g)
            && frame_ok(g) && !before.has_table(g) && !granted(q, n, i, g)) by {
            assert(i == n);
            if granted(q, n, i, f) {
                let j = choose|j: int| n <= j < i && (#[trigger] q[j]).accepted && q[j].result == Ok::<u64, BootError>(f);
            }
        }
    }

    /// Whether `a` is the address of one of the tables.
    pub closed spec fn has_table(self, a: u64) -> bool {
        self.frames@.contains(a)
    }

    spec fn entry(self, k: int, j: int) -> u64 {
        self.entries@[512 * k + j]
    }

    spec fn table_index(self, a: u64) -> int {
        choose|c: int| 0 <= c < self.frames@.len() && self.frames@[c] == a
    }

    spec fn entry_ok(self, k: int, j: int) -> bool {
        let e = self.entry(k, j);
        let lv = self.levels@[k];
        &&& (entry_present(e) && (lv >= 3 || (lv == 2 && !entry_huge(e)))) ==> {
            &&& self.has_table(entry_frame(e))
            &&& self.levels@[self.table_index(entry_frame(e))] == lv - 1
            &&& self.prefixes@[self.table_index(entry_frame(e))] == self.prefixes@[k].push(j)
        }
        &&& (entry_present(e) && lv == 2 && entry_huge(e)) ==> entry_frame(e) % 0x20_0000u64 == 0
    }

    spec fn frames_distinct(self) -> bool {
        forall|a: int, b: int|
            0 <= a < self.frames@.len() && 0 <= b < self.frames@.len() && a != b
                ==> #[trigger] self.frames@[a] != #[trigger] self.frames@[b]
    }

    /// The tables are well formed: each table pointer leads to a table one
    /// level down reached by one path only, frames are distinct and usable,
    /// and 2 MiB pages are 2 MiB aligned.
    pub closed spec fn wf(self) -> bool {
        let n = self.frames@.len();
        &&& n >= 1
        &&& self.entries@.len() == 512 * n
        &&& self.frames@[0] == self.pml4_phys_addr
        &&& self.levels@.len() == n
        &&& self.prefixes@.len() == n
        &&& self.levels@[0] == 4
        &&& forall|k: int| 0 < k < n ==> #[trigger] self.levels@[k] <= 3
        &&& self.frames_distinct()
        &&& forall|k: int| 0 <= k < n ==> frame_ok(#[trigger] self.frames@[k])
        &&& forall|k: int|
            0 <= k < n ==> 1 <= #[trigger] self.levels@[k] <= 4 && self.prefixes@[k].len() == 4
                - self.levels@[k]
        &&& forall|k: int, j: int| 0 <= k < n && 0 <= j < 512 ==> #[trigger] self.entry_ok(k, j)
    }

    /// The PDPT a walk for `v` reaches.
    pub closed spec fn pdpt_of(self, v: u64) -> Option<int> {
        let e = self.entry(0, pml4_index(v));
        if entry_present(e) && self.has_table(entry_frame(e)) {
            Some(self.table_index(entry_frame(e)))
        } else {
            None
        }
    }

    /// The PD a walk for `v` reaches.
    pub closed spec fn pd_of(self, v: u64) -> Option<int> {
        match self.pdpt_of(v) {
            Some(k) => {
                let e = self.entry(k, pdpt_index(v));
                if entry_present(e) && self.has_table(entry_frame(e)) {
                    Some(self.table_index(entry_frame(e)))
                } else {
                    None
                }
            },
            None => None,
        }
    }

    /// The PT a walk for `v` reaches (none where the PD maps a 2 MiB page).
    pub closed spec fn pt_of(self, v: u64) -> Option<int> {
        match self.pd_of(v) {
            Some(k) => {
                let e = self.entry(k, pd_index(v));
                if entry_present(e) && !entry_huge(e) && self.has_table(entry_frame(e)) {
                    Some(self.table_index(entry_frame(e)))
                } else {
                    None
                }
            },
            None => None,
        }
    }

    /// The frame of the PT a walk for `v` reaches, if it reaches one.
    pub closed spec fn pt_frame(self, v: u64) -> Option<u64> {
        match self.pt_of(v) {
            Some(k) => Some(self.frames@[k]),
            None => None,
        }
    }

    /// The PD entry the walk for `v` reaches, if it reaches a PD.
    spec fn pd_slot(self, v: u64) -> Option<u64> {
        match self.pd_of(v) {
            Some(k) => Some(self.entry(k, pd_index(v))),
            None => None,
        }
    }

    /// The leaf of `v` once a 2 MiB page covering `virt` is split into 4 KiB
    /// pages that keep its flags: in the region of `virt`, where the walk
    /// ended at a 2 MiB page, the PT entry of the split for `v`; elsewhere
    /// the leaf `v` has now.
    pub open spec fn leaf_after_split(self, virt: u64, v: u64) -> Option<u64> {
        if region_number(v) == region_number(virt) && self.pt_of(v) is None && self.leaf(v) is Some {
            Some(split_entry(self.leaf(v)->0, pt_index(v)))
        } else {
            self.leaf(v)
        }
    }

    /// The entry the walk for `v` ends at, with its frame and flags: the
    /// PT entry of a 4 KiB page or the PD entry of a 2 MiB page; none where
    /// `v` is not mapped.
    pub closed spec fn leaf(self, v: u64) -> Option<u64> {
        match self.pd_of(v) {
            None => None,
            Some(k2) => {
                let e = self.entry(k2, pd_index(v));
                if !entry_present(e) {
                    None
                } else if entry_huge(e) {
                    Some(e)
                } else {
                    match self.pt_of(v) {
                        None => None,
                        Some(k1) => {
                            let e1 = self.entry(k1, pt_index(v));
                            if entry_present(e1) {
                                Some(e1)
                            } else {
                                None
                            }
                        },
                    }
                }
            },
        }
    }

    /// The physical address the four-level walk maps `v` to, if any.
    pub closed spec fn translate(self, v: u64) -> Option<int> {
        match self.pd_of(v) {
            None => None,
            Some(k2) => {
                let e = self.entry(k2, pd_index(v));
                if !entry_present(e) {
                    None
                } else if entry_huge(e) {
                    Some(entry_frame(e) + v % 0x20_0000u64)
                } else {
                    match self.pt_of(v) {
                        None => None,
                        Some(k1) => {
                            let e1 = self.entry(k1, pt_index(v));
                            if entry_present(e1) {
                                Some(entry_frame(e1) + v % 0x1000u64)
                            } else {
                                None
                            }
                        },
                    }
                }
            },
        }
    }

    proof fn lemma_table_index(self, a: u64)
        requires
            self.frames_distinct(),
            self.has_table(a),
        ensures
            0 <= self.table_index(a) < self.frames@.len(),
            self.frames@[self.table_index(a)] == a,
            forall|c: int|
                0 <= c < self.frames@.len() && #[trigger] self.frames@[c] == a ==> c
                    == self.table_index(a),
    {
        let i = choose|i: int| 0 <= i < self.frames@.len() && self.frames@[i] == a;
        assert(0 <= i < self.frames@.len() && self.frames@[i] == a);
    }

    proof fn lemma_shape(self, v: u64)
        requires
            self.wf(),
        ensures
            self.pdpt_of(v) matches Some(k) ==> 0 <= k < self.frames@.len() && self.levels@[k] == 3
                && self.prefixes@[k] == path_above(v, 3),
            self.pd_of(v) matches Some(k) ==> 0 <= k < self.frames@.len() && self.levels@[k] == 2
                && self.prefixes@[k] == path_above(v, 2),
            self.pt_of(v) matches Some(k) ==> 0 <= k < self.frames@.len() && self.levels@[k] == 1
                && self.prefixes@[k] == path_above(v, 1),
    {
        let i4 = pml4_index(v);
        let i3 = pdpt_index(v);
        let i2 = pd_index(v);
        assert(self.entry_ok(0, i4));
        assert(self.prefixes@[0] =~= Seq::<int>::empty());
        if let Some(k3) = self.pdpt_of(v) {
            self.lemma_table_index(entry_frame(self.entry(0, i4)));
            assert(self.prefixes@[k3] =~= path_above(v, 3));
            assert(self.entry_ok(k3, i3));
            if let Some(k2) = self.pd_of(v) {
                self.lemma_table_index(entry_frame(self.entry(k3, i3)));
                assert(self.prefixes@[k2] =~= path_above(v, 2));
                assert(self.entry_ok(k2, i2));
                if let Some(k1) = self.pt_of(v) {
                    self.lemma_table_index(entry_frame(self.entry(k2, i2)));
                    assert(self.prefixes@[k1] =~= path_above(v, 1));
                }
            }
        }
    }
}


impl PageTableManager {
    /// Whether the walk for `v` reads entry `j` of table `k`.
    spec fn reads(self, v: u64, k: int, j: int) -> bool {
        ||| (k == 0 && j == pml4_index(v))
        ||| (self.pdpt_of(v) == Some(k) && j == pdpt_index(v))
        ||| (self.pd_of(v) == Some(k) && j == pd_index(v))
        ||| (self.pt_of(v) == Some(k) && j == pt_index(v))
    }

    /// `t` is `self` with entry `j` of table `k` replaced.
    spec fn one_write(self, t: Self, k: int, j: int) -> bool {
        &&& 0 <= k < self.frames@.len()
        &&& 0 <= j < 512
        &&& self.entries@.len() == 512 * self.frames@.len()
        &&& t.frames@ == self.frames@
        &&& t.levels == self.levels
        &&& t.prefixes == self.prefixes
        &&& t.pml4_phys_addr == self.pml4_phys_addr
        &&& t.entries@ == self.entries@.update(512 * k + j, t.entry(k, j))
    }

    /// A write to an entry no walk for `v` reads leaves the walk for `v` alone.
    proof fn lemma_unread(self, t: Self, k: int, j: int, v: u64)
        requires
            self.one_write(t, k, j),
            !self.reads(v, k, j),
        ensures
            t.pdpt_of(v) == self.pdpt_of(v),
            t.pd_of(v) == self.pd_of(v),
            t.pt_of(v) == self.pt_of(v),
            t.translate(v) == self.translate(v),
            t.leaf(v) == self.leaf(v),
    {
        let n = self.frames@.len();
        assert(forall|a: int, b: int|
            0 <= a < n && 0 <= b < 512 && (a != k || b != j) ==> #[trigger] t.entry(a, b)
                == self.entry(a, b));
        assert(t.entry(0, pml4_index(v)) == self.entry(0, pml4_index(v)));
        if let Some(k3) = self.pdpt_of(v) {
            assert(t.entry(k3, pdpt_index(v)) == self.entry(k3, pdpt_index(v)));
            if let Some(k2) = self.pd_of(v) {
                assert(t.entry(k2, pd_index(v)) == self.entry(k2, pd_index(v)));
                if let Some(k1) = self.pt_of(v) {
                    assert(t.entry(k1, pt_index(v)) == self.entry(k1, pt_index(v)));
                }
            }
        }
    }

    /// In well-formed tables, a walk reads an entry only along the path the
    /// entry's table was created for.
    proof fn lemma_reads_path(self, v: u64, k: int, j: int)
        requires
            self.wf(),
            0 <= k < self.frames@.len(),
            self.reads(v, k, j),
        ensures
            path_above(v, self.levels@[k]) == self.prefixes@[k],
            index_at(v, self.levels@[k]) == j,
    {
        self.lemma_shape(v);
        assert(self.prefixes@[0] =~= Seq::<int>::empty());
        assert(path_above(v, 4) =~= Seq::<int>::empty());
    }

    /// A write keeps the tables well formed if the written entry is.
    proof fn lemma_write_wf(self, t: Self, k: int, j: int)
        requires
            self.wf(),
            self.one_write(t, k, j),
            t.entry_ok(k, j),
        ensures
            t.wf(),
    {
        let n = self.frames@.len();
        assert forall|a: int, b: int| 0 <= a < n && 0 <= b < 512 implies #[trigger] t.entry_ok(a, b) by {
            if a != k || b != j {
                assert(t.entry(a, b) == self.entry(a, b));
                assert(self.entry_ok(a, b));
            }
        }
    }
}


impl PageTableManager {
    /// `t` is `self` with one more table, at frame `f`, holding `new`.
    spec fn one_push(self, t: Self, f: u64, new: Seq<u64>, level: int, prefix: Seq<int>) -> bool {
        &&& new.len() == 512
        &&& t.frames@ == self.frames@.push(f)
        &&& t.entries@ == self.entries@ + new
        &&& t.levels@ == self.levels@.push(level)
        &&& t.prefixes@ == self.prefixes@.push(prefix)
        &&& t.pml4_phys_addr == self.pml4_phys_addr
    }

    proof fn lemma_push_index(self, t: Self, f: u64, a: u64)
        requires
            self.frames_distinct(),
            t.frames@ == self.frames@.push(f),
            !self.has_table(f),
        ensures
            t.frames_distinct(),
            self.has_table(a) ==> t.has_table(a) && t.table_index(a) == self.table_index(a),
            t.has_table(f),
            t.table_index(f) == self.frames@.len(),
            a != f && !self.has_table(a) ==> !t.has_table(a),
    {
        let n = self.frames@.len();
        assert forall|x: int, y: int|
            0 <= x < t.frames@.len() && 0 <= y < t.frames@.len() && x != y implies #[trigger] t.frames@[x]
            != #[trigger] t.frames@[y] by {
            if x < n && y < n {
                assert(self.frames@[x] != self.frames@[y]);
            } else if x < n {
                assert(self.frames@.contains(self.frames@[x]));
            } else if y < n {
                assert(self.frames@.contains(self.frames@[y]));
            }
        }
        assert(t.frames@[n as int] == f);
        t.lemma_table_index(f);
        if self.has_table(a) {
            self.lemma_table_index(a);
            let c = self.table_index(a);
            assert(t.frames@[c] == a);
            t.lemma_table_index(a);
        }
        if a != f && !self.has_table(a) {
            if t.has_table(a) {
                t.lemma_table_index(a);
                let c = t.table_index(a);
                assert(c < n);
                assert(self.frames@[c] == a);
                assert(self.frames@.contains(a));
            }
        }
    }

    /// Adding a table no entry points to changes no walk and keeps the
    /// tables well formed.
    proof fn lemma_push(self, t: Self, f: u64, new: Seq<u64>, level: int, prefix: Seq<int>)
        requires
            self.wf(),
            self.one_push(t, f, new, level, prefix),
            frame_ok(f),
            !self.has_table(f),
            1 <= level <= 3,
            prefix.len() == 4 - level,
            level >= 2 ==> forall|i: int| 0 <= i < 512 ==> !entry_present(#[trigger] new[i]),
        ensures
            t.wf(),
            forall|v: u64|
                #![trigger t.translate(v)]
                #![trigger t.pt_of(v)]
                #![trigger t.pd_of(v)]
                #![trigger t.pdpt_of(v)]
                t.pdpt_of(v) == self.pdpt_of(v) && t.pd_of(v) == self.pd_of(v) && t.pt_of(v)
                    == self.pt_of(v) && t.translate(v) == self.translate(v),
            forall|v: u64| #[trigger] t.leaf(v) == self.leaf(v),
            t.has_table(f),
            t.table_index(f) == self.frames@.len(),
            t.frames_distinct(),
    {
        let n = self.frames@.len();
        self.lemma_push_index(t, f, f);
        assert forall|a: int, b: int| 0 <= a < n && 0 <= b < 512 implies #[trigger] t.entry(a, b)
            == self.entry(a, b) by {
            assert(512 * a + b < 512 * n);
        }
        assert forall|b: int| 0 <= b < 512 implies #[trigger] t.entry(n as int, b) == new[b] by {
            assert(512 * n + b == (self.entries@.len() + b));
        }
        assert forall|a: int, b: int| 0 <= a < t.frames@.len() && 0 <= b < 512 implies #[trigger] t.entry_ok(a, b) by {
            if a < n {
                assert(self.entry_ok(a, b));
                let e = self.entry(a, b);
                self.lemma_push_index(t, f, entry_frame(e));
                if entry_present(e) && (self.levels@[a] >= 3 || (self.levels@[a] == 2 && !entry_huge(e))) {
                    self.lemma_table_index(entry_frame(e));
                }
            } else {
                assert(t.entry(a, b) == new[b]);
            }
        }
        assert(t.wf());
        assert forall|v: u64|
            #![trigger t.translate(v)]
            #![trigger t.pt_of(v)]
            #![trigger t.pd_of(v)]
            #![trigger t.pdpt_of(v)]
            #![trigger t.leaf(v)]
            t.pdpt_of(v) == self.pdpt_of(v) && t.pd_of(v) == self.pd_of(v) && t.pt_of(v)
                == self.pt_of(v) && t.translate(v) == self.translate(v) && t.leaf(v) == self.leaf(v) by {
            self.lemma_shape(v);
            let e4 = self.entry(0, pml4_index(v));
            assert(self.entry_ok(0, pml4_index(v)));
            self.lemma_push_index(t, f, entry_frame(e4));
            assert(t.entry(0, pml4_index(v)) == e4);
            if let Some(k3) = self.pdpt_of(v) {
                let e3 = self.entry(k3, pdpt_index(v));
                assert(self.entry_ok(k3, pdpt_index(v)));
                self.lemma_push_index(t, f, entry_frame(e3));
                assert(t.entry(k3, pdpt_index(v)) == e3);
                if let Some(k2) = self.pd_of(v) {
                    let e2 = self.entry(k2, pd_index(v));
                    assert(self.entry_ok(k2, pd_index(v)));
                    self.lemma_push_index(t, f, entry_frame(e2));
                    assert(t.entry(k2, pd_index(v)) == e2);
                    if let Some(k1) = self.pt_of(v) {
                        assert(t.entry(k1, pt_index(v)) == self.entry(k1, pt_index(v)));
                    }
                }
            }
        }
    }
}


impl PageTableManager {
    fn contains_frame(&self, a: u64) -> (b: bool)
        ensures
            b == self.has_table(a),
    {
        let mut i: usize = 0;
        while i < self.frames.len()
            invariant
                i <= self.frames@.len(),
                forall|x: int| 0 <= x < i ==> self.frames@[x] != a,
            decreases self.frames@.len() - i,
        {
            if self.frames[i] == a {
                return true;
            }
            i = i + 1;
        }
        proof {
            if self.frames@.contains(a) {
                let x = choose|x: int| 0 <= x < self.frames@.len() && self.frames@[x] == a;
                assert(self.frames@[x] != a);
            }
        }
        false
    }

    fn find_table(&self, a: u64) -> (c: usize)
        requires
            self.wf(),
            self.has_table(a),
        ensures
            c == self.table_index(a),
            c < self.frames@.len(),
    {
        proof {
            self.lemma_table_index(a);
        }
        let mut i: usize = 0;
        while i < self.frames.len()
            invariant
                self.wf(),
                self.has_table(a),
                0 <= self.table_index(a) < self.frames@.len(),
                self.frames@[self.table_index(a)] == a,
                i <= self.table_index(a),
            decreases self.frames@.len() - i,
        {
            if self.frames[i] == a {
                proof {
                    self.lemma_table_index(a);
                }
                return i;
            }
            i = i + 1;
        }
        0
    }

    fn read_entry(&self, k: usize, j: usize) -> (e: u64)
        requires
            self.wf(),
            k < self.frames@.len(),
            j < 512,
        ensures
            e == self.entry(k as int, j as int),
    {
        let _len = self.entries.len();
        proof {
            assert(512 * k + j < self.entries@.len()) by (nonlinear_arith)
                requires
                    k < self.frames@.len(),
                    j < 512,
                    self.entries@.len() == 512 * self.frames@.len(),
            ;
        }
        self.entries[512 * k + j]
    }

    fn write_entry(&mut self, k: usize, j: usize, e: u64)
        requires
            old(self).wf(),
            k < old(self).frames@.len(),
            j < 512,
        ensures
            old(self).one_write(*final(self), k as int, j as int),
            final(self).entry(k as int, j as int) == e,
            final(self).table_requests() == old(self).table_requests(),
    {
        let _len = self.entries.len();
        proof {
            assert(512 * k + j < self.entries@.len()) by (nonlinear_arith)
                requires
                    k < self.frames@.len(),
                    j < 512,
                    self.entries@.len() == 512 * self.frames@.len(),
            ;
        }
        self.entries.set(512 * k + j, e);
    }

    /// Appends a table at frame `f` holding `contents`.
    fn push_table(
        &mut self,
        f: u64,
        contents: &Vec<u64>,
        Ghost(level): Ghost<int>,
        Ghost(prefix): Ghost<Seq<int>>,
    )
        requires
            old(self).wf(),
            frame_ok(f),
            !old(self).has_table(f),
            contents@.len() == 512,
            1 <= level <= 3,
            prefix.len() == 4 - level,
            level >= 2 ==> forall|i: int| 0 <= i < 512 ==> !entry_present(#[trigger] contents@[i]),
        ensures
            old(self).one_push(*final(self), f, contents@, level, prefix),
            final(self).wf(),
            forall|v: u64|
                #![trigger final(self).translate(v)]
                #![trigger final(self).pt_of(v)]
                #![trigger final(self).pd_of(v)]
                #![trigger final(self).pdpt_of(v)]
                final(self).pdpt_of(v) == old(self).pdpt_of(v) && final(self).pd_of(v) == old(
                    self,
                ).pd_of(v) && final(self).pt_of(v) == old(self).pt_of(v) && final(self).translate(v)
                    == old(self).translate(v),
            forall|v: u64| #[trigger] final(self).leaf(v) == old(self).leaf(v),
            final(self).has_table(f),
            final(self).table_index(f) == old(self).frames@.len(),
            final(self).table_requests() == old(self).table_requests(),
    {
        let ghost s = *self;
        self.frames.push(f);
        let mut i: usize = 0;
        while i < 512
            invariant
                i <= 512,
                contents@.len() == 512,
                self.frames@ == s.frames@.push(f),
                self.entries@ == s.entries@ + contents@.subrange(0, i as int),
                self.levels == s.levels,
                self.prefixes == s.prefixes,
                self.requests == s.requests,
                self.pml4_phys_addr == s.pml4_phys_addr,
            decreases 512 - i,
        {
            self.entries.push(contents[i]);
            i = i + 1;
            assert(self.entries@ =~= s.entries@ + contents@.subrange(0, i as int));
        }
        assert(contents@.subrange(0, 512) =~= contents@);
        self.levels = Ghost(self.levels@.push(level));
        self.prefixes = Ghost(self.prefixes@.push(prefix));
        proof {
            s.lemma_push(*self, f, contents@, level, prefix);
        }
    }

    /// Asks the allocator for one frame and accepts it only if an entry can
    /// hold it and no table lives there yet.
    fn alloc_table_frame<A: FrameAllocator + ?Sized>(&mut self, allocator: &mut A) -> (r: BootResult<u64>)
        ensures
            final(self).same_tables(*old(self)),
            final(self).table_requests().len() == old(self).table_requests().len() + 1,
            final(self).table_requests().drop_last() == old(self).table_requests(),
            final(self).table_requests().last().count == 1,
            final(self).table_requests().last().accepted == (final(self).table_requests().last().result matches Ok(f)
                && frame_ok(f) && !old(self).has_table(f)),
            final(self).table_requests().last().accepted ==> r == final(self).table_requests().last().result,
            final(self).table_requests().last().accepted == (r is Ok),
            final(self).failed_on_request(*old(self), r),
            r matches Ok(f) ==> frame_ok(f) && !old(self).has_table(f),
    {
        let result = allocator.allocate_frame(1);
        let r = match result {
            Ok(f) => {
                if f & ADDR_MASK == f && !self.contains_frame(f) {
                    Ok(f)
                } else {
                    Err(BootError::Memory(MemoryError::AllocationFailed))
                }
            },
            Err(e) => Err(e),
        };
        let ghost accepted = r is Ok;
        proof {
            self.requests@ = self.requests@.push(TableRequest { count: 1, result, accepted });
            assert(self.requests@.drop_last() =~= old(self).requests@);
            assert(self.requests@.subrange(0, old(self).requests@.len() as int) =~= old(self).requests@);
        }
        r
    }
}


fn zero_table() -> (t: Vec<u64>)
    ensures
        t@.len() == 512,
        forall|i: int| 0 <= i < 512 ==> #[trigger] t@[i] == 0,
{
    let mut t: Vec<u64> = Vec::new();
    let mut i: usize = 0;
    while i < 512
        invariant
            i <= 512,
            t@.len() == i,
            forall|x: int| 0 <= x < i ==> #[trigger] t@[x] == 0,
        decreases 512 - i,
    {
        t.push(0);
        i = i + 1;
    }
    t
}

impl PageTableManager {
    /// `self` extends `old`: old tables keep their frames, levels, paths and
    /// entries, except entry `j` of table `k`.
    spec fn keeps(self, old: Self, k: int, j: int) -> bool {
        let n = old.frames@.len();
        &&& self.frames@.len() >= n
        &&& self.frames@.subrange(0, n as int) == old.frames@
        &&& self.levels@.len() == self.frames@.len()
        &&& self.levels@.subrange(0, n as int) == old.levels@
        &&& self.prefixes@.len() == self.frames@.len()
        &&& self.prefixes@.subrange(0, n as int) == old.prefixes@
        &&& self.pml4_phys_addr == old.pml4_phys_addr
        &&& forall|a: int, b: int|
            0 <= a < n && 0 <= b < 512 && (a != k || b != j) ==> #[trigger] self.entry(a, b)
                == old.entry(a, b)
    }

    /// Linking a fresh, empty table below an absent entry changes no
    /// translation.
    proof fn lemma_link(self, t: Self, k: int, j: int, c: int, f: u64)
        requires
            self.wf(),
            self.one_write(t, k, j),
            t.entry(k, j) == f | 3u64,
            !entry_present(self.entry(k, j)),
            0 <= c < self.frames@.len(),
            self.frames@[c] == f,
            self.levels@[c] == self.levels@[k] - 1,
            self.prefixes@[c] == self.prefixes@[k].push(j),
            self.levels@[k] >= 2,
            forall|i: int| 0 <= i < 512 ==> #[trigger] self.entry(c, i) == 0,
        ensures
            t.wf(),
            forall|v: u64| #[trigger] t.translate(v) == self.translate(v),
            forall|v: u64| #[trigger] t.leaf(v) == self.leaf(v),
            entry_present(t.entry(k, j)),
            !entry_huge(t.entry(k, j)),
            entry_frame(t.entry(k, j)) == f,
    {
        assert(self.frames@.contains(f));
        self.lemma_table_index(f);
        lemma_flag_constants();
        lemma_entry_bits(f, 3u64);
        assert(c != k);
        assert forall|i: int| 0 <= i < 512 implies #[trigger] t.entry(c, i) == 0 by {
            assert(512 * c + i != 512 * k + j);
            assert(self.entry(c, i) == 0);
        }
        assert(t.entry_ok(k, j));
        self.lemma_write_wf(t, k, j);
        assert forall|v: u64|
            #![trigger t.translate(v)]
            #![trigger t.leaf(v)]
            t.translate(v) == self.translate(v) && t.leaf(v) == self.leaf(v) by {
            if !self.reads(v, k, j) {
                self.lemma_unread(t, k, j, v);
            } else {
                self.lemma_reads_path(v, k, j);
                self.lemma_shape(v);
                assert(t.entry(c, pml4_index(v)) == 0);
                assert(t.entry(c, pdpt_index(v)) == 0);
                assert(t.entry(c, pd_index(v)) == 0);
                assert(t.entry(c, pt_index(v)) == 0);
                if self.levels@[k] == 4 {
                    assert(t.entry(0, pml4_index(v)) == t.entry(k, j));
                } else if self.levels@[k] == 3 {
                    assert(self.pdpt_of(v) == Some(k));
                    assert(t.entry(0, pml4_index(v)) == self.entry(0, pml4_index(v)));
                } else {
                    assert(self.pd_of(v) == Some(k));
                    assert(t.entry(0, pml4_index(v)) == self.entry(0, pml4_index(v)));
                    let k3 = self.pdpt_of(v).unwrap();
                    assert(t.entry(k3, pdpt_index(v)) == self.entry(k3, pdpt_index(v)));
                }
            }
        }
    }

    /// The table below entry `j` of table `k`, created empty if the entry is
    /// absent.
    fn child_table<A: FrameAllocator + ?Sized>(&mut self, k: usize, j: usize, allocator: &mut A) -> (r:
        BootResult<usize>)
        requires
            old(self).wf(),
            k < old(self).frames@.len(),
            j < 512,
            old(self).levels@[k as int] >= 2,
            old(self).levels@[k as int] == 2 ==> !(entry_present(old(self).entry(k as int, j as int))
                && entry_huge(old(self).entry(k as int, j as int))),
        ensures
            final(self).wf(),
            final(self).keeps(*old(self), k as int, j as int),
            forall|a: u64| old(self).has_table(a) ==> #[trigger] final(self).has_table(a),
            forall|v: u64| #[trigger] final(self).translate(v) == old(self).translate(v),
            final(self).keeps_pts(*old(self)),
            entry_present(old(self).entry(k as int, j as int)) ==> r is Ok && *final(self) == *old(self),
            final(self).keeps_pds(*old(self)),
            forall|v: u64| #[trigger] final(self).leaf(v) == old(self).leaf(v),
            r matches Ok(c) ==> {
                &&& c < final(self).frames@.len()
                &&& final(self).levels@[c as int] == old(self).levels@[k as int] - 1
                &&& final(self).prefixes@[c as int] == old(self).prefixes@[k as int].push(j as int)
                &&& entry_present(final(self).entry(k as int, j as int))
                &&& (old(self).levels@[k as int] == 2 ==> !entry_huge(final(self).entry(k as int, j as int)))
                &&& final(self).has_table(entry_frame(final(self).entry(k as int, j as int)))
                &&& final(self).table_index(entry_frame(final(self).entry(k as int, j as int))) == c
            },
            r is Err ==> final(self).same_tables(*old(self)),
            final(self).extends_requests(*old(self)),
            final(self).failed_on_request(*old(self), r),
    {
        let ghost s0 = *self;
        assert(self.frames@.subrange(0, self.frames@.len() as int) =~= self.frames@);
        assert(self.levels@.subrange(0, self.frames@.len() as int) =~= self.levels@);
        assert(self.prefixes@.subrange(0, self.frames@.len() as int) =~= self.prefixes@);
        let e = self.read_entry(k, j);
        if e & PAGE_PRESENT != 0 {
            proof {
                assert(self.entry_ok(k as int, j as int));
                self.lemma_table_index(entry_frame(e));
            }
            let c = self.find_table(e & ADDR_MASK);
            proof {
                assert forall|a: u64| s0.has_table(a) implies #[trigger] self.has_table(a) by {}
                self.lemma_requests_refl();
            }
            Ok(c)
        } else {
            let f = match self.alloc_table_frame(allocator) {
                Ok(f) => f,
                Err(err) => {
                    proof {
                        self.lemma_same_tables(s0);
                        self.lemma_refused_extends(s0);
                    }
                    return Err(err);
                },
            };
            let ghost sa = *self;
            proof {
                self.lemma_same_tables(s0);
            }
            let zeros = zero_table();
            proof {
                lemma_flag_constants();
            }
            let ghost level = self.levels@[k as int] - 1;
            let ghost prefix = self.prefixes@[k as int].push(j as int);
            self.push_table(f, &zeros, Ghost(level), Ghost(prefix));
            let ghost s1 = *self;
            let c = self.frames.len() - 1;
            proof {
                assert(s1.frames@[c as int] == f);
                assert forall|i: int| 0 <= i < 512 implies #[trigger] s1.entry(c as int, i) == 0 by {
                    assert(512 * c + i == s0.entries@.len() + i);
                }
                assert forall|a: int, b: int| 0 <= a < s0.frames@.len() && 0 <= b < 512 implies #[trigger] s1.entry(a, b)
                    == s0.entry(a, b) by {
                    assert(512 * a + b < 512 * s0.frames@.len());
                }
            }
            self.write_entry(k, j, f | PAGE_PRESENT | PAGE_WRITABLE);
            proof {
                assert(f | PAGE_PRESENT | PAGE_WRITABLE == f | 3u64) by (bit_vector);
                s1.lemma_link(*self, k as int, j as int, c as int, f);
                s1.lemma_table_index(f);
                assert(self.frames@.subrange(0, s0.frames@.len() as int) =~= s0.frames@);
                assert(self.levels@.subrange(0, s0.frames@.len() as int) =~= s0.levels@);
                assert(self.prefixes@.subrange(0, s0.frames@.len() as int) =~= s0.prefixes@);
                assert forall|a: u64| s0.has_table(a) implies #[trigger] self.has_table(a) by {
                    self.lemma_keeps_has(s0, k as int, j as int, a);
                }
                assert(e & 1u64 == 0u64);
                assert forall|v: u64| s0.pt_frame(v) is Some implies #[trigger] self.pt_frame(v) == s0.pt_frame(v) by {
                    self.lemma_keeps_pt(s0, k as int, j as int, v);
                }
                assert(s1.frames@ == s0.frames@.push(f));
                assert(self.frames@ == s1.frames@);
                s0.lemma_has_after_push(*self, f);
                self.lemma_taken_extends(s0, f);
                assert forall|v: u64| s0.pd_of(v) is Some implies #[trigger] self.pd_of(v) == s0.pd_of(v) by {
                    self.lemma_keeps_pd(s0, k as int, j as int, v);
                }
            }
            Ok(c)
        }
    }
}


impl PageTableManager {
    proof fn lemma_keeps_has(self, old: Self, k: int, j: int, a: u64)
        requires
            self.keeps(old, k, j),
            old.has_table(a),
        ensures
            self.has_table(a),
    {
        let c = choose|c: int| 0 <= c < old.frames@.len() && old.frames@[c] == a;
        assert(self.frames@[c] == old.frames@.subrange(0, old.frames@.len() as int)[c]);
    }

    proof fn lemma_keeps_index(self, old: Self, k: int, j: int, a: u64)
        requires
            self.keeps(old, k, j),
            self.frames_distinct(),
            old.frames_distinct(),
            old.has_table(a),
        ensures
            self.has_table(a),
            self.table_index(a) == old.table_index(a),
    {
        old.lemma_table_index(a);
        let c = old.table_index(a);
        assert(self.frames@[c] == old.frames@.subrange(0, old.frames@.len() as int)[c]);
        assert(self.frames@[c] == a);
        assert(self.frames@.contains(a));
        self.lemma_table_index(a);
    }

    /// Every PT a walk reached in `old` is still reached, at the same frame.
    pub open spec fn keeps_pts(self, old: Self) -> bool {
        forall|v: u64| old.pt_frame(v) is Some ==> #[trigger] self.pt_frame(v) == old.pt_frame(v)
    }

    proof fn lemma_keeps_pts_trans(self, mid: Self, old: Self)
        requires
            mid.keeps_pts(old),
            self.keeps_pts(mid),
        ensures
            self.keeps_pts(old),
    {
        assert forall|v: u64| old.pt_frame(v) is Some implies #[trigger] self.pt_frame(v) == old.pt_frame(v) by {
            assert(mid.pt_frame(v) == old.pt_frame(v));
        }
    }

    /// Every PD a walk reached in `old` is still reached.
    pub open spec fn keeps_pds(self, old: Self) -> bool {
        forall|v: u64| old.pd_of(v) is Some ==> #[trigger] self.pd_of(v) == old.pd_of(v)
    }

    proof fn lemma_keeps_pds_trans(self, mid: Self, old: Self)
        requires
            mid.keeps_pds(old),
            self.keeps_pds(mid),
        ensures
            self.keeps_pds(old),
    {
        assert forall|v: u64| old.pd_of(v) is Some implies #[trigger] self.pd_of(v) == old.pd_of(v) by {
            assert(mid.pd_of(v) == old.pd_of(v));
        }
    }

    /// Replacing an entry of a PD or PT, or an absent entry, leaves every
    /// PD a walk reaches where it was.
    proof fn lemma_keeps_pd(self, old: Self, k: int, j: int, v: u64)
        requires
            self.keeps(old, k, j),
            self.wf(),
            old.wf(),
            0 <= k < old.frames@.len(),
            old.levels@[k] <= 2 || !entry_present(old.entry(k, j)),
            old.pd_of(v) is Some,
        ensures
            self.pd_of(v) == old.pd_of(v),
    {
        old.lemma_shape(v);
        let i4 = pml4_index(v);
        let i3 = pdpt_index(v);
        let k3 = old.pdpt_of(v).unwrap();
        assert(self.entry(0, i4) == old.entry(0, i4));
        self.lemma_keeps_index(old, k, j, entry_frame(old.entry(0, i4)));
        assert(self.entry(k3, i3) == old.entry(k3, i3));
        self.lemma_keeps_index(old, k, j, entry_frame(old.entry(k3, i3)));
    }

    /// Replacing an entry that is not a table pointer (a PT entry, an absent
    /// entry or a 2 MiB page) leaves every PT a walk reaches where it was.
    proof fn lemma_keeps_pt(self, old: Self, k: int, j: int, v: u64)
        requires
            self.keeps(old, k, j),
            self.wf(),
            old.wf(),
            0 <= k < old.frames@.len(),
            old.levels@[k] == 1 || !entry_present(old.entry(k, j)) || (old.levels@[k] == 2
                && entry_huge(old.entry(k, j))),
            old.pt_of(v) is Some,
        ensures
            self.pt_of(v) == old.pt_of(v),
            self.pt_frame(v) == old.pt_frame(v),
    {
        old.lemma_shape(v);
        let n = old.frames@.len();
        let i4 = pml4_index(v);
        let i3 = pdpt_index(v);
        let i2 = pd_index(v);
        let k3 = old.pdpt_of(v).unwrap();
        let k2 = old.pd_of(v).unwrap();
        let k1 = old.pt_of(v).unwrap();
        assert(self.entry(0, i4) == old.entry(0, i4));
        self.lemma_keeps_index(old, k, j, entry_frame(old.entry(0, i4)));
        assert(self.entry(k3, i3) == old.entry(k3, i3));
        self.lemma_keeps_index(old, k, j, entry_frame(old.entry(k3, i3)));
        assert(self.entry(k2, i2) == old.entry(k2, i2));
        self.lemma_keeps_index(old, k, j, entry_frame(old.entry(k2, i2)));
        assert(self.frames@[k1] == old.frames@.subrange(0, n as int)[k1]);
    }

    /// Writing an entry of a PD leaves the last entry of every walk that
    /// does not go through it.
    proof fn lemma_pd_slot_leaf(self, t: Self, k: int, j: int, v: u64)
        requires
            self.wf(),
            self.one_write(t, k, j),
            self.levels@[k] == 2,
            !(self.pd_of(v) == Some(k) && pd_index(v) == j),
        ensures
            t.leaf(v) == self.leaf(v),
    {
        self.lemma_shape(v);
        assert(self.levels@[0] == 4);
        self.lemma_unread(t, k, j, v);
    }

    /// A single write keeps every other entry.
    proof fn lemma_one_write_keeps(self, t: Self, k: int, j: int)
        requires
            self.wf(),
            self.one_write(t, k, j),
        ensures
            t.keeps(self, k, j),
    {
        let n = self.frames@.len();
        assert(t.frames@.subrange(0, n as int) =~= self.frames@);
        assert(t.levels@.subrange(0, n as int) =~= self.levels@);
        assert(t.prefixes@.subrange(0, n as int) =~= self.prefixes@);
        assert forall|a: int, b: int|
            0 <= a < n && 0 <= b < 512 && (a != k || b != j) implies #[trigger] t.entry(a, b)
            == self.entry(a, b) by {
            assert(512 * a + b != 512 * k + j) by (nonlinear_arith)
                requires
                    0 <= b < 512,
                    0 <= j < 512,
                    a != k || b != j,
            ;
        }
    }

    /// Writing entry `j` of the PT that `virt` reaches changes exactly the
    /// translations of the page of `virt`.
    proof fn lemma_pt_write(self, t: Self, k: int, j: int, virt: u64)
        requires
            self.wf(),
            self.one_write(t, k, j),
            self.pt_of(virt) == Some(k),
            j == pt_index(virt),
            entry_present(t.entry(k, j)),
        ensures
            t.wf(),
            forall|v: u64|
                #[trigger] t.translate(v) == if page_number(v) == page_number(virt) {
                    Some(entry_frame(t.entry(k, j)) + v % 0x1000u64)
                } else {
                    self.translate(v)
                },
            forall|v: u64|
                #[trigger] t.leaf(v) == if page_number(v) == page_number(virt) {
                    Some(t.entry(k, j))
                } else {
                    self.leaf(v)
                },
            forall|v: u64|
                page_number(v) == page_number(virt) ==> #[trigger] t.pt_of(v) == self.pt_of(virt),
    {
        self.lemma_shape(virt);
        self.lemma_write_wf(t, k, j);
        assert forall|v: u64|
            #![trigger t.translate(v)]
            #![trigger t.leaf(v)]
            t.translate(v) == (if page_number(v) == page_number(virt) {
                Some(entry_frame(t.entry(k, j)) + v % 0x1000u64)
            } else {
                self.translate(v)
            }) && t.leaf(v) == (if page_number(v) == page_number(virt) {
                Some(t.entry(k, j))
            } else {
                self.leaf(v)
            }) by {
            lemma_page_number_indices(v, virt);
            if page_number(v) == page_number(virt) {
                assert(self.pt_of(v) == self.pt_of(virt));
                assert(self.reads(v, k, j));
                self.lemma_shape(v);
                let k3 = self.pdpt_of(v).unwrap();
                let k2 = self.pd_of(v).unwrap();
                assert(t.entry(0, pml4_index(v)) == self.entry(0, pml4_index(v)));
                assert(t.entry(k3, pdpt_index(v)) == self.entry(k3, pdpt_index(v)));
                assert(t.entry(k2, pd_index(v)) == self.entry(k2, pd_index(v)));
            } else {
                if self.reads(v, k, j) {
                    self.lemma_reads_path(v, k, j);
                    assert(path_above(v, 1)[0] == path_above(virt, 1)[0]);
                    assert(path_above(v, 1)[1] == path_above(virt, 1)[1]);
                    assert(path_above(v, 1)[2] == path_above(virt, 1)[2]);
                }
                self.lemma_unread(t, k, j, v);
            }
        }
        assert forall|v: u64| page_number(v) == page_number(virt) implies #[trigger] t.pt_of(v) == self.pt_of(virt) by {
            lemma_page_number_indices(v, virt);
            assert(self.pt_of(v) == self.pt_of(virt));
            self.lemma_shape(v);
            let k3 = self.pdpt_of(v).unwrap();
            let k2 = self.pd_of(v).unwrap();
            assert(t.entry(0, pml4_index(v)) == self.entry(0, pml4_index(v)));
            assert(t.entry(k3, pdpt_index(v)) == self.entry(k3, pdpt_index(v)));
            assert(t.entry(k2, pd_index(v)) == self.entry(k2, pd_index(v)));
        }
    }

    /// Writing a 2 MiB page into entry `j` of the PD that `virt` reaches
    /// changes exactly the translations of the region of `virt`.
    proof fn lemma_pd_write(self, t: Self, k: int, j: int, virt: u64)
        requires
            self.wf(),
            self.one_write(t, k, j),
            self.pd_of(virt) == Some(k),
            j == pd_index(virt),
            entry_present(t.entry(k, j)),
            entry_huge(t.entry(k, j)),
            entry_frame(t.entry(k, j)) % 0x20_0000u64 == 0,
        ensures
            t.wf(),
            forall|v: u64|
                #[trigger] t.translate(v) == if region_number(v) == region_number(virt) {
                    Some(entry_frame(t.entry(k, j)) + v % 0x20_0000u64)
                } else {
                    self.translate(v)
                },
            forall|v: u64|
                #[trigger] t.leaf(v) == if region_number(v) == region_number(virt) {
                    Some(t.entry(k, j))
                } else {
                    self.leaf(v)
                },
    {
        self.lemma_shape(virt);
        self.lemma_write_wf(t, k, j);
        assert forall|v: u64|
            #![trigger t.translate(v)]
            #![trigger t.leaf(v)]
            t.translate(v) == (if region_number(v) == region_number(virt) {
                Some(entry_frame(t.entry(k, j)) + v % 0x20_0000u64)
            } else {
                self.translate(v)
            }) && t.leaf(v) == (if region_number(v) == region_number(virt) {
                Some(t.entry(k, j))
            } else {
                self.leaf(v)
            }) by {
            lemma_page_number_indices(v, virt);
            if region_number(v) == region_number(virt) {
                assert(self.pd_of(v) == self.pd_of(virt));
                self.lemma_shape(v);
                let k3 = self.pdpt_of(v).unwrap();
                assert(t.entry(0, pml4_index(v)) == self.entry(0, pml4_index(v)));
                assert(t.entry(k3, pdpt_index(v)) == self.entry(k3, pdpt_index(v)));
            } else {
                if self.reads(v, k, j) {
                    self.lemma_reads_path(v, k, j);
                    assert(path_above(v, 2)[0] == path_above(virt, 2)[0]);
                    assert(path_above(v, 2)[1] == path_above(virt, 2)[1]);
                }
                self.lemma_unread(t, k, j, v);
            }
        }
    }
}


impl PageTableManager {
    /// Splits the 2 MiB page in entry `j` of PD `k` into a PT of 512 pages
    /// of 4 KiB that map the same memory with the same flags (the PAT bit
    /// moves from bit 12 to bit 7). Returns the PT; an entry that already
    /// points to a PT returns that PT.
    ///
    /// If no frame can be had, nothing changes.
    fn split_huge_page_to_pt<A: FrameAllocator + ?Sized>(
        &mut self,
        k: usize,
        j: usize,
        allocator: &mut A,
    ) -> (r: BootResult<usize>)
        requires
            old(self).wf(),
            k < old(self).frames@.len(),
            j < 512,
            old(self).levels@[k as int] == 2,
            entry_present(old(self).entry(k as int, j as int)),
        ensures
            r matches Ok(c) ==> (entry_huge(old(self).entry(k as int, j as int)) ==> final(self).entry(k as int, j as int)
                == final(self).frames@[c as int] | (old(self).entry(k as int, j as int) & 7u64) | 3u64),
            final(self).wf(),
            final(self).keeps(*old(self), k as int, j as int),
            forall|a: u64| old(self).has_table(a) ==> #[trigger] final(self).has_table(a),
            forall|v: u64| #[trigger] final(self).translate(v) == old(self).translate(v),
            final(self).keeps_pts(*old(self)),
            !entry_huge(old(self).entry(k as int, j as int)) ==> r is Ok && *final(self) == *old(self),
            final(self).keeps_pds(*old(self)),
            forall|v: u64|
                !(old(self).pd_of(v) == Some(k as int) && pd_index(v) == j) ==> #[trigger] final(self).leaf(v)
                    == old(self).leaf(v),
            r is Ok && entry_huge(old(self).entry(k as int, j as int)) ==> forall|v: u64|
                old(self).pd_of(v) == Some(k as int) && pd_index(v) == j ==> #[trigger] final(self).leaf(v)
                    == Some(split_entry(old(self).entry(k as int, j as int), pt_index(v))),
            r matches Ok(c) ==> {
                &&& c < final(self).frames@.len()
                &&& final(self).levels@[c as int] == 1
                &&& final(self).prefixes@[c as int] == old(self).prefixes@[k as int].push(j as int)
                &&& entry_present(final(self).entry(k as int, j as int))
                &&& !entry_huge(final(self).entry(k as int, j as int))
                &&& final(self).has_table(entry_frame(final(self).entry(k as int, j as int)))
                &&& final(self).table_index(entry_frame(final(self).entry(k as int, j as int))) == c
            },
            r is Err ==> final(self).same_tables(*old(self)),
            final(self).extends_requests(*old(self)),
            final(self).failed_on_request(*old(self), r),
    {
        let ghost s0 = *self;
        assert(self.frames@.subrange(0, self.frames@.len() as int) =~= self.frames@);
        assert(self.levels@.subrange(0, self.frames@.len() as int) =~= self.levels@);
        assert(self.prefixes@.subrange(0, self.frames@.len() as int) =~= self.prefixes@);
        let huge_entry = self.read_entry(k, j);
        proof {
            assert(self.entry_ok(k as int, j as int));
        }
        if huge_entry & PAGE_HUGE == 0 {
            proof {
                self.lemma_table_index(entry_frame(huge_entry));
            }
            let c = self.find_table(huge_entry & ADDR_MASK);
            proof {
                self.lemma_requests_refl();
            }
            return Ok(c);
        }
        let huge_phys_base = huge_entry & ADDR_MASK;
        let mut preserved_flags = huge_entry & PRESERVED_FLAGS_MASK;
        if huge_entry & HUGE_PAGE_PAT_BIT != 0 {
            preserved_flags = preserved_flags | PAGE_PAT_4K;
        }
        proof {
            lemma_split_flags(huge_entry, preserved_flags);
            lemma_frame_ok_bits(huge_entry);
            lemma_frame_ok_bits(huge_phys_base);
            assert(huge_phys_base % 0x20_0000 == 0);
            assert(huge_phys_base <= 0x10_0000_0000_0000 - 0x20_0000);
        }
        let f = match self.alloc_table_frame(allocator) {
            Ok(f) => f,
            Err(err) => {
                proof {
                    self.lemma_same_tables(s0);
                    self.lemma_refused_extends(s0);
                }
                return Err(err);
            },
        };
        proof {
            self.lemma_same_tables(s0);
        }
        let mut pt: Vec<u64> = Vec::new();
        let mut i: usize = 0;
        while i < 512
            invariant
                i <= 512,
                pt@.len() == i,
                huge_phys_base <= 0x10_0000_0000_0000 - 0x20_0000,
                huge_phys_base % 0x1000 == 0,
                forall|x: int|
                    0 <= x < i ==> #[trigger] pt@[x] == (((huge_phys_base + x * 0x1000) as u64)
                        & 0x000F_FFFF_FFFF_F000u64) | preserved_flags,
            decreases 512 - i,
        {
            let page_phys = huge_phys_base + (i as u64) * PAGE_SIZE;
            pt.push((page_phys & ADDR_MASK) | preserved_flags);
            i = i + 1;
        }
        let ghost prefix = self.prefixes@[k as int].push(j as int);
        self.push_table(f, &pt, Ghost(1int), Ghost(prefix));
        let ghost s1 = *self;
        let c = self.frames.len() - 1;
        let pd_flags = (huge_entry & (PAGE_PRESENT | PAGE_WRITABLE | PAGE_USER)) | PAGE_PRESENT
            | PAGE_WRITABLE;
        proof {
            assert(pd_flags == (huge_entry & 7u64) | 3u64) by (bit_vector)
                requires
                    pd_flags == (huge_entry & (1u64 | 2u64 | 4u64)) | 1u64 | 2u64,
            ;
            lemma_entry_bits(f, pd_flags);
            assert(s1.frames@[c as int] == f);
            assert forall|a: int, b: int| 0 <= a < s0.frames@.len() && 0 <= b < 512 implies #[trigger] s1.entry(a, b)
                == s0.entry(a, b) by {
                assert(512 * a + b < 512 * s0.frames@.len());
            }
            assert forall|x: int| 0 <= x < 512 implies #[trigger] s1.entry(c as int, x) == pt@[x] by {
                assert(512 * c + x == s0.entries@.len() + x);
            }
        }
        self.write_entry(k, j, f | pd_flags);
        proof {
            assert(f | ((huge_entry & 7u64) | 3u64) == f | (huge_entry & 7u64) | 3u64) by (bit_vector);
        }
        proof {
            let t = *self;
            s1.lemma_table_index(f);
            assert(t.entry_ok(k as int, j as int));
            s1.lemma_write_wf(t, k as int, j as int);
            assert forall|v: u64| #[trigger] t.translate(v) == s1.translate(v) by {
                if !s1.reads(v, k as int, j as int) {
                    s1.lemma_unread(t, k as int, j as int, v);
                } else {
                    s1.lemma_reads_path(v, k as int, j as int);
                    s1.lemma_shape(v);
                    assert(s1.pd_of(v) == Some(k as int));
                    let k3 = s1.pdpt_of(v).unwrap();
                    assert(t.entry(0, pml4_index(v)) == s1.entry(0, pml4_index(v)));
                    assert(t.entry(k3, pdpt_index(v)) == s1.entry(k3, pdpt_index(v)));
                    let x = pt_index(v);
                    assert(512 * c + x != 512 * k + j);
                    assert(t.entry(c as int, x) == pt@[x]);
                    let page = (huge_phys_base + x * 0x1000) as u64;
                    lemma_frame_ok_bits(page);
                    lemma_entry_bits(page & 0x000F_FFFF_FFFF_F000u64, preserved_flags);
                    lemma_page_offsets(v);
                }
            }
            assert(self.frames@.subrange(0, s0.frames@.len() as int) =~= s0.frames@);
            assert(self.levels@.subrange(0, s0.frames@.len() as int) =~= s0.levels@);
            assert(self.prefixes@.subrange(0, s0.frames@.len() as int) =~= s0.prefixes@);
            assert forall|a: u64| s0.has_table(a) implies #[trigger] self.has_table(a) by {
                self.lemma_keeps_has(s0, k as int, j as int, a);
            }
            assert(huge_entry & 0x80u64 != 0u64);
            assert forall|v: u64| s0.pt_frame(v) is Some implies #[trigger] self.pt_frame(v) == s0.pt_frame(v) by {
                self.lemma_keeps_pt(s0, k as int, j as int, v);
            }
            assert(s1.frames@ == s0.frames@.push(f));
            assert(self.frames@ == s1.frames@);
            s0.lemma_has_after_push(*self, f);
            self.lemma_taken_extends(s0, f);
            assert forall|v: u64| s0.pd_of(v) is Some implies #[trigger] self.pd_of(v) == s0.pd_of(v) by {
                self.lemma_keeps_pd(s0, k as int, j as int, v);
            }
            assert forall|v: u64| !(s0.pd_of(v) == Some(k as int) && pd_index(v) == j) implies #[trigger] self.leaf(v)
                == s0.leaf(v) by {
                assert(s1.pd_of(v) == s0.pd_of(v));
                s1.lemma_pd_slot_leaf(t, k as int, j as int, v);
            }
            assert(preserved_flags == split_flags(huge_entry));
            assert forall|v: u64| s0.pd_of(v) == Some(k as int) && pd_index(v) == j implies #[trigger] self.leaf(v)
                == Some(split_entry(huge_entry, pt_index(v))) by {
                assert(s1.pd_of(v) == s0.pd_of(v));
                assert(s1.reads(v, k as int, j as int));
                s1.lemma_reads_path(v, k as int, j as int);
                s1.lemma_shape(v);
                let k3 = s1.pdpt_of(v).unwrap();
                assert(t.entry(0, pml4_index(v)) == s1.entry(0, pml4_index(v)));
                assert(t.entry(k3, pdpt_index(v)) == s1.entry(k3, pdpt_index(v)));
                let x = pt_index(v);
                assert(512 * c + x != 512 * k + j);
                assert(t.entry(c as int, x) == pt@[x]);
                let page = (huge_phys_base + x * 0x1000) as u64;
                lemma_frame_ok_bits(page);
                lemma_entry_bits(page & 0x000F_FFFF_FFFF_F000u64, preserved_flags);
            }
        }
        Ok(c)
    }
}


impl PageTableManager {
    /// Walks (creating tables as needed) to the PD that `virt` uses.
    fn walk_to_pd<A: FrameAllocator + ?Sized>(&mut self, virt: u64, allocator: &mut A) -> (r: BootResult<usize>)
        requires
            old(self).wf(),
        ensures
            final(self).extends_requests(*old(self)),
            final(self).failed_on_request(*old(self), r),
            final(self).wf(),
            final(self).root() == old(self).root(),
            forall|a: u64| old(self).has_table(a) ==> #[trigger] final(self).has_table(a),
            forall|v: u64| #[trigger] final(self).translate(v) == old(self).translate(v),
            final(self).keeps_pts(*old(self)),
            old(self).pd_of(virt) is Some ==> r is Ok && *final(self) == *old(self),
            final(self).keeps_pds(*old(self)),
            forall|v: u64| #[trigger] final(self).leaf(v) == old(self).leaf(v),
            r matches Ok(k2) ==> final(self).pd_of(virt) == Some(k2 as int) && k2 < final(self).frames@.len(),
            forall|v: u64| old(self).pd_slot(v) is Some ==> #[trigger] final(self).pd_slot(v) == old(self).pd_slot(v),
    {
        proof {
            lemma_index_bits(virt);
        }
        let i4 = ((virt >> 39) & 0x1FF) as usize;
        let i3 = ((virt >> 30) & 0x1FF) as usize;
        let ghost s0 = *self;
        let k3 = match self.child_table(0, i4, allocator) {
            Ok(c) => c,
            Err(err) => {
                proof {
                    self.lemma_same_tables(s0);
                    assert forall|v: u64| s0.pd_slot(v) is Some implies #[trigger] self.pd_slot(v) == s0.pd_slot(v) by {
                        assert(self.pd_of(v) == s0.pd_of(v));
                    }
                }
                return Err(err);
            },
        };
        let ghost s1 = *self;
        proof {
            assert(s1.pdpt_of(virt) == Some(k3 as int));
            s1.lemma_shape(virt);
            assert forall|v: u64| s0.pd_slot(v) is Some implies #[trigger] s1.pd_slot(v) == s0.pd_slot(v) by {
                s0.lemma_shape(v);
                let k = s0.pd_of(v).unwrap();
                assert(s1.pd_of(v) == Some(k));
                assert(k != 0);
                assert(s1.entry(k, pd_index(v)) == s0.entry(k, pd_index(v)));
            }
        }
        let k2 = match self.child_table(k3, i3, allocator) {
            Ok(c) => c,
            Err(err) => {
                proof {
                    self.lemma_requests_trans(s1, *old(self));
                    self.lemma_same_tables(s1);
                    assert forall|v: u64| s0.pd_slot(v) is Some implies #[trigger] self.pd_slot(v) == s0.pd_slot(v) by {
                        assert(self.pd_of(v) == s1.pd_of(v));
                        assert(s1.pd_slot(v) == s0.pd_slot(v));
                    }
                }
                return Err(err);
            },
        };
        proof {
            assert forall|v: u64| s0.pd_slot(v) is Some implies #[trigger] self.pd_slot(v) == s0.pd_slot(v) by {
                assert(s1.pd_slot(v) == s0.pd_slot(v));
                s1.lemma_shape(v);
                let k = s1.pd_of(v).unwrap();
                assert(self.pd_of(v) == Some(k));
                assert(s1.levels@[k] == 2);
                assert(k != k3);
                assert(self.entry(k, pd_index(v)) == s1.entry(k, pd_index(v)));
            }
            self.lemma_requests_trans(s1, *old(self));
            self.lemma_keeps_pts_trans(s1, *old(self));
            self.lemma_keeps_pds_trans(s1, *old(self));
            assert(k3 != 0);
            assert(self.entry(0, i4 as int) == s1.entry(0, i4 as int));
            self.lemma_keeps_index(s1, k3 as int, i3 as int, entry_frame(s1.entry(0, i4 as int)));
            assert(self.pdpt_of(virt) == Some(k3 as int));
        }
        Ok(k2)
    }

    /// Walks (creating tables, splitting a 2 MiB page) to the PT that
    /// `virt` uses.
    fn walk_to_pt<A: FrameAllocator + ?Sized>(&mut self, virt: u64, allocator: &mut A) -> (r: BootResult<usize>)
        requires
            old(self).wf(),
        ensures
            final(self).extends_requests(*old(self)),
            final(self).failed_on_request(*old(self), r),
            final(self).wf(),
            final(self).root() == old(self).root(),
            forall|a: u64| old(self).has_table(a) ==> #[trigger] final(self).has_table(a),
            forall|v: u64| #[trigger] final(self).translate(v) == old(self).translate(v),
            final(self).keeps_pts(*old(self)),
            old(self).pt_of(virt) is Some ==> r is Ok && *final(self) == *old(self),
            forall|v: u64| old(self).pt_of(v) is Some ==> #[trigger] final(self).leaf(v) == old(self).leaf(v),
            r matches Ok(k1) ==> final(self).pt_of(virt) == Some(k1 as int) && k1 < final(self).frames@.len(),
            r is Ok ==> forall|v: u64| #[trigger] final(self).leaf(v) == old(self).leaf_after_split(virt, v),
            r is Ok ==> forall|v: u64|
                region_number(v) == region_number(virt) ==> #[trigger] final(self).pt_of(v) == final(self).pt_of(virt),
            r is Err ==> forall|v: u64| #[trigger] final(self).leaf(v) == old(self).leaf(v),
    {
        proof {
            lemma_index_bits(virt);
        }
        let i2 = ((virt >> 21) & 0x1FF) as usize;
        let k2 = match self.walk_to_pd(virt, allocator) {
            Ok(c) => c,
            Err(err) => return Err(err),
        };
        let ghost s2 = *self;
        proof {
            s2.lemma_shape(virt);
        }
        let pd_entry = self.read_entry(k2, i2);
        let k1 = if pd_entry & PAGE_PRESENT != 0 && pd_entry & PAGE_HUGE != 0 {
            match self.split_huge_page_to_pt(k2, i2, allocator) {
                Ok(c) => c,
                Err(err) => {
                    proof {
                        self.lemma_same_tables(s2);
                        self.lemma_requests_trans(s2, *old(self));
                        self.lemma_keeps_pts_trans(s2, *old(self));
                    }
                    return Err(err);
                },
            }
        } else {
            match self.child_table(k2, i2, allocator) {
                Ok(c) => c,
                Err(err) => {
                    proof {
                        self.lemma_requests_trans(s2, *old(self));
                        self.lemma_keeps_pts_trans(s2, *old(self));
                    }
                    return Err(err);
                },
            }
        };
        let ghost s3 = *self;
        proof {
            s3.lemma_requests_trans(s2, *old(self));
            s3.lemma_keeps_pts_trans(s2, *old(self));
            assert forall|v: u64| old(self).pt_of(v) is Some implies #[trigger] s3.leaf(v) == old(self).leaf(v) by {
                assert(s2.pt_frame(v) == old(self).pt_frame(v));
                assert(s2.leaf(v) == old(self).leaf(v));
                if s2.pd_of(v) == Some(k2 as int) && pd_index(v) == i2 {
                    assert(s2.entry(k2 as int, i2 as int) == pd_entry);
                }
            }
            let k3 = s2.pdpt_of(virt).unwrap();
            let i4 = pml4_index(virt);
            let i3 = pdpt_index(virt);
            assert(k2 != 0 && k3 != k2);
            assert(s3.entry(0, i4) == s2.entry(0, i4));
            assert(s3.entry(k3, i3) == s2.entry(k3, i3));
            s3.lemma_keeps_index(s2, k2 as int, i2 as int, entry_frame(s2.entry(0, i4)));
            s3.lemma_keeps_index(s2, k2 as int, i2 as int, entry_frame(s2.entry(k3, i3)));
            assert(s3.pt_of(virt) == Some(k1 as int));
            assert forall|v: u64| region_number(v) == region_number(virt) implies #[trigger] s3.pt_of(v) == s3.pt_of(virt) by {
                lemma_page_number_indices(v, virt);
                assert(pml4_index(v) == pml4_index(virt));
                assert(pdpt_index(v) == pdpt_index(virt));
                assert(pd_index(v) == pd_index(virt));
                assert(s3.pdpt_of(v) == s3.pdpt_of(virt));
                assert(s3.pd_of(v) == s3.pd_of(virt));
            }
            assert forall|v: u64| #[trigger] s3.leaf(v) == old(self).leaf_after_split(virt, v) by {
                lemma_page_number_indices(v, virt);
                s2.lemma_shape(v);
                assert(s2.leaf(v) == old(self).leaf(v));
                let same = region_number(v) == region_number(virt);
                if same {
                    assert(pml4_index(v) == pml4_index(virt));
                    assert(pdpt_index(v) == pdpt_index(virt));
                    assert(pd_index(v) == i2);
                    assert(s2.pdpt_of(v) == s2.pdpt_of(virt));
                    assert(s2.pd_of(v) == Some(k2 as int));
                } else if s2.pd_of(v) == Some(k2 as int) {
                    assert(s2.prefixes@[k2 as int] == path_above(v, 2));
                    assert(s2.prefixes@[k2 as int] == path_above(virt, 2));
                    assert(path_above(v, 2)[0] == pml4_index(v));
                    assert(path_above(v, 2)[1] == pdpt_index(v));
                    assert(path_above(virt, 2)[0] == pml4_index(virt));
                    assert(path_above(virt, 2)[1] == pdpt_index(virt));
                    assert(pd_index(v) != i2);
                }
                if pd_entry & PAGE_PRESENT != 0 && pd_entry & PAGE_HUGE != 0 {
                    assert(entry_present(pd_entry) && entry_huge(pd_entry));
                    if same {
                        assert(s2.leaf(v) == Some(pd_entry));
                        assert(s2.pt_of(v) is None);
                        if old(self).pt_of(v) is Some {
                            assert(old(self).pt_frame(v) is Some);
                            assert(s2.pt_frame(v) == old(self).pt_frame(v));
                        }
                    }
                } else {
                    assert(!(entry_present(pd_entry) && entry_huge(pd_entry)));
                    if same && old(self).pt_of(v) is None && old(self).leaf(v) is Some {
                        old(self).lemma_shape(v);
                        assert(old(self).pd_slot(v) is Some);
                        assert(s2.pd_slot(v) == old(self).pd_slot(v));
                        assert(s2.pd_slot(v) == Some(pd_entry));
                        assert(false);
                    }
                }
            }
        }
        Ok(k1)
    }

    /// Maps the 4 KiB page of `virt` to `phys` with `flags`, creating the
    /// tables on the way and splitting a 2 MiB page that covers `virt` (its
    /// other pages keep their targets and flags).
    fn map_page<A: FrameAllocator + ?Sized>(
        &mut self,
        phys: u64,
        virt: u64,
        flags: u64,
        allocator: &mut A,
    ) -> (r: BootResult<()>)
        requires
            old(self).wf(),
            flags & 0x000F_FFFF_FFFF_F000u64 == 0,
            flags & 1u64 != 0,
        ensures
            final(self).extends_requests(*old(self)),
            final(self).failed_on_request(*old(self), r),
            final(self).wf(),
            final(self).root() == old(self).root(),
            forall|a: u64| old(self).has_table(a) ==> #[trigger] final(self).has_table(a),
            final(self).keeps_pts(*old(self)),
            old(self).pt_of(virt) is Some ==> r is Ok,
            r is Ok ==> forall|v: u64|
                page_number(v) == page_number(virt) ==> #[trigger] final(self).leaf(v) == Some(
                    entry_frame(phys) | flags,
                ),
            r is Ok ==> forall|v: u64| page_number(v) == page_number(virt) ==> (#[trigger] final(self).pt_of(v)) is Some,
            forall|v: u64|
                (old(self).pt_of(v) is Some) && page_number(v) != page_number(virt) ==> #[trigger] final(self).leaf(v) == old(self).leaf(v),
            r is Ok ==> forall|v: u64|
                #[trigger] final(self).translate(v) == if page_number(v) == page_number(virt) {
                    Some(entry_frame(phys) + v % 0x1000u64)
                } else {
                    old(self).translate(v)
                },
            r is Err ==> forall|v: u64| #[trigger] final(self).translate(v) == old(self).translate(v),
            r is Ok ==> forall|v: u64|
                page_number(v) != page_number(virt) ==> #[trigger] final(self).leaf(v) == old(self).leaf_after_split(virt, v),
            r is Err ==> forall|v: u64| #[trigger] final(self).leaf(v) == old(self).leaf(v),
            r is Ok ==> forall|v: u64| region_number(v) == region_number(virt) ==> (#[trigger] final(self).pt_of(v)) is Some,
    {
        proof {
            lemma_index_bits(virt);
        }
        let i1 = ((virt >> 12) & 0x1FF) as usize;
        let k1 = match self.walk_to_pt(virt, allocator) {
            Ok(c) => c,
            Err(err) => return Err(err),
        };
        let ghost s3 = *self;
        proof {
            lemma_frame_ok_bits(phys);
            lemma_entry_bits(phys & ADDR_MASK, flags);
        }
        self.write_entry(k1, i1, (phys & ADDR_MASK) | flags);
        proof {
            s3.lemma_pt_write(*self, k1 as int, i1 as int, virt);
            self.lemma_extends_after_write(s3, *old(self));
            assert forall|v: u64| page_number(v) != page_number(virt) implies #[trigger] self.leaf(v)
                == old(self).leaf_after_split(virt, v) by {
                assert(s3.leaf(v) == old(self).leaf_after_split(virt, v));
            }
            assert forall|a: u64| s3.has_table(a) implies #[trigger] self.has_table(a) by {}
            assert forall|v: u64| (old(self).pt_of(v) is Some) && page_number(v) != page_number(virt) implies #[trigger] self.leaf(v)
                == old(self).leaf(v) by {
                assert(s3.leaf(v) == old(self).leaf(v));
            }
            s3.lemma_shape(virt);
            s3.lemma_one_write_keeps(*self, k1 as int, i1 as int);
            assert forall|v: u64| s3.pt_frame(v) is Some implies #[trigger] self.pt_frame(v) == s3.pt_frame(v) by {
                self.lemma_keeps_pt(s3, k1 as int, i1 as int, v);
            }
            self.lemma_keeps_pts_trans(s3, *old(self));
            assert forall|v: u64| region_number(v) == region_number(virt) implies (#[trigger] self.pt_of(v)) is Some by {
                assert(s3.pt_of(v) == s3.pt_of(virt));
                assert(s3.pt_frame(v) is Some);
                assert(self.pt_frame(v) == s3.pt_frame(v));
            }
        }
        Ok(())
    }

    /// Maps the 2 MiB region of `virt` to `phys` (2 MiB aligned) as one
    /// large page, creating the PDPT and PD on the way.
    fn map_huge_page<A: FrameAllocator + ?Sized>(
        &mut self,
        phys: u64,
        virt: u64,
        flags: u64,
        allocator: &mut A,
    ) -> (r: BootResult<()>)
        requires
            old(self).wf(),
            phys % 0x20_0000 == 0,
            flags & 0x000F_FFFF_FFFF_F000u64 == 0,
            flags & 1u64 != 0,
        ensures
            final(self).extends_requests(*old(self)),
            final(self).failed_on_request(*old(self), r),
            final(self).wf(),
            final(self).root() == old(self).root(),
            old(self).pd_of(virt) is Some ==> r is Ok,
            final(self).keeps_pds(*old(self)),
            r is Ok ==> forall|v: u64|
                region_number(v) == region_number(virt) ==> #[trigger] final(self).leaf(v) == Some(
                    entry_frame(phys) | flags | PAGE_HUGE,
                ),
            forall|v: u64|
                region_number(v) != region_number(virt) ==> #[trigger] final(self).leaf(v) == old(self).leaf(v),
            r is Ok ==> forall|v: u64|
                #[trigger] final(self).translate(v) == if region_number(v) == region_number(virt) {
                    Some(entry_frame(phys) + v % 0x20_0000u64)
                } else {
                    old(self).translate(v)
                },
            r is Err ==> forall|v: u64| #[trigger] final(self).translate(v) == old(self).translate(v),
    {
        proof {
            lemma_index_bits(virt);
        }
        let i2 = ((virt >> 21) & 0x1FF) as usize;
        let k2 = match self.walk_to_pd(virt, allocator) {
            Ok(c) => c,
            Err(err) => return Err(err),
        };
        let ghost s2 = *self;
        proof {
            s2.lemma_shape(virt);
            lemma_frame_ok_bits(phys);
            lemma_huge_flags(flags);
            lemma_entry_bits(phys & ADDR_MASK, flags | 0x80u64);
            assert((phys & ADDR_MASK) | flags | PAGE_HUGE == (phys & ADDR_MASK) | (flags | 0x80u64)) by (bit_vector);
        }
        self.write_entry(k2, i2, (phys & ADDR_MASK) | flags | PAGE_HUGE);
        proof {
            s2.lemma_pd_write(*self, k2 as int, i2 as int, virt);
            self.lemma_extends_after_write(s2, *old(self));
            s2.lemma_shape(virt);
            s2.lemma_one_write_keeps(*self, k2 as int, i2 as int);
            assert forall|v: u64| s2.pd_of(v) is Some implies #[trigger] self.pd_of(v) == s2.pd_of(v) by {
                self.lemma_keeps_pd(s2, k2 as int, i2 as int, v);
            }
            self.lemma_keeps_pds_trans(s2, *old(self));
        }
        Ok(())
    }
}


impl PageTableManager {
    /// Creates an empty PML4 in a frame from `allocator`: one request of one
    /// frame, recorded in `log`, whose answer `from_allocation` turns into
    /// the result.
    ///
    /// Fails with the allocator's error if it fails, and with
    /// `AllocationFailed` if it returns a frame that is not 4 KiB aligned
    /// below 2^52.
    pub fn new<A: FrameAllocator + ?Sized>(allocator: &mut A, log: &mut RequestLog) -> (r: BootResult<Self>)
        ensures
            final(log).requests().len() == old(log).requests().len() + 1,
            final(log).requests().drop_last() == old(log).requests(),
            final(log).requests().last().at is None,
            final(log).requests().last().count == 1,
            built_from_frame(r, final(log).requests().last().result),
    {
        let frame = log.allocate_frame(allocator, 1);
        proof {
            assert(log.requests().drop_last() =~= old(log).requests());
        }
        Self::from_allocation(frame)
    }

    /// What `new` makes of the allocator's answer `frame`: its error as is,
    /// `AllocationFailed` for a frame that is not 4 KiB aligned below 2^52,
    /// else empty tables whose PML4 is that frame.
    pub fn from_allocation(frame: BootResult<u64>) -> (r: BootResult<Self>)
        ensures
            built_from_frame(r, frame),
    {
        let pml4 = match frame {
            Ok(f) => f,
            Err(err) => return Err(err),
        };
        match Self::from_root_frame(pml4) {
            Some(m) => Ok(m),
            None => Err(BootError::Memory(MemoryError::AllocationFailed)),
        }
    }

    /// Empty tables whose PML4 is at `frame`: `None` exactly when `frame`
    /// is not 4 KiB aligned below 2^52.
    pub fn from_root_frame(frame: u64) -> (r: Option<Self>)
        ensures
            r is Some <==> frame_ok(frame),
            r matches Some(m) ==> {
                &&& m.wf()
                &&& m.root() == frame
                &&& forall|v: u64| #[trigger] m.translate(v) == None::<int>
                &&& forall|v: u64| #[trigger] m.leaf(v) == None::<u64>
                &&& m.table_requests().len() == 0
            },
    {
        if frame & ADDR_MASK != frame {
            return None;
        }
        let entries = zero_table();
        let mut frames: Vec<u64> = Vec::new();
        frames.push(frame);
        let ghost levels = seq![4int];
        let ghost prefixes = seq![Seq::<int>::empty()];
        let m = PageTableManager {
            pml4_phys_addr: frame,
            frames,
            entries,
            levels: Ghost(levels),
            prefixes: Ghost(prefixes),
            requests: Ghost(Seq::empty()),
        };
        proof {
            lemma_flag_constants();
            assert forall|k: int, j: int| 0 <= k < 1 && 0 <= j < 512 implies #[trigger] m.entry_ok(k, j) by {
                assert(m.entry(k, j) == 0);
            }
            assert forall|v: u64| #[trigger] m.translate(v) == None::<int> by {
                assert(m.entry(0, pml4_index(v)) == 0);
            }
            assert forall|v: u64| #[trigger] m.leaf(v) == None::<u64> by {
                assert(m.entry(0, pml4_index(v)) == 0);
            }
        }
        Some(m)
    }

    /// Physical address of the PML4 (the value for CR3).
    pub fn pml4_addr(&self) -> (r: u64)
        ensures
            r == self.root(),
    {
        self.pml4_phys_addr
    }

    /// Makes the identity mapping of the page of `phys_addr` a 4 KiB page,
    /// splitting a 2 MiB page that covers it (its other pages keep their
    /// targets and flags).
    pub fn ensure_identity_map_4k<A: FrameAllocator + ?Sized>(
        &mut self,
        phys_addr: u64,
        allocator: &mut A,
    ) -> (r: BootResult<()>)
        requires
            old(self).wf(),
        ensures
            final(self).extends_requests(*old(self)),
            final(self).failed_on_request(*old(self), r),
            final(self).wf(),
            final(self).root() == old(self).root(),
            forall|a: u64| old(self).has_table(a) ==> #[trigger] final(self).has_table(a),
            final(self).keeps_pts(*old(self)),
            r is Ok ==> forall|v: u64|
                #[trigger] final(self).translate(v) == if page_number(v) == page_number(phys_addr) {
                    Some(entry_frame(phys_addr) + v % 0x1000u64)
                } else {
                    old(self).translate(v)
                },
            r is Ok && phys_addr < 0x1_0000_0000_0000 ==> forall|v: u64|
                page_number(v) == page_number(phys_addr) ==> #[trigger] final(self).translate(v) == Some(
                    low48(v),
                ),
            old(self).pt_of(phys_addr) is Some ==> r is Ok,
            r is Ok ==> forall|v: u64|
                page_number(v) == page_number(phys_addr) ==> #[trigger] final(self).leaf(v) == Some(
                    entry_frame(phys_addr) | 3u64,
                ),
            r is Err ==> forall|v: u64| #[trigger] final(self).translate(v) == old(self).translate(v),
            r is Ok ==> forall|v: u64|
                page_number(v) != page_number(phys_addr) ==> #[trigger] final(self).leaf(v)
                    == old(self).leaf_after_split(phys_addr, v),
            r is Err ==> forall|v: u64| #[trigger] final(self).leaf(v) == old(self).leaf(v),
    {
        proof {
            lemma_flag_constants();
        }
        let r = self.map_page(phys_addr, phys_addr, PAGE_PRESENT | PAGE_WRITABLE, allocator);
        proof {
            if r is Ok && phys_addr < 0x1_0000_0000_0000 {
                assert forall|v: u64| page_number(v) == page_number(phys_addr) implies #[trigger] self.translate(
                    v,
                ) == Some(low48(v)) by {
                    lemma_identity_page(v, phys_addr);
                }
            }
        }
        r
    }

    proof fn lemma_kept_step(self, s0: Self, s1: Self, page_virt: u64, v: u64, ok: bool)
        requires
            leaf_kept_or_split(s1, s0, v),
            s1.keeps_pts(s0),
            self.keeps_pts(s1),
            ok ==> page_number(v) != page_number(page_virt),
            ok ==> self.leaf(v) == s1.leaf_after_split(page_virt, v),
            ok ==> (region_number(v) == region_number(page_virt) ==> self.pt_of(v) is Some),
            !ok ==> self.leaf(v) == s1.leaf(v),
        ensures
            leaf_kept_or_split(self, s0, v),
    {
        if s0.pt_of(v) is Some {
            assert(s0.pt_frame(v) is Some);
            assert(s1.pt_frame(v) == s0.pt_frame(v));
        }
        if s1.pt_of(v) is Some {
            assert(s1.pt_frame(v) is Some);
            assert(self.pt_frame(v) == s1.pt_frame(v));
        }
    }

    /// Maps `count` pages from `phys` to `virt` one 4 KiB page at a time.
    #[verifier::rlimit(40)]
    fn map_pages<A: FrameAllocator + ?Sized>(
        &mut self,
        phys: u64,
        virt: u64,
        count: usize,
        allocator: &mut A,
    ) -> (r: BootResult<()>)
        requires
            old(self).wf(),
            count > 0 ==> phys + (count - 1) * 4096 <= u64::MAX,
            count > 0 ==> virt + (count - 1) * 4096 <= u64::MAX,
        ensures
            final(self).extends_requests(*old(self)),
            final(self).failed_on_request(*old(self), r),
            final(self).wf(),
            final(self).root() == old(self).root(),
            r is Ok && count <= 0x10_0000_0000 ==> forall|v: u64|
                #[trigger] final(self).translate(v) == if page_delta(v, virt) < count {
                    Some(entry_frame((phys + page_delta(v, virt) * 4096) as u64) + v % 0x1000u64)
                } else {
                    old(self).translate(v)
                },
            r is Err && count <= 0x10_0000_0000 ==> forall|v: u64|
                #[trigger] final(self).translate(v) == old(self).translate(v) || (page_delta(v, virt)
                    < count && final(self).translate(v) == Some(
                    entry_frame((phys + page_delta(v, virt) * 4096) as u64) + v % 0x1000u64,
                )),
            (forall|v: u64| page_delta(v, virt) < count ==> (#[trigger] old(self).pt_of(v)) is Some) ==> r is Ok,
            r is Ok && count <= 0x10_0000_0000 ==> forall|v: u64|
                page_delta(v, virt) < count ==> #[trigger] final(self).leaf(v) == Some(
                    entry_frame((phys + page_delta(v, virt) * 4096) as u64) | 3u64,
                ),
            r is Err && count <= 0x10_0000_0000 ==> exists|i: int|
                0 <= i < count && #[trigger] prefix_mapped(*final(self), *old(self), phys, virt, i),
            count <= 0x10_0000_0000 ==> forall|v: u64|
                page_delta(v, virt) >= count ==> #[trigger] leaf_kept_or_split(*final(self), *old(self), v),
    {
        let ghost s0 = *self;
        proof {
            self.lemma_requests_refl();
        }
        let mut i: usize = 0;
        while i < count
            invariant
                i <= count,
                self.wf(),
                s0 == *old(self),
                self.keeps_pts(s0),
                self.root() == s0.root(),
                self.extends_requests(s0),
                count <= 0x10_0000_0000 ==> forall|v: u64|
                    page_delta(v, virt) >= i ==> #[trigger] leaf_kept_or_split(*self, s0, v),
                count > 0 ==> phys + (count - 1) * 4096 <= u64::MAX,
                count > 0 ==> virt + (count - 1) * 4096 <= u64::MAX,
                count <= 0x10_0000_0000 ==> forall|v: u64|
                    #[trigger] self.translate(v) == if page_delta(v, virt) < i {
                        Some(entry_frame((phys + page_delta(v, virt) * 4096) as u64) + v % 0x1000u64)
                    } else {
                        s0.translate(v)
                    },
                count <= 0x10_0000_0000 ==> forall|v: u64|
                    page_delta(v, virt) < i ==> #[trigger] self.leaf(v) == Some(
                        entry_frame((phys + page_delta(v, virt) * 4096) as u64) | 3u64,
                    ) && (self.pt_of(v) is Some),
            decreases count - i,
        {
            let ghost s1 = *self;
            let page_phys = phys + (i as u64) * 4096;
            let page_virt = virt + (i as u64) * 4096;
            proof {
                lemma_flag_constants();
            }
            match self.map_page(page_phys, page_virt, PAGE_PRESENT | PAGE_WRITABLE, allocator) {
                Ok(()) => {},
                Err(err) => {
                    proof {
                        self.lemma_requests_trans(s1, s0);
                        if forall|v: u64| page_delta(v, virt) < count ==> (#[trigger] s0.pt_of(v)) is Some {
                            if i < 0x10_0000_0000 {
                                lemma_page_step(page_virt, virt, i as int);
                            }
                            assert(page_delta(page_virt, virt) < count);
                            assert(s0.pt_of(page_virt) is Some);
                            assert(s1.pt_frame(page_virt) == s0.pt_frame(page_virt));
                            assert(false);
                        }
                        if count <= 0x10_0000_0000 {
                            assert forall|v: u64| page_delta(v, virt) >= i implies #[trigger] leaf_kept_or_split(*self, s0, v) by {
                                assert(leaf_kept_or_split(s1, s0, v));
                                self.lemma_kept_step(s0, s1, page_virt, v, false);
                            }
                            assert forall|v: u64| #[trigger] self.translate(v) == s1.translate(v) by {}
                            assert(prefix_mapped(*self, s0, phys, virt, i as int));
                            assert forall|v: u64|
                                #[trigger] self.translate(v) == s0.translate(v) || (page_delta(v, virt)
                                    < count && self.translate(v) == Some(
                                    entry_frame((phys + page_delta(v, virt) * 4096) as u64) + v
                                        % 0x1000u64,
                                )) by {
                                assert(s1.translate(v) == if page_delta(v, virt) < i {
                                    Some(
                                        entry_frame((phys + page_delta(v, virt) * 4096) as u64) + v
                                            % 0x1000u64,
                                    )
                                } else {
                                    s0.translate(v)
                                });
                            }
                        }
                    }
                    return Err(err);
                },
            }
            proof {
                lemma_flag_constants();
                self.lemma_requests_trans(s1, s0);
                self.lemma_keeps_pts_trans(s1, s0);
                if count <= 0x10_0000_0000 {
                    assert forall|v: u64| page_delta(v, virt) >= i + 1 implies #[trigger] leaf_kept_or_split(*self, s0, v) by {
                        lemma_page_step(v, virt, i as int);
                        assert(leaf_kept_or_split(s1, s0, v));
                        self.lemma_kept_step(s0, s1, page_virt, v, true);
                    }
                    assert forall|v: u64|
                        #[trigger] self.translate(v) == if page_delta(v, virt) < i + 1 {
                            Some(entry_frame((phys + page_delta(v, virt) * 4096) as u64) + v % 0x1000u64)
                        } else {
                            s0.translate(v)
                        } by {
                        lemma_page_step(v, virt, i as int);
                        assert(s1.translate(v) == if page_delta(v, virt) < i {
                            Some(entry_frame((phys + page_delta(v, virt) * 4096) as u64) + v % 0x1000u64)
                        } else {
                            s0.translate(v)
                        });
                    }
                    assert forall|v: u64| page_delta(v, virt) < i + 1 implies #[trigger] self.leaf(v) == Some(
                        entry_frame((phys + page_delta(v, virt) * 4096) as u64) | 3u64,
                    ) && (self.pt_of(v) is Some) by {
                        lemma_page_step(v, virt, i as int);
                        if page_delta(v, virt) < i {
                            assert(s1.leaf(v) == Some(
                                entry_frame((phys + page_delta(v, virt) * 4096) as u64) | 3u64,
                            ));
                            assert(s1.pt_of(v) is Some);
                            assert(s1.pt_frame(v) is Some);
                            assert(self.pt_frame(v) == s1.pt_frame(v));
                        }
                    }
                }
            }
            i = i + 1;
        }
        Ok(())
    }

    /// Identity-maps `count` 4 KiB pages starting at `phys_addr`.
    pub fn identity_map<A: FrameAllocator + ?Sized>(
        &mut self,
        phys_addr: u64,
        count: usize,
        allocator: &mut A,
    ) -> (r: BootResult<()>)
        requires
            old(self).wf(),
            count > 0 ==> phys_addr + (count - 1) * 4096 <= u64::MAX,
        ensures
            final(self).extends_requests(*old(self)),
            final(self).failed_on_request(*old(self), r),
            final(self).wf(),
            final(self).root() == old(self).root(),
            r is Ok && count <= 0x10_0000_0000 ==> forall|v: u64|
                #[trigger] final(self).translate(v) == if page_delta(v, phys_addr) < count {
                    Some(entry_frame((phys_addr + page_delta(v, phys_addr) * 4096) as u64) + v % 0x1000u64)
                } else {
                    old(self).translate(v)
                },
            r is Err && count <= 0x10_0000_0000 ==> forall|v: u64|
                #[trigger] final(self).translate(v) == old(self).translate(v) || (page_delta(v, phys_addr)
                    < count && final(self).translate(v) == Some(
                    entry_frame((phys_addr + page_delta(v, phys_addr) * 4096) as u64) + v % 0x1000u64,
                )),
            r is Ok && phys_addr + count * 4096 <= 0x1_0000_0000_0000 ==> forall|v: u64|
                page_delta(v, phys_addr) < count ==> #[trigger] final(self).translate(v) == Some(
                    low48(v),
                ),
            (forall|v: u64| page_delta(v, phys_addr) < count ==> (#[trigger] old(self).pt_of(v)) is Some)
                ==> r is Ok,
            r is Ok && count <= 0x10_0000_0000 ==> forall|v: u64|
                page_delta(v, phys_addr) < count ==> #[trigger] final(self).leaf(v) == Some(
                    entry_frame((phys_addr + page_delta(v, phys_addr) * 4096) as u64) | 3u64,
                ),
            r is Err && count <= 0x10_0000_0000 ==> exists|i: int|
                0 <= i < count && #[trigger] prefix_mapped(*final(self), *old(self), phys_addr, phys_addr, i),
            count <= 0x10_0000_0000 ==> forall|v: u64|
                page_delta(v, phys_addr) >= count ==> #[trigger] leaf_kept_or_split(*final(self), *old(self), v),
    {
        let r = self.map_pages(phys_addr, phys_addr, count, allocator);
        proof {
            if r is Ok && phys_addr + count * 4096 <= 0x1_0000_0000_0000 {
                assert forall|v: u64| page_delta(v, phys_addr) < count implies #[trigger] self.translate(v)
                    == Some(low48(v)) by {
                    let d = page_delta(v, phys_addr);
                    assert(0 <= d) by {
                        assert(page_delta(v, phys_addr) >= 0);
                    }
                    let w = (phys_addr + d * 4096) as u64;
                    lemma_page_step(v, phys_addr, d);
                    lemma_identity_page(v, w);
                }
            }
        }
        r
    }

    /// Maps `pages` pages of 4 KiB from `phys` to `virt`; both must be
    /// 4 KiB aligned, else `InvalidAlignment` comes back before any frame is
    /// asked for.
    pub fn map_kernel<A: FrameAllocator + ?Sized>(
        &mut self,
        phys: u64,
        virt: u64,
        pages: usize,
        allocator: &mut A,
    ) -> (r: BootResult<()>)
        requires
            old(self).wf(),
            pages > 0 ==> phys + (pages - 1) * 4096 <= u64::MAX,
            pages > 0 ==> virt + (pages - 1) * 4096 <= u64::MAX,
        ensures
            final(self).extends_requests(*old(self)),
            phys % 4096 == 0 && virt % 4096 == 0 ==> final(self).failed_on_request(*old(self), r),
            final(self).wf(),
            final(self).root() == old(self).root(),
            (phys % 4096 != 0 || virt % 4096 != 0) ==> r == Err::<(), BootError>(
                BootError::Memory(MemoryError::InvalidAlignment),
            ) && *final(self) == *old(self),
            r is Ok && pages <= 0x10_0000_0000 ==> forall|v: u64|
                #[trigger] final(self).translate(v) == if page_delta(v, virt) < pages {
                    Some(entry_frame((phys + page_delta(v, virt) * 4096) as u64) + v % 0x1000u64)
                } else {
                    old(self).translate(v)
                },
            r is Err && pages <= 0x10_0000_0000 ==> forall|v: u64|
                #[trigger] final(self).translate(v) == old(self).translate(v) || (page_delta(v, virt)
                    < pages && final(self).translate(v) == Some(
                    entry_frame((phys + page_delta(v, virt) * 4096) as u64) + v % 0x1000u64,
                )),
            r is Ok && pages <= 0x10_0000_0000 ==> forall|v: u64|
                page_delta(v, virt) < pages ==> #[trigger] final(self).leaf(v) == Some(
                    entry_frame((phys + page_delta(v, virt) * 4096) as u64) | 3u64,
                ),
            r is Err && pages <= 0x10_0000_0000 ==> exists|i: int|
                0 <= i <= pages && #[trigger] prefix_mapped(*final(self), *old(self), phys, virt, i),
            pages <= 0x10_0000_0000 ==> forall|v: u64|
                page_delta(v, virt) >= pages ==> #[trigger] leaf_kept_or_split(*final(self), *old(self), v),
    {
        if phys % 4096 != 0 || virt % 4096 != 0 {
            proof {
                assert(prefix_mapped(*self, *old(self), phys, virt, 0));
                self.lemma_requests_refl();
            }
            return Err(BootError::Memory(MemoryError::InvalidAlignment));
        }
        self.map_pages(phys, virt, pages, allocator)
    }
}


impl PageTableManager {
    /// Identity-maps physical memory from 0 up to `max_phys_addr` rounded up
    /// to 2 MiB, with 2 MiB pages.
    ///
    /// When the rounded limit is at most 2^48 (what four levels address),
    /// every address below it maps to itself and the rest keep their
    /// translation; above that every address is mapped.
    pub fn identity_map_range<A: FrameAllocator + ?Sized>(
        &mut self,
        max_phys_addr: u64,
        allocator: &mut A,
    ) -> (r: BootResult<()>)
        requires
            old(self).wf(),
            max_phys_addr + 0x1F_FFFF <= u64::MAX,
        ensures
            final(self).extends_requests(*old(self)),
            final(self).failed_on_request(*old(self), r),
            final(self).wf(),
            final(self).root() == old(self).root(),
            r is Ok ==> forall|v: u64|
                low48(v) < align_up_2mib(max_phys_addr) ==> (#[trigger] final(self).translate(v)) is Some,
            r is Ok && align_up_2mib(max_phys_addr) <= 0x1_0000_0000_0000 ==> forall|v: u64|
                #[trigger] final(self).translate(v) == if low48(v) < align_up_2mib(max_phys_addr) {
                    Some(low48(v))
                } else {
                    old(self).translate(v)
                },
            r is Err && align_up_2mib(max_phys_addr) <= 0x1_0000_0000_0000 ==> forall|v: u64|
                #[trigger] final(self).translate(v) == old(self).translate(v) || (low48(v)
                    < align_up_2mib(max_phys_addr) && final(self).translate(v) == Some(low48(v))),
            (forall|v: u64| low48(v) < align_up_2mib(max_phys_addr) ==> (#[trigger] old(self).pd_of(v)) is Some)
                ==> r is Ok,
            r is Ok && align_up_2mib(max_phys_addr) <= 0x1_0000_0000_0000 ==> forall|v: u64|
                low48(v) < align_up_2mib(max_phys_addr) ==> #[trigger] final(self).leaf(v) == Some(
                    huge_identity_entry(v),
                ),
            align_up_2mib(max_phys_addr) <= 0x1_0000_0000_0000 ==> forall|v: u64|
                low48(v) >= align_up_2mib(max_phys_addr) ==> #[trigger] final(self).leaf(v) == old(self).leaf(v),
    {
        let ghost s0 = *self;
        let aligned_max = (max_phys_addr + (SIZE_2MIB - 1)) & !(SIZE_2MIB - 1);
        proof {
            lemma_align_2mib(max_phys_addr, (max_phys_addr + 0x1F_FFFFu64) as u64);
            assert(aligned_max == align_up_2mib(max_phys_addr));
            lemma_flag_constants();
        }
        let mut phys = 0u64;
        proof {
            self.lemma_requests_refl();
        }
        while phys < aligned_max
            invariant
                self.wf(),
                s0 == *old(self),
                self.root() == s0.root(),
                self.extends_requests(s0),
                aligned_max == align_up_2mib(max_phys_addr),
                self.keeps_pds(s0),
                aligned_max % 0x20_0000 == 0,
                phys % 0x20_0000 == 0,
                phys <= aligned_max,
                forall|v: u64| low48(v) < phys ==> (#[trigger] self.translate(v)) is Some,
                phys <= 0x1_0000_0000_0000 ==> forall|v: u64|
                    #[trigger] self.translate(v) == if low48(v) < phys {
                        Some(low48(v))
                    } else {
                        s0.translate(v)
                    },
                phys <= 0x1_0000_0000_0000 ==> forall|v: u64|
                    low48(v) < phys ==> #[trigger] self.leaf(v) == Some(huge_identity_entry(v)),
                aligned_max <= 0x1_0000_0000_0000 ==> forall|v: u64|
                    low48(v) >= aligned_max ==> #[trigger] self.leaf(v) == s0.leaf(v),
            decreases aligned_max - phys,
        {
            let ghost s1 = *self;
            proof {
                lemma_flag_constants();
            }
            match self.map_huge_page(phys, phys, PAGE_PRESENT | PAGE_WRITABLE, allocator) {
                Ok(()) => {},
                Err(err) => {
                    proof {
                        self.lemma_requests_trans(s1, s0);
                        if aligned_max <= 0x1_0000_0000_0000 {
                            assert forall|v: u64| low48(v) >= aligned_max implies #[trigger] self.leaf(v) == s0.leaf(v) by {
                                lemma_low48(v);
                                lemma_low48(phys);
                                assert(region_number(v) != region_number(phys)) by (nonlinear_arith)
                                    requires
                                        region_number(v) == low48(v) / 0x20_0000,
                                        region_number(phys) == phys / 0x20_0000,
                                        low48(v) >= aligned_max,
                                        phys < aligned_max,
                                        aligned_max % 0x20_0000 == 0,
                                        phys % 0x20_0000 == 0,
                                ;
                                assert(s1.leaf(v) == s0.leaf(v));
                            }
                        }
                        if forall|v: u64| low48(v) < aligned_max ==> (#[trigger] s0.pd_of(v)) is Some {
                            assert(phys % 0x1_0000_0000_0000u64 <= phys) by (bit_vector);
                            assert(s0.pd_of(phys) is Some);
                            assert(false);
                        }
                        if aligned_max <= 0x1_0000_0000_0000 {
                            assert forall|v: u64|
                                #[trigger] self.translate(v) == s0.translate(v) || (low48(v) < aligned_max
                                    && self.translate(v) == Some(low48(v))) by {
                                assert(s1.translate(v) == if low48(v) < phys {
                                    Some(low48(v))
                                } else {
                                    s0.translate(v)
                                });
                            }
                        }
                    }
                    return Err(err);
                },
            }
            proof {
                self.lemma_requests_trans(s1, s0);
                self.lemma_keeps_pds_trans(s1, s0);
                lemma_low48(phys);
                if aligned_max <= 0x1_0000_0000_0000 {
                    assert forall|v: u64| low48(v) >= aligned_max implies #[trigger] self.leaf(v) == s0.leaf(v) by {
                        lemma_low48(v);
                        assert(region_number(v) != region_number(phys)) by (nonlinear_arith)
                            requires
                                region_number(v) == low48(v) / 0x20_0000,
                                region_number(phys) == phys / 0x20_0000,
                                low48(v) >= aligned_max,
                                phys < aligned_max,
                                aligned_max % 0x20_0000 == 0,
                                phys % 0x20_0000 == 0,
                        ;
                        assert(s1.leaf(v) == s0.leaf(v));
                    }
                }
                lemma_frame_ok_bits(phys);
                assert(phys % 0x1000 == 0);
                let next = phys + 0x20_0000;
                assert forall|v: u64| low48(v) < next implies (#[trigger] self.translate(v)) is Some by {
                    lemma_low48(v);
                    if region_number(v) != region_number(phys) {
                        assert(low48(v) < phys);
                    }
                }
                if next <= 0x1_0000_0000_0000 {
                    assert(phys & ADDR_MASK == phys);
                    assert forall|v: u64|
                        #[trigger] self.translate(v) == if low48(v) < next {
                            Some(low48(v))
                        } else {
                            s0.translate(v)
                        } by {
                        lemma_low48(v);
                        assert(s1.translate(v) == if low48(v) < phys {
                            Some(low48(v))
                        } else {
                            s0.translate(v)
                        });
                        if region_number(v) == region_number(phys) {
                            assert(phys <= low48(v) < next);
                        } else {
                            assert(!(phys <= low48(v) < next));
                        }
                    }
                    assert((phys | 3u64) | 0x80u64 == phys | 0x83u64) by (bit_vector);
                    assert forall|v: u64| low48(v) < next implies #[trigger] self.leaf(v) == Some(
                        huge_identity_entry(v),
                    ) by {
                        lemma_low48(v);
                        if region_number(v) == region_number(phys) {
                            assert(low48(v) / 0x20_0000 * 0x20_0000 == phys);
                        } else {
                            assert(low48(v) < phys);
                            assert(s1.leaf(v) == Some(huge_identity_entry(v)));
                        }
                    }
                }
            }
            phys = phys + SIZE_2MIB;
        }
        Ok(())
    }

    /// Identity-maps the first 4 GiB with 2 MiB pages: the same calls, and
    /// so the same requests and tables, as `identity_map_range(SIZE_4GIB)`,
    /// and the same contract with its limit of 4 GiB.
    pub fn identity_map_4gib<A: FrameAllocator + ?Sized>(&mut self, allocator: &mut A) -> (r: BootResult<()>)
        requires
            old(self).wf(),
        ensures
            final(self).extends_requests(*old(self)),
            final(self).failed_on_request(*old(self), r),
            final(self).wf(),
            final(self).root() == old(self).root(),
            r is Ok ==> forall|v: u64|
                #[trigger] final(self).translate(v) == if low48(v) < 0x1_0000_0000 {
                    Some(low48(v))
                } else {
                    old(self).translate(v)
                },
            r is Err ==> forall|v: u64|
                #[trigger] final(self).translate(v) == old(self).translate(v) || (low48(v) < 0x1_0000_0000
                    && final(self).translate(v) == Some(low48(v))),
            (forall|v: u64| low48(v) < 0x1_0000_0000 ==> (#[trigger] old(self).pd_of(v)) is Some) ==> r is Ok,
            r is Ok ==> forall|v: u64|
                low48(v) < 0x1_0000_0000 ==> #[trigger] final(self).leaf(v) == Some(huge_identity_entry(v)),
            forall|v: u64| low48(v) >= 0x1_0000_0000 ==> #[trigger] final(self).leaf(v) == old(self).leaf(v),
    {
        assert(align_up_2mib(SIZE_4GIB) == 0x1_0000_0000);
        self.identity_map_range(SIZE_4GIB, allocator)
    }

    /// Prepares the scratch slot: the region of `SCRATCH_VIRT` gets a PT of
    /// 4 KiB pages (a 2 MiB page there is split), and that PT is reachable
    /// through a 4 KiB identity mapping of its own frame.
    pub fn setup_scratch_slot<A: FrameAllocator + ?Sized>(&mut self, allocator: &mut A) -> (r: BootResult<()>)
        requires
            old(self).wf(),
        ensures
            final(self).extends_requests(*old(self)),
            final(self).failed_on_request(*old(self), r),
            final(self).wf(),
            final(self).root() == old(self).root(),
            r is Ok ==> (final(self).pt_frame(SCRATCH_VIRT) matches Some(p) && final(self).has_table(p)
                && frame_ok(p) && forall|v: u64|
                #[trigger] final(self).translate(v) == if page_number(v) == page_number(p) {
                    Some(p + v % 0x1000u64)
                } else {
                    old(self).translate(v)
                }),
            r is Err ==> forall|v: u64| #[trigger] final(self).translate(v) == old(self).translate(v),
            (old(self).pt_frame(SCRATCH_VIRT) matches Some(p) && old(self).pt_of(p) is Some) ==> r is Ok,
            r is Ok ==> (final(self).pt_frame(SCRATCH_VIRT) matches Some(p) && forall|v: u64|
                page_number(v) == page_number(p) ==> #[trigger] final(self).leaf(v) == Some(p | 3u64)),
    {
        let k1 = match self.walk_to_pt(SCRATCH_VIRT, allocator) {
            Ok(c) => c,
            Err(err) => return Err(err),
        };
        let pt_phys = self.frames[k1];
        let ghost s1 = *self;
        proof {
            assert(frame_ok(self.frames@[k1 as int]));
            assert(self.frames@.contains(pt_phys));
            lemma_frame_ok_bits(pt_phys);
        }
        match self.ensure_identity_map_4k(pt_phys, allocator) {
            Ok(()) => {},
            Err(err) => {
                proof {
                    self.lemma_requests_trans(s1, *old(self));
                }
                return Err(err);
            },
        }
        proof {
            self.lemma_requests_trans(s1, *old(self));
            assert(s1.pt_frame(SCRATCH_VIRT) == Some(pt_phys));
            assert(self.pt_frame(SCRATCH_VIRT) == s1.pt_frame(SCRATCH_VIRT));
            assert(self.has_table(pt_phys));
            assert(entry_frame(pt_phys) == pt_phys);
            assert(forall|v: u64|
                #[trigger] self.translate(v) == if page_number(v) == page_number(pt_phys) {
                    Some(pt_phys + v % 0x1000u64)
                } else {
                    old(self).translate(v)
                });
        }
        Ok(())
    }
}

impl PageTableManager {
    /// Walks the tables as the MMU does and returns the physical address
    /// `virt` maps to, if any.
    pub fn lookup(&self, virt: u64) -> (r: Option<u64>)
        requires
            self.wf(),
        ensures
            r matches Some(p) ==> self.translate(virt) == Some(p as int),
            r is None ==> self.translate(virt) is None,
    {
        proof {
            lemma_index_bits(virt);
            self.lemma_shape(virt);
        }
        let i4 = ((virt >> 39) & 0x1FF) as usize;
        let i3 = ((virt >> 30) & 0x1FF) as usize;
        let i2 = ((virt >> 21) & 0x1FF) as usize;
        let i1 = ((virt >> 12) & 0x1FF) as usize;
        let e4 = self.read_entry(0, i4);
        if e4 & PAGE_PRESENT == 0 {
            return None;
        }
        proof {
            assert(self.entry_ok(0, i4 as int));
        }
        let k3 = self.find_table(e4 & ADDR_MASK);
        let e3 = self.read_entry(k3, i3);
        if e3 & PAGE_PRESENT == 0 {
            return None;
        }
        proof {
            assert(self.entry_ok(k3 as int, i3 as int));
        }
        let k2 = self.find_table(e3 & ADDR_MASK);
        let e2 = self.read_entry(k2, i2);
        if e2 & PAGE_PRESENT == 0 {
            return None;
        }
        if e2 & PAGE_HUGE != 0 {
            proof {
                lemma_frame_ok_bits(e2);
                lemma_frame_ok_bits(e2 & ADDR_MASK);
                lemma_page_offsets(virt);
            }
            return Some((e2 & ADDR_MASK) + virt % SIZE_2MIB);
        }
        proof {
            assert(self.entry_ok(k2 as int, i2 as int));
        }
        let k1 = self.find_table(e2 & ADDR_MASK);
        let e1 = self.read_entry(k1, i1);
        if e1 & PAGE_PRESENT == 0 {
            return None;
        }
        proof {
            lemma_frame_ok_bits(e1);
            lemma_frame_ok_bits(e1 & ADDR_MASK);
            lemma_page_offsets(virt);
        }
        Some((e1 & ADDR_MASK) + virt % PAGE_SIZE)
    }
}

/// Physical memory as a list of (frame, 512 entries) pairs describes it:
/// each listed frame holds the entries listed with it.
pub open spec fn memory_of(tables: Seq<(u64, Seq<u64>)>) -> Map<u64, Seq<u64>> {
    Map::new(
        |a: u64| exists|i: int| 0 <= i < tables.len() && (#[trigger] tables[i]).0 == a,
        |a: u64| tables[choose|i: int| 0 <= i < tables.len() && (#[trigger] tables[i]).0 == a].1,
    )
}

/// The walk the processor makes for `v` through the tables held in `mem`,
/// starting at `root` (4 KiB and 2 MiB pages): the physical address
/// reached, if any.
pub open spec fn hw_walk(mem: Map<u64, Seq<u64>>, root: u64, v: u64) -> Option<int> {
    let e4 = mem[root][pml4_index(v)];
    if !entry_present(e4) || !mem.contains_key(entry_frame(e4)) {
        None
    } else {
        let e3 = mem[entry_frame(e4)][pdpt_index(v)];
        if !entry_present(e3) || !mem.contains_key(entry_frame(e3)) {
            None
        } else {
            let e2 = mem[entry_frame(e3)][pd_index(v)];
            if !entry_present(e2) {
                None
            } else if entry_huge(e2) {
                Some(entry_frame(e2) + v % 0x20_0000u64)
            } else if !mem.contains_key(entry_frame(e2)) {
                None
            } else {
                let e1 = mem[entry_frame(e2)][pt_index(v)];
                if entry_present(e1) {
                    Some(entry_frame(e1) + v % 0x1000u64)
                } else {
                    None
                }
            }
        }
    }
}

impl PageTableManager {
    /// The tables as they must be written to physical memory: for each
    /// table, its frame and its 512 entries; the PML4 comes first.
    pub closed spec fn exported(self) -> Seq<(u64, Seq<u64>)> {
        Seq::new(
            self.frames@.len(),
            |k: int| (self.frames@[k], self.entries@.subrange(512 * k, 512 * k + 512)),
        )
    }

    /// The frames and entries to write to memory (see `exported`).
    pub fn export(&self) -> (r: Vec<(u64, Vec<u64>)>)
        requires
            self.wf(),
        ensures
            r@.len() == self.exported().len(),
            forall|k: int|
                0 <= k < r@.len() ==> (#[trigger] r@[k]).0 == self.exported()[k].0 && r@[k].1@
                    == self.exported()[k].1,
    {
        let n = self.frames.len();
        let mut out: Vec<(u64, Vec<u64>)> = Vec::new();
        let mut k: usize = 0;
        while k < n
            invariant
                self.wf(),
                n == self.frames@.len(),
                k <= n,
                out@.len() == k,
                forall|x: int|
                    0 <= x < k ==> (#[trigger] out@[x]).0 == self.exported()[x].0 && out@[x].1@
                        == self.exported()[x].1,
            decreases n - k,
        {
            let mut table: Vec<u64> = Vec::new();
            let mut j: usize = 0;
            while j < 512
                invariant
                    self.wf(),
                    n == self.frames@.len(),
                    k < n,
                    j <= 512,
                    table@ == self.entries@.subrange(512 * k, 512 * k + j),
                decreases 512 - j,
            {
                table.push(self.read_entry(k, j));
                j = j + 1;
                assert(table@ =~= self.entries@.subrange(512 * k, 512 * k + j));
            }
            out.push((self.frames[k], table));
            k = k + 1;
        }
        out
    }

    /// The exported tables are what the processor walks: written to memory,
    /// they translate every address as `translate` says. The frames are
    /// distinct, the PML4 (the root) comes first, and each table has 512
    /// entries.
    pub proof fn law_export_is_translate(self, v: u64)
        requires
            self.wf(),
        ensures
            self.exported().len() >= 1,
            self.exported()[0].0 == self.root(),
            forall|i: int| 0 <= i < self.exported().len() ==> (#[trigger] self.exported()[i]).1.len() == 512,
            forall|i: int, j: int|
                0 <= i < self.exported().len() && 0 <= j < self.exported().len() && i != j
                    ==> (#[trigger] self.exported()[i]).0 != (#[trigger] self.exported()[j]).0,
            self.translate(v) == hw_walk(memory_of(self.exported()), self.root(), v),
    {
        let ex = self.exported();
        let mem = memory_of(ex);
        let n = self.frames@.len();
        assert forall|i: int| 0 <= i < ex.len() implies (#[trigger] ex[i]).1.len() == 512 by {
            assert(512 * i + 512 <= 512 * n) by (nonlinear_arith)
                requires
                    i < n,
            ;
        }
        assert forall|a: u64| self.has_table(a) implies mem.contains_key(a) && mem[a] == ex[self.table_index(a)].1 by {
            self.lemma_table_index(a);
            let c = self.table_index(a);
            assert(ex[c].0 == a);
            let i = choose|i: int| 0 <= i < ex.len() && (#[trigger] ex[i]).0 == a;
            assert(self.frames@[i] == a);
        }
        assert forall|a: u64| !self.has_table(a) implies !mem.contains_key(a) by {
            if exists|i: int| 0 <= i < ex.len() && (#[trigger] ex[i]).0 == a {
                let i = choose|i: int| 0 <= i < ex.len() && (#[trigger] ex[i]).0 == a;
                assert(self.frames@[i] == a);
                assert(self.frames@.contains(a));
            }
        }
        assert forall|k: int, j: int| 0 <= k < n && 0 <= j < 512 implies #[trigger] ex[k].1[j] == self.entry(k, j) by {
            assert(512 * k + j < 512 * n) by (nonlinear_arith)
                requires
                    k < n,
                    j < 512,
            ;
        }
        assert(self.frames@.contains(self.root()));
        self.lemma_table_index(self.root());
        assert(self.table_index(self.root()) == 0);
        self.lemma_shape(v);
        let e4 = self.entry(0, pml4_index(v));
        assert(mem[self.root()][pml4_index(v)] == e4);
        if entry_present(e4) && self.has_table(entry_frame(e4)) {
            let k3 = self.table_index(entry_frame(e4));
            self.lemma_table_index(entry_frame(e4));
            let e3 = self.entry(k3, pdpt_index(v));
            assert(mem[entry_frame(e4)][pdpt_index(v)] == e3);
            if entry_present(e3) && self.has_table(entry_frame(e3)) {
                let k2 = self.table_index(entry_frame(e3));
                self.lemma_table_index(entry_frame(e3));
                let e2 = self.entry(k2, pd_index(v));
                assert(mem[entry_frame(e3)][pd_index(v)] == e2);
                if entry_present(e2) && !entry_huge(e2) && self.has_table(entry_frame(e2)) {
                    let k1 = self.table_index(entry_frame(e2));
                    self.lemma_table_index(entry_frame(e2));
                    assert(mem[entry_frame(e2)][pt_index(v)] == self.entry(k1, pt_index(v)));
                }
            }
        }
    }
}

} // verus!
