//! Multiboot 1 (GNU Multiboot specification, version 0.6).
//!
//! The header is searched in the first 8 KiB of the kernel, on 4-byte
//! boundaries. A kernel with the a.out kludge flag is loaded at the
//! addresses of its header; any other is loaded as ELF. The memory copies
//! are done by the caller, from the layout recorded here.

use vstd::prelude::*;
use vstd::string::StringSliceAdditionalSpecFns;

use super::{BootInfo, BootProtocol, ProtocolRegisters};
use crate::error::{BootError, BootResult};
use crate::memory::allocator::{FrameAllocator, FrameRequest};
use crate::types::{LoadedFile, LoadedKernel};

verus! {

/// Header magic.
pub const MB1_MAGIC: u32 = 0x1BADB002;

/// Magic handed to the kernel in EAX.
pub const MB1_BOOTLOADER_MAGIC: u32 = 0x2BADB002;

/// How far into the kernel the header is searched.
pub const MB1_HEADER_SEARCH: usize = 8192;

/// Size of the header read from the kernel.
pub const MB1_HEADER_SIZE: usize = 48;

/// Flag: load the kernel at the addresses in the header (a.out kludge).
pub const MB1_AOUT_KLUDGE: u32 = 0x1_0000;

/// Multiboot 1 header (the optional fields included).
#[derive(Debug, Clone, Copy)]
pub struct Multiboot1Header {
    pub magic: u32,
    pub flags: u32,
    pub checksum: u32,
    pub header_addr: u32,
    pub load_addr: u32,
    pub load_end_addr: u32,
    pub bss_end_addr: u32,
    pub entry_addr: u32,
    pub mode_type: u32,
    pub width: u32,
    pub height: u32,
    pub depth: u32,
}

/// The little-endian `u32` at `off`.
pub open spec fn u32_at(k: Seq<u8>, off: int) -> u32 {
    (k[off] + k[off + 1] * 0x100 + k[off + 2] * 0x1_0000 + k[off + 3] * 0x100_0000) as u32
}

/// The header read at `off`.
pub open spec fn header_at(k: Seq<u8>, off: int) -> Multiboot1Header {
    Multiboot1Header {
        magic: u32_at(k, off),
        flags: u32_at(k, off + 4),
        checksum: u32_at(k, off + 8),
        header_addr: u32_at(k, off + 12),
        load_addr: u32_at(k, off + 16),
        load_end_addr: u32_at(k, off + 20),
        bss_end_addr: u32_at(k, off + 24),
        entry_addr: u32_at(k, off + 28),
        mode_type: u32_at(k, off + 32),
        width: u32_at(k, off + 36),
        height: u32_at(k, off + 40),
        depth: u32_at(k, off + 44),
    }
}

/// Magic, flags and checksum add up to 0 modulo 2^32.
pub open spec fn checksum_ok(h: Multiboot1Header) -> bool {
    (h.magic + h.flags + h.checksum) % 0x1_0000_0000 == 0
}

/// A valid header starts at `off`.
pub open spec fn valid_header_at(k: Seq<u8>, off: int) -> bool {
    u32_at(k, off) == MB1_MAGIC && checksum_ok(header_at(k, off))
}

/// The offsets searched lie below this bound.
pub open spec fn search_end(k: Seq<u8>) -> int {
    (if k.len() < 8192 { k.len() as int } else { 8192 }) - 48
}

/// `off` is one of the offsets the search visits.
pub open spec fn searched(k: Seq<u8>, off: int) -> bool {
    0 <= off < search_end(k) && off % 4 == 0
}

/// `off` is where the search stops: the first valid header.
pub open spec fn first_header_at(k: Seq<u8>, off: int) -> bool {
    searched(k, off) && valid_header_at(k, off) && forall|o: int|
        searched(k, o) && o < off ==> !valid_header_at(k, o)
}

/// If the first header asks for the a.out kludge, its addresses are in
/// order (else loading would subtract past zero).
pub open spec fn aout_consistent(k: Seq<u8>) -> bool {
    forall|off: int|
        first_header_at(k, off) ==> (header_at(k, off).flags & MB1_AOUT_KLUDGE != 0 ==> aout_ordered(
            #[trigger] header_at(k, off),
        ))
}

/// Where an a.out-kludge kernel goes.
#[derive(Debug, Clone, Copy)]
pub struct AoutLayout {
    /// Physical address the image starts at.
    pub load_addr: u64,
    /// Offset in the kernel file of the image's first byte: the header's
    /// offset less the header's distance from `load_addr`.
    pub src_offset: u64,
    /// Bytes copied from `src_offset` on.
    pub load_size: u64,
    /// Physical address of the BSS.
    pub bss_addr: u64,
    /// Bytes of BSS to zero.
    pub bss_size: u64,
    /// Pages reserved from `load_addr` (image and BSS).
    pub pages: u64,
    /// Entry point.
    pub entry: u64,
    /// Where the reserved pages start: the image is copied there and the
    /// BSS zeroed right after it.
    pub dest: u64,
}

/// The image an a.out header (found at offset `off` of a file of `len`
/// bytes) describes lies in the file: `load_addr <= header_addr`, and the
/// image, which starts `header_addr - load_addr` bytes before the header,
/// neither starts before the file nor runs past its end.
pub open spec fn aout_image_in_file(h: Multiboot1Header, off: int, len: int) -> bool {
    &&& h.load_addr <= h.header_addr
    &&& h.header_addr - h.load_addr <= off
    &&& off - (h.header_addr - h.load_addr) + (h.load_end_addr - h.load_addr) <= len
}

/// `k` holds a valid header where the search looks.
pub open spec fn has_header(k: Seq<u8>) -> bool {
    exists|o: int| searched(k, o) && valid_header_at(k, o)
}

/// The first header of `k` asks for the a.out kludge, and its image does
/// not lie in `k`.
pub open spec fn aout_outside_file(k: Seq<u8>) -> bool {
    exists|o: int|
        #[trigger] first_header_at(k, o) && header_at(k, o).flags & MB1_AOUT_KLUDGE != 0 && !aout_image_in_file(
            header_at(k, o),
            o,
            k.len() as int,
        )
}

/// The command line does not fit, with its NUL, in one 4 KiB frame.
pub open spec fn cmdline_too_long(cmdline: Option<&str>) -> bool {
    cmdline matches Some(c) && c.spec_bytes().len() >= 4096
}

proof fn lemma_first_header_unique(k: Seq<u8>, a: int, b: int)
    requires
        first_header_at(k, a),
        first_header_at(k, b),
    ensures
        a == b,
{
    if a < b {
        assert(searched(k, a) && a < b);
        assert(!valid_header_at(k, a));
    } else if b < a {
        assert(searched(k, b) && b < a);
        assert(!valid_header_at(k, b));
    }
}

/// The bytes that go into the command-line frame: the command line and a
/// NUL.
pub fn cmdline_bytes(cmdline: &str) -> (r: Vec<u8>)
    ensures
        r@ == cmdline.spec_bytes().push(0u8),
{
    let b = cmdline.as_bytes();
    let mut out: Vec<u8> = Vec::new();
    let mut i: usize = 0;
    while i < b.len()
        invariant
            i <= b@.len(),
            b@ == cmdline.spec_bytes(),
            out@ == b@.subrange(0, i as int),
        decreases b@.len() - i,
    {
        out.push(b[i]);
        i = i + 1;
        assert(out@ =~= b@.subrange(0, i as int));
    }
    assert(b@.subrange(0, b@.len() as int) =~= b@);
    out.push(0);
    out
}

/// The layout of an a.out-kludge kernel from its header (found at offset
/// `off` of the file), with the pages reserved at `dest`.
pub open spec fn aout_layout(h: Multiboot1Header, off: int, dest: u64) -> AoutLayout {
    AoutLayout {
        load_addr: h.load_addr as u64,
        src_offset: (off - (h.header_addr - h.load_addr)) as u64,
        load_size: (h.load_end_addr - h.load_addr) as u64,
        bss_addr: h.load_end_addr as u64,
        bss_size: (h.bss_end_addr - h.load_end_addr) as u64,
        pages: ((h.bss_end_addr - h.load_addr + 4095) / 4096) as u64,
        entry: h.entry_addr as u64,
        dest,
    }
}

/// The header's addresses are ordered: load start, load end, BSS end.
pub open spec fn aout_ordered(h: Multiboot1Header) -> bool {
    h.load_addr <= h.load_end_addr <= h.bss_end_addr
}

/// The Multiboot information block (MBI) handed to the kernel in EBX.
#[derive(Debug, Clone, Copy)]
pub struct Multiboot1Info {
    pub flags: u32,
    pub mem_lower: u32,
    pub mem_upper: u32,
    pub boot_device: u32,
    pub cmdline: u32,
    pub mods_count: u32,
    pub mods_addr: u32,
    pub syms: [u32; 4],
    pub mmap_length: u32,
    pub mmap_addr: u32,
    pub drives_length: u32,
    pub drives_addr: u32,
    pub config_table: u32,
    pub boot_loader_name: u32,
    pub apm_table: u32,
    pub vbe_control_info: u32,
    pub vbe_mode_info: u32,
    pub vbe_mode: u16,
    pub vbe_interface_seg: u16,
    pub vbe_interface_off: u16,
    pub vbe_interface_len: u16,
    pub framebuffer_addr: u64,
    pub framebuffer_pitch: u32,
    pub framebuffer_width: u32,
    pub framebuffer_height: u32,
    pub framebuffer_bpp: u8,
    pub framebuffer_type: u8,
    pub color_info: [u8; 6],
}

/// The MBI written: everything zero except the command line, which (when
/// there is one) is given by its address truncated to 32 bits, with flag 4.
pub open spec fn mbi_info(cmdline_addr: Option<u64>) -> Multiboot1Info {
    Multiboot1Info {
        flags: if cmdline_addr is Some { 4 } else { 0 },
        mem_lower: 0,
        mem_upper: 0,
        boot_device: 0,
        cmdline: match cmdline_addr {
            Some(a) => #[verifier::truncate] (a as u32),
            None => 0,
        },
        mods_count: 0,
        mods_addr: 0,
        syms: [0, 0, 0, 0],
        mmap_length: 0,
        mmap_addr: 0,
        drives_length: 0,
        drives_addr: 0,
        config_table: 0,
        boot_loader_name: 0,
        apm_table: 0,
        vbe_control_info: 0,
        vbe_mode_info: 0,
        vbe_mode: 0,
        vbe_interface_seg: 0,
        vbe_interface_off: 0,
        vbe_interface_len: 0,
        framebuffer_addr: 0,
        framebuffer_pitch: 0,
        framebuffer_width: 0,
        framebuffer_height: 0,
        framebuffer_bpp: 0,
        framebuffer_type: 0,
        color_info: [0, 0, 0, 0, 0, 0],
    }
}

/// Where the MBI and the command line go.
#[derive(Debug, Clone, Copy)]
pub struct MbiLayout {
    /// Physical address of the MBI.
    pub mbi_addr: u64,
    /// The MBI to write there.
    pub info: Multiboot1Info,
    /// Physical address of the command line (NUL-terminated), if any.
    pub cmdline_addr: Option<u64>,
}

/// The Multiboot 1 protocol.
pub struct Multiboot1Protocol<'a, A: FrameAllocator + ?Sized> {
    allocator: &'a mut A,
    header: Option<Multiboot1Header>,
    entry_point: u64,
    load_addr: u64,
    aout: Option<AoutLayout>,
    mbi: Option<MbiLayout>,
    requests: Ghost<Seq<FrameRequest>>,
}

fn read_u32(k: &[u8], off: usize) -> (r: u32)
    requires
        off + 4 <= k@.len(),
    ensures
        r == u32_at(k@, off as int),
{
    (k[off] as u32) + (k[off + 1] as u32) * 0x100 + (k[off + 2] as u32) * 0x1_0000 + (k[off + 3] as u32)
        * 0x100_0000
}

fn read_header(k: &[u8], off: usize) -> (h: Multiboot1Header)
    requires
        off + 48 <= k@.len(),
    ensures
        h == header_at(k@, off as int),
{
    let _len = k.len();
    Multiboot1Header {
        magic: read_u32(k, off),
        flags: read_u32(k, off + 4),
        checksum: read_u32(k, off + 8),
        header_addr: read_u32(k, off + 12),
        load_addr: read_u32(k, off + 16),
        load_end_addr: read_u32(k, off + 20),
        bss_end_addr: read_u32(k, off + 24),
        entry_addr: read_u32(k, off + 28),
        mode_type: read_u32(k, off + 32),
        width: read_u32(k, off + 36),
        height: read_u32(k, off + 40),
        depth: read_u32(k, off + 44),
    }
}

/// Reads the header at `off` if a valid one starts there.
#[verifier::rlimit(30)]
fn header_if_valid(k: &[u8], off: usize) -> (r: Option<Multiboot1Header>)
    requires
        off + 48 <= k@.len(),
    ensures
        r is Some <==> valid_header_at(k@, off as int),
        r matches Some(h) ==> h == header_at(k@, off as int),
{
    let magic = read_u32(k, off);
    if magic != MB1_MAGIC {
        return None;
    }
    let header = read_header(k, off);
    let checksum = header.magic.wrapping_add(header.flags).wrapping_add(header.checksum);
    if checksum == 0 {
        Some(header)
    } else {
        None
    }
}

impl<'a, A: FrameAllocator + ?Sized> Multiboot1Protocol<'a, A> {
    pub closed spec fn spec_entry_point(&self) -> u64 {
        self.entry_point
    }

    pub closed spec fn spec_load_addr(&self) -> u64 {
        self.load_addr
    }

    pub closed spec fn spec_header(&self) -> Option<Multiboot1Header> {
        self.header
    }

    /// The a.out layout recorded by the last load, if it used the kludge.
    pub closed spec fn spec_aout(&self) -> Option<AoutLayout> {
        self.aout
    }

    /// The MBI layout recorded by the last `create_mbi`.
    pub closed spec fn spec_mbi(&self) -> Option<MbiLayout> {
        self.mbi
    }

    /// The requests the protocol made to its frame allocator, in order.
    pub closed spec fn spec_requests(&self) -> Seq<FrameRequest> {
        self.requests@
    }

    /// Asks the allocator for `count` frames at `at` (anywhere if `None`)
    /// and records the request.
    fn request(&mut self, at: Option<u64>, count: usize) -> (r: BootResult<u64>)
        ensures
            final(self).spec_requests() == old(self).spec_requests().push(
                FrameRequest { at, count, result: r },
            ),
            final(self).spec_header() == old(self).spec_header(),
            final(self).spec_entry_point() == old(self).spec_entry_point(),
            final(self).spec_load_addr() == old(self).spec_load_addr(),
            final(self).spec_aout() == old(self).spec_aout(),
            final(self).spec_mbi() == old(self).spec_mbi(),
    {
        let r = match at {
            Some(addr) => self.allocator.allocate_at(addr, count),
            None => self.allocator.allocate_frame(count),
        };
        proof {
            self.requests@ = self.requests@.push(FrameRequest { at, count, result: r });
        }
        r
    }

    /// The protocol over a frame allocator; nothing loaded yet.
    pub fn new(allocator: &'a mut A) -> (r: Self)
        ensures
            r.spec_header() is None,
            r.spec_entry_point() == 0,
            r.spec_load_addr() == 0,
            r.spec_requests() == Seq::<FrameRequest>::empty(),
    {
        Self {
            allocator,
            header: None,
            entry_point: 0,
            load_addr: 0,
            aout: None,
            mbi: None,
            requests: Ghost(Seq::empty()),
        }
    }

    /// The a.out layout the caller copies the kernel by.
    pub fn aout_layout(&self) -> (r: Option<AoutLayout>)
        ensures
            r == self.spec_aout(),
    {
        self.aout
    }

    /// The MBI layout the caller writes.
    pub fn mbi_layout(&self) -> (r: Option<MbiLayout>)
        ensures
            r == self.spec_mbi(),
    {
        self.mbi
    }

    /// Finds the first valid header: the magic on a 4-byte boundary in the
    /// first 8 KiB, with a checksum that brings magic, flags and checksum to
    /// 0. Returns it with its offset.
    #[verifier::rlimit(30)]
    pub fn find_header(&self, kernel: &[u8]) -> (r: BootResult<(Multiboot1Header, usize)>)
        requires
            kernel@.len() >= 48,
        ensures
            r matches Ok((h, off)) ==> {
                &&& searched(kernel@, off as int)
                &&& valid_header_at(kernel@, off as int)
                &&& h == header_at(kernel@, off as int)
                &&& forall|o: int| searched(kernel@, o) && o < off ==> !valid_header_at(kernel@, o)
            },
            r matches Err(e) ==> {
                &&& e == BootError::Generic("Multiboot 1 header not found")
                &&& forall|o: int| searched(kernel@, o) ==> !valid_header_at(kernel@, o)
            },
    {
        let search_len = if MB1_HEADER_SEARCH < kernel.len() {
            MB1_HEADER_SEARCH
        } else {
            kernel.len()
        };
        let end = search_len - MB1_HEADER_SIZE;
        let mut offset: usize = 0;
        while offset < end
            invariant
                end == search_end(kernel@),
                end + 48 <= kernel@.len(),
                offset % 4 == 0,
                offset <= end + 3,
                forall|o: int| searched(kernel@, o) && o < offset ==> !valid_header_at(kernel@, o),
            decreases end + 4 - offset,
        {
            if let Some(header) = header_if_valid(kernel, offset) {
                return Ok((header, offset));
            }
            offset = offset + 4;
        }
        Err(BootError::Generic("Multiboot 1 header not found"))
    }

    /// Loads the kernel: with the a.out kludge, reserves the pages from the
    /// header's load address and records the layout to copy (the image
    /// starts in the file `header_addr - load_addr` bytes before the header,
    /// found at `header_offset`; an image that does not lie in the file is
    /// refused before anything is reserved); otherwise takes what the ELF loader
    /// did. Records the entry point and load address and returns the load
    /// address.
    pub fn load_kernel(
        &mut self,
        kernel: &[u8],
        header: &Multiboot1Header,
        header_offset: usize,
        elf: &LoadedKernel,
    ) -> (r: BootResult<u64>)
        requires
            header.flags & MB1_AOUT_KLUDGE != 0 ==> aout_ordered(*header),
        ensures
            header.flags & MB1_AOUT_KLUDGE != 0 && !aout_image_in_file(*header, header_offset as int, kernel@.len() as int) ==> {
                &&& r == Err::<u64, BootError>(BootError::Generic("Multiboot 1 a.out image outside the kernel file"))
                &&& final(self).spec_requests() == old(self).spec_requests()
                &&& final(self).spec_aout() == old(self).spec_aout()
                &&& final(self).spec_entry_point() == old(self).spec_entry_point()
                &&& final(self).spec_load_addr() == old(self).spec_load_addr()
            },
            header.flags & MB1_AOUT_KLUDGE != 0 && aout_image_in_file(*header, header_offset as int, kernel@.len() as int) ==> {
                &&& final(self).spec_requests().len() == old(self).spec_requests().len() + 1
                &&& final(self).spec_requests().drop_last() == old(self).spec_requests()
                &&& final(self).spec_requests().last().at == Some(header.load_addr as u64)
                &&& final(self).spec_requests().last().count == aout_layout(*header, header_offset as int, 0).pages as usize
                &&& r is Err ==> final(self).spec_requests().last().result == r
                &&& r is Ok ==> {
                    &&& r == Ok::<u64, BootError>(header.load_addr as u64)
                    &&& final(self).spec_aout() matches Some(l) && l == aout_layout(*header, header_offset as int, l.dest)
                        && final(self).spec_requests().last().result == Ok::<u64, BootError>(l.dest)
                    &&& final(self).spec_entry_point() == header.entry_addr as u64
                    &&& final(self).spec_load_addr() == header.load_addr as u64
                }
            },
            header.flags & MB1_AOUT_KLUDGE == 0 ==> {
                &&& r == Ok::<u64, BootError>(elf.base_address)
                &&& final(self).spec_requests() == old(self).spec_requests()
                &&& final(self).spec_aout() is None
                &&& final(self).spec_entry_point() == elf.entry_point
                &&& final(self).spec_load_addr() == elf.base_address
            },
            final(self).spec_header() == old(self).spec_header(),
            final(self).spec_mbi() == old(self).spec_mbi(),
    {
        if header.flags & MB1_AOUT_KLUDGE != 0 {
            let load_addr = header.load_addr as u64;
            let load_end = header.load_end_addr as u64;
            let bss_end = header.bss_end_addr as u64;
            let entry = header.entry_addr as u64;
            if header.header_addr < header.load_addr
                || (header.header_addr - header.load_addr) as u64 > header_offset as u64 {
                return Err(BootError::Generic("Multiboot 1 a.out image outside the kernel file"));
            }
            let src_offset = header_offset as u64 - (header.header_addr - header.load_addr) as u64;
            let load_size = load_end - load_addr;
            let file_len = kernel.len() as u64;
            if src_offset > file_len || load_size > file_len - src_offset {
                return Err(BootError::Generic("Multiboot 1 a.out image outside the kernel file"));
            }
            let pages = (bss_end - load_addr + 4095) / 4096;
            let mem = match self.request(Some(load_addr), pages as usize) {
                Ok(m) => m,
                Err(e) => return Err(e),
            };
            let layout = AoutLayout {
                load_addr,
                src_offset,
                load_size,
                bss_addr: load_end,
                bss_size: bss_end - load_end,
                pages,
                entry,
                dest: mem,
            };
            self.aout = Some(layout);
            self.entry_point = entry;
            self.load_addr = load_addr;
            Ok(load_addr)
        } else {
            self.aout = None;
            self.entry_point = elf.entry_point;
            self.load_addr = elf.base_address;
            Ok(elf.base_address)
        }
    }

    /// Reserves the MBI (and a frame for the command line, if any) and
    /// records what to write: an all-zero MBI, with the command-line
    /// address (truncated to 32 bits) and flag 4 when there is one; the
    /// command-line frame gets `cmdline_bytes`. A command line that does not
    /// fit in its frame is refused before anything is reserved.
    pub fn create_mbi(&mut self, cmdline: Option<&str>, _modules: &[LoadedFile]) -> (r: BootResult<u64>)
        ensures
            cmdline_too_long(cmdline) ==> {
                &&& r == Err::<u64, BootError>(BootError::Generic("Multiboot 1 command line does not fit in its page"))
                &&& final(self).spec_requests() == old(self).spec_requests()
                &&& final(self).spec_mbi() == old(self).spec_mbi()
            },
            r matches Ok(mbi) ==> {
                &&& final(self).spec_mbi() matches Some(m)
                &&& m.mbi_addr == mbi
                &&& m.info == mbi_info(m.cmdline_addr)
                &&& (cmdline is None <==> m.cmdline_addr is None)
                &&& cmdline is None ==> final(self).spec_requests() == old(self).spec_requests().push(
                    FrameRequest { at: None, count: 1, result: Ok(mbi) },
                )
                &&& cmdline is Some ==> final(self).spec_requests() == old(self).spec_requests().push(
                    FrameRequest { at: None, count: 1, result: Ok(mbi) },
                ).push(FrameRequest { at: None, count: 1, result: Ok(m.cmdline_addr->Some_0) })
            },
            r is Err && !cmdline_too_long(cmdline) ==> {
                &&& final(self).spec_requests().last() == (FrameRequest { at: None, count: 1, result: r })
                &&& final(self).spec_requests().subrange(0, old(self).spec_requests().len() as int)
                    == old(self).spec_requests()
                &&& cmdline is None ==> final(self).spec_requests().len() == old(self).spec_requests().len()
                    + 1
                &&& cmdline is Some ==> (final(self).spec_requests().len() == old(
                    self,
                ).spec_requests().len() + 1 || (final(self).spec_requests().len()
                    == old(self).spec_requests().len() + 2 && final(self).spec_requests()[old(
                    self,
                ).spec_requests().len() as int].result is Ok && final(self).spec_requests()[old(
                    self,
                ).spec_requests().len() as int].at is None && final(self).spec_requests()[old(
                    self,
                ).spec_requests().len() as int].count == 1))
            },
            final(self).spec_entry_point() == old(self).spec_entry_point(),
            final(self).spec_load_addr() == old(self).spec_load_addr(),
            final(self).spec_header() == old(self).spec_header(),
            final(self).spec_aout() == old(self).spec_aout(),
    {
        let too_long = match cmdline {
            Some(c) => c.as_bytes().len() >= 4096,
            None => false,
        };
        if too_long {
            return Err(BootError::Generic("Multiboot 1 command line does not fit in its page"));
        }
        proof {
            assert(!cmdline_too_long(cmdline));
        }
        let mbi_ptr = match self.request(None, 1) {
            Ok(p) => p,
            Err(e) => return Err(e),
        };
        let mut info = Multiboot1Info {
            flags: 0,
            mem_lower: 0,
            mem_upper: 0,
            boot_device: 0,
            cmdline: 0,
            mods_count: 0,
            mods_addr: 0,
            syms: [0, 0, 0, 0],
            mmap_length: 0,
            mmap_addr: 0,
            drives_length: 0,
            drives_addr: 0,
            config_table: 0,
            boot_loader_name: 0,
            apm_table: 0,
            vbe_control_info: 0,
            vbe_mode_info: 0,
            vbe_mode: 0,
            vbe_interface_seg: 0,
            vbe_interface_off: 0,
            vbe_interface_len: 0,
            framebuffer_addr: 0,
            framebuffer_pitch: 0,
            framebuffer_width: 0,
            framebuffer_height: 0,
            framebuffer_bpp: 0,
            framebuffer_type: 0,
            color_info: [0, 0, 0, 0, 0, 0],
        };
        let mut cmdline_addr: Option<u64> = None;
        if let Some(_cmd) = cmdline {
            let cmd_ptr = match self.request(None, 1) {
                Ok(p) => p,
                Err(e) => return Err(e),
            };
            info.cmdline = cmd_ptr as u32;
            info.flags = info.flags | 4;
            cmdline_addr = Some(cmd_ptr);
            assert(0u32 | 4u32 == 4u32) by (bit_vector);
        }
        self.mbi = Some(MbiLayout { mbi_addr: mbi_ptr, info, cmdline_addr });
        Ok(mbi_ptr)
    }
}

impl<'a, A: FrameAllocator + ?Sized> BootProtocol for Multiboot1Protocol<'a, A> {
    /// The header search needs 48 bytes, and an a.out header must have its
    /// addresses in order.
    open spec fn accepts(&self, kernel: Seq<u8>) -> bool {
        kernel.len() >= 48 && aout_consistent(kernel)
    }

    /// The kernel must hold a valid header.
    fn validate(&self, kernel: &[u8]) -> (r: BootResult<()>)
        ensures
            r is Ok <==> exists|o: int| searched(kernel@, o) && valid_header_at(kernel@, o),
            r matches Err(e) ==> e == BootError::Generic("Multiboot 1 header not found"),
    {
        match self.find_header(kernel) {
            Ok(_) => Ok(()),
            Err(e) => Err(e),
        }
    }

    /// Finds the header, loads the kernel, creates the MBI; the kernel gets
    /// the boot-loader magic in EAX and the MBI in EBX.
    #[verifier::rlimit(30)]
    fn prepare(
        &mut self,
        kernel: &[u8],
        loaded: &LoadedKernel,
        cmdline: Option<&str>,
        modules: &[LoadedFile],
    ) -> (r: BootResult<BootInfo>)
        ensures
            r matches Ok(info) ==> {
                &&& final(self).spec_header() matches Some(h) && (exists|o: int|
                    #[trigger] first_header_at(kernel@, o) && h == header_at(kernel@, o) && (h.flags
                    & MB1_AOUT_KLUDGE != 0 ==> (final(self).spec_aout() matches Some(l) && l == aout_layout(
                    h,
                    o,
                    l.dest,
                )))) && (if h.flags & MB1_AOUT_KLUDGE != 0 {
                    &&& info.entry_point == h.entry_addr as u64
                    &&& info.kernel_base == h.load_addr as u64
                    &&& final(self).spec_aout() is Some
                } else {
                    &&& info.entry_point == loaded.entry_point
                    &&& info.kernel_base == loaded.base_address
                    &&& final(self).spec_aout() is None
                })
                &&& info.entry_point == final(self).spec_entry_point()
                &&& info.kernel_base == final(self).spec_load_addr()
                &&& info.kernel_size == kernel@.len()
                &&& info.stack_ptr is None
                &&& final(self).spec_mbi() matches Some(m) && info.boot_info_ptr == m.mbi_addr
                &&& info.registers.rax == Some(MB1_BOOTLOADER_MAGIC as u64)
                &&& info.registers.rbx == Some(info.boot_info_ptr)
                &&& info.registers.rcx is None && info.registers.rdx is None
                &&& info.registers.rsi is None && info.registers.r8 is None && info.registers.r9 is None
            },
            !has_header(kernel@) ==> r == Err::<BootInfo, BootError>(
                BootError::Generic("Multiboot 1 header not found"),
            ) && final(self).spec_requests() == old(self).spec_requests(),
            aout_outside_file(kernel@) ==> r == Err::<BootInfo, BootError>(
                BootError::Generic("Multiboot 1 a.out image outside the kernel file"),
            ) && final(self).spec_requests() == old(self).spec_requests(),
            has_header(kernel@) && !aout_outside_file(kernel@) && cmdline_too_long(cmdline) ==> r is Err,
            final(self).spec_requests().len() >= old(self).spec_requests().len(),
            final(self).spec_requests().subrange(0, old(self).spec_requests().len() as int) == old(
                self,
            ).spec_requests(),
            has_header(kernel@) && !aout_outside_file(kernel@) && r is Err ==> {
                ||| cmdline_too_long(cmdline) && r == Err::<BootInfo, BootError>(
                    BootError::Generic("Multiboot 1 command line does not fit in its page"),
                )
                ||| final(self).spec_requests().len() > old(self).spec_requests().len()
                    && final(self).spec_requests().last().result == Err::<u64, BootError>(r->Err_0)
            },
    {
        let ghost q0 = self.spec_requests();
        proof {
            assert(q0.subrange(0, q0.len() as int) =~= q0);
        }
        let (header, offset) = match self.find_header(kernel) {
            Ok(found) => found,
            Err(e) => return Err(e),
        };
        proof {
            assert(has_header(kernel@));
            assert(first_header_at(kernel@, offset as int));
            if aout_outside_file(kernel@) {
                let o = choose|o: int|
                    #[trigger] first_header_at(kernel@, o) && header_at(kernel@, o).flags & MB1_AOUT_KLUDGE != 0
                        && !aout_image_in_file(header_at(kernel@, o), o, kernel@.len() as int);
                lemma_first_header_unique(kernel@, o, offset as int);
            } else {
                assert(header.flags & MB1_AOUT_KLUDGE != 0 ==> aout_image_in_file(
                    header,
                    offset as int,
                    kernel@.len() as int,
                ));
            }
        }
        self.header = Some(header);
        match self.load_kernel(kernel, &header, offset, loaded) {
            Ok(_) => {},
            Err(e) => {
                proof {
                    assert(self.spec_requests().subrange(0, q0.len() as int) =~= q0);
                }
                return Err(e);
            },
        }
        let ghost q1 = self.spec_requests();
        proof {
            assert(q1.subrange(0, q0.len() as int) =~= q0);
        }
        let ghost aout = self.aout;
        proof {
            assert(first_header_at(kernel@, offset as int));
            assert(header.flags & MB1_AOUT_KLUDGE != 0 ==> (aout matches Some(l) && l == aout_layout(
                header,
                offset as int,
                l.dest,
            )));
        }
        let mbi_ptr = match self.create_mbi(cmdline, modules) {
            Ok(p) => p,
            Err(e) => {
                proof {
                    if !cmdline_too_long(cmdline) {
                        assert(self.spec_requests().subrange(0, q1.len() as int) == q1);
                    }
                    assert(self.spec_requests().subrange(0, q0.len() as int) =~= q0);
                }
                return Err(e);
            },
        };
        proof {
            assert(self.spec_requests().subrange(0, q0.len() as int) =~= q0);
        }
        let mut registers = ProtocolRegisters::default();
        registers.rax = Some(MB1_BOOTLOADER_MAGIC as u64);
        registers.rbx = Some(mbi_ptr);
        proof {
            assert(self.aout == aout);
            assert(first_header_at(kernel@, offset as int) && header == header_at(kernel@, offset as int) && (
            header.flags & MB1_AOUT_KLUDGE != 0 ==> (self.spec_aout() matches Some(l) && l == aout_layout(
                header,
                offset as int,
                l.dest,
            ))));
        }
        Ok(BootInfo {
            entry_point: self.entry_point,
            kernel_base: self.load_addr,
            kernel_size: kernel.len() as u64,
            stack_ptr: None,
            boot_info_ptr: mbi_ptr,
            registers,
        })
    }

    fn entry_point(&self) -> (r: u64)
        ensures
            r == self.spec_entry_point(),
    {
        self.entry_point
    }

    fn name(&self) -> (r: &'static str)
        ensures
            r == "multiboot1",
    {
        "multiboot1"
    }
}

} // verus!
