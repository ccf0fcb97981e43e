//! Reading blocks from a disk image held in memory.

use vstd::prelude::*;

verus! {

/// Block size of the file system read from disk.
pub const BLOCK_SIZE: u64 = 4096;

/// Reads block `block` of an in-memory image into `buffer` (as many bytes
/// as the buffer holds); returns the bytes read.
pub fn file_read_at(data: &[u8], block: u64, buffer: &mut Vec<u8>) -> (r: usize)
    requires
        block * BLOCK_SIZE + old(buffer)@.len() <= data@.len(),
    ensures
        r == old(buffer)@.len(),
        final(buffer)@ == data@.subrange(
            block * BLOCK_SIZE,
            block * BLOCK_SIZE + old(buffer)@.len(),
        ),
{
    let _dlen = data.len();
    let start = (block * BLOCK_SIZE) as usize;
    let n = buffer.len();
    let mut i: usize = 0;
    while i < n
        invariant
            start == block * BLOCK_SIZE,
            start + n <= data@.len(),
            data@.len() <= usize::MAX,
            n == buffer@.len(),
            i <= n,
            forall|x: int| 0 <= x < i ==> buffer@[x] == data@[start + x],
        decreases n - i,
    {
        buffer.set(i, data[start + i]);
        i = i + 1;
    }
    assert(buffer@ =~= data@.subrange(start as int, start + n));
    n
}

/// The firmware block (LBA) holding file-system block `block` on a device
/// with blocks of `device_block_size` bytes.
pub fn block_to_lba(block: u64, device_block_size: u32) -> (r: u64)
    requires
        device_block_size > 0,
        block * BLOCK_SIZE <= u64::MAX,
    ensures
        r == block * BLOCK_SIZE / (device_block_size as int),
{
    block * BLOCK_SIZE / (device_block_size as u64)
}

} // verus!
