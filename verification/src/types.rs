//! Types shared across the boot loader.

use vstd::prelude::*;

verus! {

/// Arguments handed to the kernel at boot.
#[derive(Debug, Clone, Copy)]
pub struct KernelArgs {
    pub kernel_base: u64,
    pub kernel_size: u64,
    pub stack_base: u64,
    pub stack_size: u64,
    pub env_base: u64,
    pub env_size: u64,
    pub hwdesc_base: u64,
    pub hwdesc_size: u64,
    pub areas_base: u64,
    pub areas_size: u64,
    pub bootstrap_base: u64,
    pub bootstrap_size: u64,
}

impl KernelArgs {
    /// The arguments before anything is known: the kernel base of the
    /// linker script (0x400000), everything else zero.
    pub open spec fn spec_new() -> Self {
        KernelArgs {
            kernel_base: 0x400000,
            kernel_size: 0,
            stack_base: 0,
            stack_size: 0,
            env_base: 0,
            env_size: 0,
            hwdesc_base: 0,
            hwdesc_size: 0,
            areas_base: 0,
            areas_size: 0,
            bootstrap_base: 0,
            bootstrap_size: 0,
        }
    }

    /// The default arguments.
    pub fn new() -> (r: Self)
        ensures
            r == Self::spec_new(),
    {
        Self {
            kernel_base: 0x400000,
            kernel_size: 0,
            stack_base: 0,
            stack_size: 0,
            env_base: 0,
            env_size: 0,
            hwdesc_base: 0,
            hwdesc_size: 0,
            areas_base: 0,
            areas_size: 0,
            bootstrap_base: 0,
            bootstrap_size: 0,
        }
    }
}

impl Default for KernelArgs {
    fn default() -> (r: Self)
        ensures
            r == KernelArgs::spec_new(),
    {
        Self::new()
    }
}

/// The video framebuffer.
#[derive(Debug, Clone, Copy)]
pub struct Framebuffer {
    pub ptr: u64,
    pub size: usize,
    pub horizontal_resolution: usize,
    pub vertical_resolution: usize,
    pub stride: usize,
}

/// A file loaded into memory.
#[derive(Debug)]
pub struct LoadedFile {
    pub ptr: u64,
    pub size: usize,
}

/// An ELF kernel after loading.
#[derive(Debug)]
pub struct LoadedKernel {
    pub base_address: u64,
    pub size: u64,
    pub entry_point: u64,
}

} // verus!
