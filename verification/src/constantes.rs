use vstd::prelude::*;

verus! {

/// Granularity, in bytes, at which the recompiler indexes translated code and the page table.
pub const PAGE: u32 = 4096;

/// Number of 4 KiB pages in the 32-bit guest address space: the length of the page table.
pub const PAGINAS: usize = 1048576;

/// User-mode `CPSR`: the value the core starts with after a reset.
pub const MODO_USUARIO: u32 = 0x10;

/// The `T` bit of the `CPSR`: when set, the core fetches Thumb instructions.
pub const CPSR_THUMB: u32 = 0x20;

/// Upper bound on the bytes a single semihosting `SYS_WRITE0` may copy out of guest memory.
pub const MAX_SEMIHOSTING_STRING: u32 = 4096;

/// One in this many entries into the recompiler is timed.
pub const AMOSTRA_DO_JIT: u64 = 64;

} // verus!
