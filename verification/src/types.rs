//! Common types referenced by submission entries.
use vstd::prelude::*;

use crate::fs::RawFd;

verus! {

/// A raw file descriptor that has not been registered with the ring.
#[derive(Debug, Clone, Copy)]
pub struct Fd(pub RawFd);

/// An index into the files registered via
/// [`Submitter::register_files`](crate::ring::Submitter::register_files).
#[derive(Debug, Clone, Copy)]
pub struct Fixed(pub u32);

/// The address and length of a buffer to register.
#[derive(Debug, Clone, Copy)]
pub struct IoVec {
    pub iov_base: u64,
    pub iov_len: usize,
}

/// Flags for the [`Fsync`](crate::opcode::Fsync) operation.
#[derive(Debug, Clone, Copy, PartialEq, Eq, Structural)]
pub struct FsyncFlags(u32);

impl View for FsyncFlags {
    type V = u32;

    closed spec fn view(&self) -> u32 {
        self.0
    }
}

impl Default for FsyncFlags {
    fn default() -> (flags: FsyncFlags)
        ensures
            flags@ == 0,
    {
        FsyncFlags(0)
    }
}

impl FsyncFlags {
    /// Full file integrity sync (the default).
    pub fn empty() -> (flags: FsyncFlags)
        ensures
            flags@ == 0,
    {
        FsyncFlags(0)
    }

    /// Data-only sync, like `fdatasync(2)`.
    pub fn datasync() -> (flags: FsyncFlags)
        ensures
            flags@ == 1,
    {
        FsyncFlags(1)
    }

    /// Returns the raw bits of the flags.
    pub fn bits(self) -> (bits: u32)
        ensures
            bits == self@,
    {
        self.0
    }

    /// The flags with these raw bits.
    pub closed spec fn of(bits: u32) -> FsyncFlags {
        FsyncFlags(bits)
    }

    /// Flags are told apart by their raw bits alone.
    pub proof fn lemma_of(bits: u32)
        ensures
            FsyncFlags::of(bits)@ == bits,
            forall|flags: FsyncFlags| #[trigger] flags@ == bits ==> flags == FsyncFlags::of(bits),
    {
    }
}

impl std::ops::BitOr for FsyncFlags {
    type Output = FsyncFlags;

    fn bitor(self, rhs: FsyncFlags) -> (both: FsyncFlags)
        ensures
            both@ == self@ | rhs@,
    {
        FsyncFlags(self.0 | rhs.0)
    }
}

impl vstd::std_specs::ops::BitOrSpecImpl for FsyncFlags {
    open spec fn obeys_bitor_spec() -> bool {
        true
    }

    open spec fn bitor_req(self, rhs: FsyncFlags) -> bool {
        true
    }

    open spec fn bitor_spec(self, rhs: FsyncFlags) -> FsyncFlags {
        FsyncFlags::of(self@ | rhs@)
    }
}

} // verus!
