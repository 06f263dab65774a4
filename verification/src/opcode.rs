//! Operation builders that produce submission queue [`Entry`]s.
//!
//! Only the file-oriented opcodes used by the simulator are provided: [`Nop`], [`Read`],
//! [`Write`], [`Fsync`], and [`Fallocate`]. Each is shaped `new(...).offset(..).build()`.
use vstd::prelude::*;

use crate::op::{Op, Target, UseFixed};
use crate::squeue::{fixed_file, Entry, Flags};
use crate::types::FsyncFlags;

verus! {

/// The entry that an operation is built into: no user data, no flags.
pub open spec fn plain_entry(op: Op) -> Entry {
    Entry { op, user_data: 0, flags: Flags::of(0) }
}

/// A no-operation. Completes with a result of `0`.
#[derive(Debug, Clone, Copy)]
pub struct Nop;

impl Default for Nop {
    fn default() -> (nop: Nop)
        ensures
            nop == Nop,
    {
        Nop
    }
}

impl Nop {
    /// Creates a new `Nop`.
    pub fn new() -> (nop: Nop)
        ensures
            nop == Nop,
    {
        Nop
    }

    /// Builds the submission entry.
    pub fn build(self) -> (entry: Entry)
        ensures
            entry == plain_entry(Op::Nop),
            !fixed_file(entry.flags),
    {
        Entry::from_op(Op::Nop)
    }
}

/// Reads from a file descriptor at an offset, equivalent to `pread(2)`.
///
/// A read of more than `i32::MAX` bytes is a short one: it moves no more than that.
pub struct Read {
    pub fd: Target,
    /// The address of the buffer to read into.
    pub buf: u64,
    pub len: u32,
    pub offset: u64,
}

impl Read {
    /// Creates a read of `len` bytes into the buffer at address `buf` from `fd`.
    pub fn new<F: UseFixed>(fd: F, buf: u64, len: u32) -> (read: Read)
        ensures
            read == (Read { fd: fd.aimed_at(), buf, len, offset: 0 }),
    {
        Read { fd: fd.target(), buf, len, offset: 0 }
    }

    /// Sets the file offset to read from.
    pub fn offset(self, offset: u64) -> (read: Read)
        ensures
            read == (Read { offset, ..self }),
    {
        Read { offset, ..self }
    }

    /// Sets the I/O priority. Accepted but ignored by the simulator.
    pub fn ioprio(self, _ioprio: u16) -> (read: Read)
        ensures
            read == self,
    {
        self
    }

    /// Sets per-I/O `preadv2`-style flags. Accepted but ignored.
    pub fn rw_flags(self, _rw_flags: i32) -> (read: Read)
        ensures
            read == self,
    {
        self
    }

    /// Sets the buffer group for buffer selection. Accepted but ignored.
    pub fn buf_group(self, _buf_group: u16) -> (read: Read)
        ensures
            read == self,
    {
        self
    }

    /// Builds the submission entry.
    pub fn build(self) -> (entry: Entry)
        ensures
            entry == plain_entry(
                Op::Read { fd: self.fd, addr: self.buf, len: self.len, offset: self.offset },
            ),
            !fixed_file(entry.flags),
    {
        Entry::from_op(
            Op::Read { fd: self.fd, addr: self.buf, len: self.len, offset: self.offset },
        )
    }
}

/// Writes to a file descriptor at an offset, equivalent to `pwrite(2)`.
///
/// A write of more than `i32::MAX` bytes is a short one: it moves no more than that.
pub struct Write {
    pub fd: Target,
    /// The address of the buffer to write from.
    pub buf: u64,
    pub len: u32,
    pub offset: u64,
}

impl Write {
    /// Creates a write of `len` bytes from the buffer at address `buf` to `fd`.
    pub fn new<F: UseFixed>(fd: F, buf: u64, len: u32) -> (write: Write)
        ensures
            write == (Write { fd: fd.aimed_at(), buf, len, offset: 0 }),
    {
        Write { fd: fd.target(), buf, len, offset: 0 }
    }

    /// Sets the file offset to write to.
    pub fn offset(self, offset: u64) -> (write: Write)
        ensures
            write == (Write { offset, ..self }),
    {
        Write { offset, ..self }
    }

    /// Sets the I/O priority. Accepted but ignored by the simulator.
    pub fn ioprio(self, _ioprio: u16) -> (write: Write)
        ensures
            write == self,
    {
        self
    }

    /// Sets per-I/O `pwritev2`-style flags. Accepted but ignored.
    pub fn rw_flags(self, _rw_flags: i32) -> (write: Write)
        ensures
            write == self,
    {
        self
    }

    /// Builds the submission entry.
    pub fn build(self) -> (entry: Entry)
        ensures
            entry == plain_entry(
                Op::Write { fd: self.fd, addr: self.buf, len: self.len, offset: self.offset },
            ),
            !fixed_file(entry.flags),
    {
        Entry::from_op(
            Op::Write { fd: self.fd, addr: self.buf, len: self.len, offset: self.offset },
        )
    }
}

/// Synchronizes a file's state, equivalent to `fsync(2)`.
///
/// The simulator never buffers writes, so this only validates the descriptor.
pub struct Fsync {
    pub fd: Target,
}

impl Fsync {
    /// Creates an fsync of `fd`.
    pub fn new<F: UseFixed>(fd: F) -> (fsync: Fsync)
        ensures
            fsync == (Fsync { fd: fd.aimed_at() }),
    {
        Fsync { fd: fd.target() }
    }

    /// Sets the fsync flags. Accepted but ignored by the simulator.
    pub fn flags(self, _flags: FsyncFlags) -> (fsync: Fsync)
        ensures
            fsync == self,
    {
        self
    }

    /// Builds the submission entry.
    pub fn build(self) -> (entry: Entry)
        ensures
            entry == plain_entry(Op::Fsync { fd: self.fd }),
            !fixed_file(entry.flags),
    {
        Entry::from_op(Op::Fsync { fd: self.fd })
    }
}

/// Manipulates file space, equivalent to `fallocate(2)`.
///
/// The simulator only ever grows the file to `offset + len`; the `mode` is accepted but
/// ignored.
pub struct Fallocate {
    pub fd: Target,
    pub len: u64,
    pub offset: u64,
}

impl Fallocate {
    /// Creates a fallocate of `len` bytes on `fd`.
    pub fn new<F: UseFixed>(fd: F, len: u64) -> (fallocate: Fallocate)
        ensures
            fallocate == (Fallocate { fd: fd.aimed_at(), len, offset: 0 }),
    {
        Fallocate { fd: fd.target(), len, offset: 0 }
    }

    /// Sets the offset at which to allocate.
    pub fn offset(self, offset: u64) -> (fallocate: Fallocate)
        ensures
            fallocate == (Fallocate { offset, ..self }),
    {
        Fallocate { offset, ..self }
    }

    /// Sets the fallocate mode. Accepted but ignored by the simulator.
    pub fn mode(self, _mode: i32) -> (fallocate: Fallocate)
        ensures
            fallocate == self,
    {
        self
    }

    /// Builds the submission entry.
    pub fn build(self) -> (entry: Entry)
        ensures
            entry == plain_entry(
                Op::Fallocate { fd: self.fd, offset: self.offset, len: self.len },
            ),
            !fixed_file(entry.flags),
    {
        Entry::from_op(Op::Fallocate { fd: self.fd, offset: self.offset, len: self.len })
    }
}

} // verus!
