//! The operations that a submission entry can ask for, and what they are aimed at.
use vstd::prelude::*;

use crate::fs::RawFd;
use crate::types::{Fd, Fixed};

verus! {

/// A descriptor target: either a raw descriptor or an index into the registered files.
#[derive(Debug, Clone, Copy)]
pub enum Target {
    Fd(RawFd),
    Fixed(u32),
}

/// Decoded description of a submission queue operation.
#[allow(inconsistent_fields)]
#[derive(Debug, Clone, Copy)]
pub enum Op {
    Nop,
    Read { fd: Target, addr: u64, len: u32, offset: u64 },
    Write { fd: Target, addr: u64, len: u32, offset: u64 },
    Fsync { fd: Target },
    Fallocate { fd: Target, offset: u64, len: u64 },
}

/// Types accepted as the file-descriptor argument of an [`opcode`](crate::opcode).
///
/// Implemented for [`Fd`] and [`Fixed`].
pub trait UseFixed: Sized {
    /// The target that this argument stands for.
    spec fn aimed_at(self) -> Target;

    /// Returns the target that this argument stands for.
    fn target(self) -> (target: Target)
        ensures
            target == self.aimed_at(),
    ;
}

impl UseFixed for Fd {
    open spec fn aimed_at(self) -> Target {
        Target::Fd(self.0)
    }

    fn target(self) -> (target: Target) {
        Target::Fd(self.0)
    }
}

impl UseFixed for Fixed {
    open spec fn aimed_at(self) -> Target {
        Target::Fixed(self.0)
    }

    fn target(self) -> (target: Target) {
        Target::Fixed(self.0)
    }
}

} // verus!
