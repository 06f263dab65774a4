//! What submission entries do: the state that they act on, the result of each and what it
//! leaves behind, and the effect of a batch.
use vstd::prelude::*;

use crate::cqueue;
use crate::error::{ebadf_number, efault_number, efbig_number, eio_number, Error};
use crate::fs::{lemma_with_data, NodeView, RawFd};
use crate::mem::{loaded, mapped, stored};
use crate::op::{Op, Target};
use crate::squeue::{fixed_file, Entry, Flags};

verus! {

/// What operations act on: the files of a node and the memory of the submitting process.
#[verifier::ext_equal]
pub struct World {
    pub node: NodeView,
    pub mem: Map<u64, u8>,
}

/// The descriptor that a target stands for: itself, or the registered file at an index. An
/// index past the registered files, or at a negative descriptor, is `EBADF`.
pub open spec fn resolved(files: Seq<RawFd>, target: Target) -> Result<RawFd, Error> {
    match target {
        Target::Fd(fd) => Ok(fd),
        Target::Fixed(index) => if index < files.len() && files[index as int] >= 0 {
            Ok(files[index as int])
        } else {
            Err(Error::Os(ebadf_number()))
        },
    }
}

/// What an operation is aimed at.
pub open spec fn aim(op: Op) -> Option<Target> {
    match op {
        Op::Nop => None,
        Op::Read { fd, addr: _, len: _, offset: _ } => Some(fd),
        Op::Write { fd, addr: _, len: _, offset: _ } => Some(fd),
        Op::Fsync { fd } => Some(fd),
        Op::Fallocate { fd, offset: _, len: _ } => Some(fd),
    }
}

/// An operation aimed elsewhere.
pub open spec fn aimed(op: Op, target: Target) -> Op {
    match op {
        Op::Nop => Op::Nop,
        Op::Read { fd: _, addr, len, offset } => Op::Read { fd: target, addr, len, offset },
        Op::Write { fd: _, addr, len, offset } => Op::Write { fd: target, addr, len, offset },
        Op::Fsync { fd: _ } => Op::Fsync { fd: target },
        Op::Fallocate { fd: _, offset, len } => Op::Fallocate { fd: target, offset, len },
    }
}

/// What a target means under an entry's flags: where they say so, a descriptor is an index
/// into the registered files.
pub open spec fn meant(target: Target, flags: Flags) -> Target {
    match target {
        Target::Fd(fd) => if fixed_file(flags) && fd >= 0 {
            Target::Fixed(fd as u32)
        } else {
            target
        },
        Target::Fixed(_) => target,
    }
}

/// The operation that an entry asks for under its flags. A negative index into the
/// registered files is `EBADF`, whatever the operation.
pub open spec fn intended(entry: Entry) -> Result<Op, Error> {
    match aim(entry.op) {
        None => Ok(entry.op),
        Some(target) => if fixed_file(entry.flags) && (target matches Target::Fd(fd) && fd < 0) {
            Err(Error::Os(ebadf_number()))
        } else {
            Ok(aimed(entry.op, meant(target, entry.flags)))
        },
    }
}

/// How many bytes a transfer of `len` bytes sets out to move. A completion reports a count in
/// an `i32`, so a longer transfer is a short one.
pub open spec fn moved(len: u32) -> int {
    if len > i32::MAX {
        i32::MAX as int
    } else {
        len as int
    }
}

/// Returns how many bytes a transfer of `len` bytes sets out to move.
pub fn transfer_len(len: u32) -> (count: u32)
    ensures
        count == moved(len),
{
    if len > 0x7fff_ffff {
        0x7fff_ffff
    } else {
        len
    }
}

/// The descriptor that a transfer of `len` bytes at address `addr` goes through, where the
/// transfer gets that far: `None` for one of no bytes, which succeeds at once. A null buffer
/// is `EFAULT`.
pub open spec fn channel(files: Seq<RawFd>, target: Target, addr: u64, len: u32) -> Result<
    Option<RawFd>,
    Error,
> {
    match resolved(files, target) {
        Err(error) => Err(error),
        Ok(fd) => if len == 0 {
            Ok(None)
        } else if addr == 0 {
            Err(Error::Os(efault_number()))
        } else {
            Ok(Some(fd))
        },
    }
}

/// The outcome of an operation: how many bytes it moved, or its error.
pub open spec fn outcome(op: Op, files: Seq<RawFd>, world: World) -> Result<int, Error> {
    match op {
        Op::Nop => Ok(0),
        Op::Read { fd, addr, len, offset } => match channel(files, fd, addr, len) {
            Err(error) => Err(error),
            Ok(None) => Ok(0),
            Ok(Some(raw)) => match world.node.behind(raw, false) {
                Err(error) => Err(error),
                Ok(_) => Ok(world.node.fd_read(raw, moved(len), offset as int).len() as int),
            },
        },
        Op::Write { fd, addr, len, offset } => match channel(files, fd, addr, len) {
            Err(error) => Err(error),
            Ok(None) => Ok(0),
            Ok(Some(raw)) => match world.node.behind(raw, true) {
                Err(error) => Err(error),
                Ok(_) => Ok(moved(len)),
            },
        },
        Op::Fsync { fd } => match resolved(files, fd) {
            Err(error) => Err(error),
            Ok(raw) => match world.node.behind(raw, false) {
                Err(error) => Err(error),
                Ok(_) => Ok(0),
            },
        },
        Op::Fallocate { fd, offset, len } => match resolved(files, fd) {
            Err(error) => Err(error),
            Ok(raw) => match world.node.behind(raw, true) {
                Err(error) => Err(error),
                Ok(_) => if offset + len > usize::MAX {
                    Err(Error::Os(efbig_number()))
                } else {
                    Ok(0)
                },
            },
        },
    }
}

/// What an operation leaves behind: a read fills memory, a write and an allocation change
/// the file, and everything else leaves all as it was.
pub open spec fn effect(op: Op, files: Seq<RawFd>, world: World) -> World {
    match op {
        Op::Read { fd, addr, len, offset } => match channel(files, fd, addr, len) {
            Ok(Some(raw)) => World {
                mem: stored(
                    world.mem,
                    addr as int,
                    world.node.fd_read(raw, moved(len), offset as int),
                ),
                ..world
            },
            _ => world,
        },
        Op::Write { fd, addr, len, offset } => match channel(files, fd, addr, len) {
            Ok(Some(raw)) => World {
                node: world.node.fd_written(
                    raw,
                    loaded(world.mem, addr as int, moved(len)),
                    offset as int,
                ),
                ..world
            },
            _ => world,
        },
        Op::Fallocate { fd, offset, len } => match resolved(files, fd) {
            Ok(raw) => World {
                node: world.node.fd_allocated(raw, offset as int, len as int),
                ..world
            },
            Err(_) => world,
        },
        Op::Nop => world,
        Op::Fsync { fd: _ } => world,
    }
}

/// The result that a completion reports for an outcome: the byte count, or the negated
/// `errno`.
pub open spec fn reported(outcome: Result<int, Error>) -> int {
    match outcome {
        Ok(count) => count,
        Err(error) => match error.errno() {
            Some(code) => -code,
            None => -eio_number(),
        },
    }
}

/// The outcome of an entry: that of the operation it asks for.
pub open spec fn entry_outcome(entry: Entry, files: Seq<RawFd>, world: World) -> Result<
    int,
    Error,
> {
    match intended(entry) {
        Err(error) => Err(error),
        Ok(op) => outcome(op, files, world),
    }
}

/// What an entry leaves behind: what the operation it asks for does.
pub open spec fn entry_effect(entry: Entry, files: Seq<RawFd>, world: World) -> World {
    match intended(entry) {
        Err(_) => world,
        Ok(op) => effect(op, files, world),
    }
}

/// The completion of an entry that is run in `world`.
pub open spec fn completion(entry: Entry, files: Seq<RawFd>, world: World) -> cqueue::Entry {
    cqueue::Entry {
        user_data: entry.user_data,
        result: reported(entry_outcome(entry, files, world)) as i32,
        flags: 0,
    }
}

/// The world after a batch of entries was run in `world`, one after the other.
pub open spec fn after(entries: Seq<Entry>, files: Seq<RawFd>, world: World) -> World
    decreases entries.len(),
{
    if entries.len() == 0 {
        world
    } else {
        entry_effect(entries.last(), files, after(entries.drop_last(), files, world))
    }
}

/// The completions of a batch of entries run in `world`: each entry's is that of the entry
/// run in the world that the entries before it left.
pub open spec fn completions(entries: Seq<Entry>, files: Seq<RawFd>, world: World) -> Seq<
    cqueue::Entry,
> {
    Seq::new(
        entries.len(),
        |i: int| completion(entries[i], files, after(entries.take(i), files, world)),
    )
}

/// Whether an operation may be run in `world`: the buffer that it gets as far as using is
/// available, and a file that it gets as far as growing can have the size asked for.
pub open spec fn op_runnable(op: Op, files: Seq<RawFd>, world: World) -> bool {
    match op {
        Op::Nop => true,
        Op::Read { fd, addr, len, offset: _ } => channel(files, fd, addr, len) matches Ok(Some(_))
            ==> mapped(world.mem, addr as int, moved(len)),
        Op::Write { fd, addr, len, offset } => channel(files, fd, addr, len) matches Ok(Some(raw))
            ==> {
            &&& mapped(world.mem, addr as int, moved(len))
            &&& world.node.behind(raw, true) is Ok ==> offset + moved(len) <= isize::MAX
        },
        Op::Fsync { fd: _ } => true,
        Op::Fallocate { fd, offset, len } => resolved(files, fd) matches Ok(raw) ==> {
            world.node.behind(raw, true) is Ok ==> (offset + len <= isize::MAX || offset + len
                > usize::MAX)
        },
    }
}

/// Whether an entry may be run in `world`: the operation that it asks for may.
pub open spec fn runnable(entry: Entry, files: Seq<RawFd>, world: World) -> bool {
    intended(entry) matches Ok(op) ==> op_runnable(op, files, world)
}

/// Whether every entry of a batch may be run in `world`.
pub open spec fn all_runnable(entries: Seq<Entry>, files: Seq<RawFd>, world: World) -> bool {
    forall|i: int| 0 <= i < entries.len() ==> runnable(#[trigger] entries[i], files, world)
}

/// Two worlds in which the same operations may be run: the same descriptors are in use, and
/// the same addresses are available.
pub open spec fn alike(a: World, b: World) -> bool {
    &&& a.node.fds == b.node.fds
    &&& a.node.inodes.len() == b.node.inodes.len()
    &&& a.mem.dom() == b.mem.dom()
}

/// What may be run does not change where descriptors and addresses do not.
pub proof fn lemma_runnable_alike(entry: Entry, files: Seq<RawFd>, a: World, b: World)
    requires
        alike(a, b),
    ensures
        runnable(entry, files, a) == runnable(entry, files, b),
{
    assert forall|addr: int, len: int| #[trigger] mapped(a.mem, addr, len) == mapped(
        b.mem,
        addr,
        len,
    ) by {
        assert(forall|k: u64| a.mem.contains_key(k) == #[trigger] a.mem.dom().contains(k));
        assert(forall|k: u64| b.mem.contains_key(k) == #[trigger] b.mem.dom().contains(k));
    }
}

/// Running an operation keeps the files well-formed, and leaves files and descriptors in use
/// as many as they were.
pub proof fn lemma_effect_node(op: Op, files: Seq<RawFd>, world: World)
    requires
        world.node.wf(),
    ensures
        effect(op, files, world).node.wf(),
        effect(op, files, world).node.fds == world.node.fds,
        effect(op, files, world).node.inodes.len() == world.node.inodes.len(),
{
    let next = effect(op, files, world);
    match op {
        Op::Write { fd, addr, len, offset } => {
            if let Ok(Some(raw)) = channel(files, fd, addr, len) {
                if let Ok(i) = world.node.behind(raw, true) {
                    lemma_with_data(world.node, i, next.node.data(i));
                }
            }
        },
        Op::Fallocate { fd, offset, len } => {
            if let Ok(raw) = resolved(files, fd) {
                if let Ok(i) = world.node.behind(raw, true) {
                    lemma_with_data(world.node, i, next.node.data(i));
                }
            }
        },
        _ => {},
    }
}

/// Running an operation that may be run leaves descriptors in use and addresses available as
/// they were.
pub proof fn lemma_effect_alike(op: Op, files: Seq<RawFd>, world: World)
    requires
        world.node.wf(),
        op_runnable(op, files, world),
    ensures
        effect(op, files, world).node.wf(),
        alike(effect(op, files, world), world),
{
    lemma_effect_node(op, files, world);
    if let Op::Read { fd, addr, len, offset } = op {
        if let Ok(Some(raw)) = channel(files, fd, addr, len) {
            assert(effect(op, files, world).mem.dom() =~= world.mem.dom());
        }
    }
}

/// Running a batch keeps the files well-formed, and leaves descriptors in use and addresses
/// available as they were.
pub proof fn lemma_after_alike(entries: Seq<Entry>, files: Seq<RawFd>, world: World)
    requires
        world.node.wf(),
        all_runnable(entries, files, world),
    ensures
        after(entries, files, world).node.wf(),
        alike(after(entries, files, world), world),
    decreases entries.len(),
{
    if entries.len() > 0 {
        let front = entries.drop_last();
        assert forall|i: int| 0 <= i < front.len() implies runnable(
            #[trigger] front[i],
            files,
            world,
        ) by {
            assert(front[i] == entries[i]);
        }
        lemma_after_alike(front, files, world);
        let before_last = after(front, files, world);
        assert(runnable(entries[entries.len() - 1], files, world));
        lemma_runnable_alike(entries.last(), files, before_last, world);
        if let Ok(op) = intended(entries.last()) {
            lemma_effect_alike(op, files, before_last);
        }
    }
}

} // verus!
