//! The ring: its queues, its registrations and its construction.
use vstd::prelude::*;

use crate::cqueue::{self, arranged, lemma_arranged, CompletionQueue};
use crate::error::{ebadf, ebusy, ebusy_number, efault, eio, Error};
use crate::fs::{fallocate_fd, fsync_fd, read_at_fd, write_at_fd, FsNodeHandle, RawFd};
use crate::mem::{stored, Memory};
use crate::op::{Op, Target};
use crate::power::{lemma_double, lemma_rounded_bound, next_power_of_two, rounded_up};
use crate::rng::{is_order, next_order, next_seed, GlobalRng};
use crate::run::{
    after, all_runnable, completion, completions, effect, entry_effect,
    entry_outcome, intended, lemma_after_alike, lemma_runnable_alike, op_runnable, outcome,
    resolved, runnable, transfer_len, World,
};
use crate::squeue::{Entry, Flags, SubmissionQueue};
use crate::types::IoVec;

verus! {

/// The world that a node's files and a process's memory make up.
pub open spec fn world_of(node: &FsNodeHandle, mem: &Memory) -> World {
    World { node: node@, mem: mem@ }
}

/// The answer to a registration of `asked` buffers while `registered` are, and how many are
/// registered then: while there are any, another registration is `EBUSY`.
pub open spec fn registration(registered: nat, asked: nat) -> (Result<(), Error>, nat) {
    if registered > 0 {
        (Err(Error::Os(ebusy_number())), registered)
    } else {
        (Ok(()), asked)
    }
}

/// Returns the operation that an entry asks for under its flags.
pub fn intended_op(entry: &Entry) -> (result: Result<Op, Error>)
    ensures
        result == intended(*entry),
{
    let fixed = entry.flags.contains(Flags::fixed_file());
    let target = match entry.op {
        Op::Nop => {
            return Ok(Op::Nop);
        },
        Op::Read { fd, addr: _, len: _, offset: _ } => fd,
        Op::Write { fd, addr: _, len: _, offset: _ } => fd,
        Op::Fsync { fd } => fd,
        Op::Fallocate { fd, offset: _, len: _ } => fd,
    };
    let fd: Target = match target {
        Target::Fd(index) if fixed => {
            if index < 0 {
                return Err(Error::Os(ebadf()));
            }
            Target::Fixed(index as u32)
        },
        _ => target,
    };
    Ok(
        match entry.op {
            Op::Nop => Op::Nop,
            Op::Read { fd: _, addr, len, offset } => Op::Read { fd, addr, len, offset },
            Op::Write { fd: _, addr, len, offset } => Op::Write { fd, addr, len, offset },
            Op::Fsync { fd: _ } => Op::Fsync { fd },
            Op::Fallocate { fd: _, offset, len } => Op::Fallocate { fd, offset, len },
        },
    )
}

/// The completions that a batch adds to the completion queue, in the order in which they
/// will be reaped, for a generator at `seed`.
pub open spec fn reaped(queue: Seq<Entry>, files: Seq<RawFd>, world: World, seed: u64) -> Seq<
    cqueue::Entry,
> {
    arranged(completions(queue, files, world), next_order(seed, queue.len()))
}

/// All that submitting can change: what is queued, and how much may be, in either queue, the
/// world and the generator.
#[verifier::ext_equal]
pub struct Stage {
    pub queue: Seq<Entry>,
    pub queue_limit: nat,
    pub ready: Seq<cqueue::Entry>,
    pub ready_limit: nat,
    pub world: World,
    pub seed: u64,
}

/// The stage that the parts of a simulation make up.
pub open spec fn stage(
    sq: &SubmissionQueue,
    cq: &CompletionQueue,
    node: &FsNodeHandle,
    mem: &Memory,
    rng: &GlobalRng,
) -> Stage {
    Stage {
        queue: sq@,
        queue_limit: sq.limit(),
        ready: cq@,
        ready_limit: cq.limit(),
        world: world_of(node, mem),
        seed: rng@,
    }
}

/// What submitting does, with `files` registered: every queued entry is run, in submission
/// order, and counted; the submission queue is empty then; the completions, one for each
/// entry, stand behind those that were ready before, in an order that the generator gives and
/// with which it moves on.
pub open spec fn submitted(
    files: Seq<RawFd>,
    before: Stage,
    left: Stage,
    result: Result<usize, Error>,
) -> bool {
    let count = before.queue.len();
    let added = reaped(before.queue, files, before.world, before.seed);
    &&& result == Ok::<usize, Error>(count as usize)
    &&& left.queue == Seq::<Entry>::empty()
    &&& left.queue_limit == before.queue_limit
    &&& left.ready == before.ready + added
    &&& left.ready_limit == before.ready_limit
    &&& is_order(next_order(before.seed, count), count)
    &&& added.to_multiset() == completions(before.queue, files, before.world).to_multiset()
    &&& left.world == after(before.queue, files, before.world)
    &&& left.seed == next_seed(before.seed, count)
}

/// Submits entries and manages registrations for an [`IoUring`].
pub struct Submitter {
    /// Number of fixed buffers registered via `register_buffers`.
    registered_buffers: usize,
    /// Files registered via `register_files`, indexed by [`Fixed`](crate::types::Fixed).
    files: Vec<RawFd>,
}

impl Submitter {
    /// How many buffers are registered.
    pub closed spec fn buffers(&self) -> nat {
        self.registered_buffers as nat
    }

    /// The registered files, by index.
    pub closed spec fn files(&self) -> Seq<RawFd> {
        self.files@
    }

    fn new() -> (submitter: Submitter)
        ensures
            submitter.buffers() == 0,
            submitter.files() == Seq::<RawFd>::empty(),
    {
        Submitter { registered_buffers: 0, files: Vec::new() }
    }

    /// Resolves an operation's target to a simulated raw descriptor.
    pub fn resolve(&self, target: Target) -> (result: Result<RawFd, Error>)
        ensures
            result == resolved(self.files(), target),
    {
        match target {
            Target::Fd(fd) => Ok(fd),
            Target::Fixed(index) => {
                if (index as u64) < self.files.len() as u64 {
                    let fd = self.files[index as usize];
                    if fd >= 0 {
                        return Ok(fd);
                    }
                }
                Err(Error::Os(ebadf()))
            },
        }
    }

    /// Executes one submission entry, returning the matching completion entry.
    pub fn run(&self, entry: &Entry, node: &mut FsNodeHandle, mem: &mut Memory) -> (cqe:
        cqueue::Entry)
        requires
            old(node).wf(),
            runnable(*entry, self.files(), world_of(old(node), old(mem))),
        ensures
            final(node).wf(),
            cqe == completion(*entry, self.files(), world_of(old(node), old(mem))),
            match entry_outcome(*entry, self.files(), world_of(old(node), old(mem))) {
                Ok(count) => 0 <= cqe.result <= i32::MAX && cqe.result == count,
                Err(error) => error.errno() matches Some(code) && cqe.result == -code
                    && cqe.result < 0,
            },
            world_of(final(node), final(mem)) == entry_effect(
                *entry,
                self.files(),
                world_of(old(node), old(mem)),
            ),
    {
        let answer = match intended_op(entry) {
            Ok(op) => self.run_op(op, node, mem),
            Err(error) => Err(error),
        };
        let result: i32 = match answer {
            Ok(count) => count as i32,
            Err(error) => match error.raw_os_error() {
                Some(code) => -code,
                None => -eio(),
            },
        };
        cqueue::Entry::new(entry.user_data, result, 0)
    }

    /// Executes one operation, returning the number of bytes it moved.
    pub fn run_op(&self, op: Op, node: &mut FsNodeHandle, mem: &mut Memory) -> (result: Result<
        usize,
        Error,
    >)
        requires
            old(node).wf(),
            op_runnable(op, self.files(), world_of(old(node), old(mem))),
        ensures
            final(node).wf(),
            match outcome(op, self.files(), world_of(old(node), old(mem))) {
                Ok(count) => result matches Ok(n) && n == count && n <= i32::MAX,
                Err(e) => result matches Err(error) && error == e && (error matches Error::Os(code)
                    && code > 0),
            },
            world_of(final(node), final(mem)) == effect(
                op,
                self.files(),
                world_of(old(node), old(mem)),
            ),
    {
        match op {
            Op::Nop => Ok(0),
            Op::Read { fd, addr, len, offset } => {
                let fd = match self.resolve(fd) {
                    Ok(fd) => fd,
                    Err(error) => {
                        return Err(error);
                    },
                };
                if len == 0 {
                    return Ok(0);
                }
                if addr == 0 {
                    return Err(Error::Os(efault()));
                }
                let mut buf = mem.load(addr, transfer_len(len));
                let ghost want = buf@.len() as int;
                let ghost got = node@.fd_read(fd, want, offset as int);
                let ghost before = mem@;
                let result = read_at_fd(node, fd, buf.as_mut_slice(), offset);
                match result {
                    Ok(count) => {
                        let front = vstd::slice::slice_subrange(buf.as_slice(), 0, count);
                        assert(front@ =~= got);
                        mem.store(addr, front);
                        Ok(count)
                    },
                    Err(error) => {
                        assert(stored(before, addr as int, got) =~= before);
                        Err(error)
                    },
                }
            },
            Op::Write { fd, addr, len, offset } => {
                let fd = match self.resolve(fd) {
                    Ok(fd) => fd,
                    Err(error) => {
                        return Err(error);
                    },
                };
                if len == 0 {
                    return Ok(0);
                }
                if addr == 0 {
                    return Err(Error::Os(efault()));
                }
                let buf = mem.load(addr, transfer_len(len));
                write_at_fd(node, fd, buf.as_slice(), offset)
            },
            Op::Fsync { fd } => {
                let fd = match self.resolve(fd) {
                    Ok(fd) => fd,
                    Err(error) => {
                        return Err(error);
                    },
                };
                match fsync_fd(node, fd) {
                    Ok(()) => Ok(0),
                    Err(error) => Err(error),
                }
            },
            Op::Fallocate { fd, offset, len } => {
                let fd = match self.resolve(fd) {
                    Ok(fd) => fd,
                    Err(error) => {
                        return Err(error);
                    },
                };
                match fallocate_fd(node, fd, offset, len) {
                    Ok(()) => Ok(0),
                    Err(error) => Err(error),
                }
            },
        }
    }

    /// Returns whether every queued entry may be run: each buffer that will be used is
    /// available in `mem`, and each file that will grow can have the size asked for.
    pub fn can_submit(&self, sq: &SubmissionQueue, node: &FsNodeHandle, mem: &Memory) -> (able:
        bool)
        requires
            node.wf(),
        ensures
            able == all_runnable(sq@, self.files(), world_of(node, mem)),
    {
        let ghost world = world_of(node, mem);
        let mut i: usize = 0;
        while i < sq.len()
            invariant
                i <= sq@.len(),
                node.wf(),
                world == world_of(node, mem),
                forall|k: int|
                    0 <= k < i ==> runnable(#[trigger] sq@[k], self.files(), world),
            decreases sq@.len() - i,
        {
            if !self.can_run(&sq.get(i), node, mem) {
                assert(!runnable(sq@[i as int], self.files(), world));
                return false;
            }
            i = i + 1;
        }
        true
    }

    /// Returns whether one entry may be run.
    pub fn can_run(&self, entry: &Entry, node: &FsNodeHandle, mem: &Memory) -> (able: bool)
        requires
            node.wf(),
        ensures
            able == runnable(*entry, self.files(), world_of(node, mem)),
    {
        match intended_op(entry) {
            Ok(op) => self.can_run_op(op, node, mem),
            Err(_) => true,
        }
    }

    /// Returns whether one operation may be run.
    pub fn can_run_op(&self, op: Op, node: &FsNodeHandle, mem: &Memory) -> (able: bool)
        requires
            node.wf(),
        ensures
            able == op_runnable(op, self.files(), world_of(node, mem)),
    {
        match op {
            Op::Nop => true,
            Op::Fsync { fd: _ } => true,
            Op::Read { fd, addr, len, offset: _ } => match self.resolve(fd) {
                Ok(_) => len == 0 || addr == 0 || mem.maps(addr, transfer_len(len)),
                Err(_) => true,
            },
            Op::Write { fd, addr, len, offset } => match self.resolve(fd) {
                Ok(fd) => len == 0 || addr == 0 || (mem.maps(addr, transfer_len(len)) && (!node.is_writable(fd)
                    || offset <= isize::MAX as u64 && transfer_len(len) as u64 <= isize::MAX as u64
                    - offset)),
                Err(_) => true,
            },
            Op::Fallocate { fd, offset, len } => match self.resolve(fd) {
                Ok(fd) => {
                    if !node.is_writable(fd) {
                        true
                    } else {
                        match offset.checked_add(len) {
                            Some(needed) => needed <= isize::MAX as u64 || needed
                                > usize::MAX as u64,
                            None => true,
                        }
                    }
                },
                Err(_) => true,
            },
        }
    }

    /// Drains the submission queue, executes every entry in submission order, and appends
    /// the resulting completions. Returns the number of entries submitted.
    ///
    /// A kernel may complete independent operations out of order, so the completions are
    /// appended in an order drawn from `rng`. They are paired back with their entries by
    /// user data.
    pub fn submit(
        &self,
        sq: &mut SubmissionQueue,
        cq: &mut CompletionQueue,
        node: &mut FsNodeHandle,
        mem: &mut Memory,
        rng: &mut GlobalRng,
    ) -> (result: Result<usize, Error>)
        requires
            old(sq).wf(),
            old(node).wf(),
            all_runnable(old(sq)@, self.files(), world_of(old(node), old(mem))),
        ensures
            final(sq).wf(),
            final(node).wf(),
            submitted(
                self.files(),
                stage(old(sq), old(cq), old(node), old(mem), old(rng)),
                stage(final(sq), final(cq), final(node), final(mem), final(rng)),
                result,
            ),
    {
        let n: usize = sq.len();
        let ghost queue = sq@;
        let ghost files = self.files();
        let ghost world = world_of(node, mem);
        let mut batch: Vec<cqueue::Entry> = Vec::new();
        assert(queue.take(0) =~= Seq::<Entry>::empty());
        assert(queue.skip(0) =~= queue);
        while batch.len() < n
            invariant
                n == queue.len(),
                batch@.len() <= n,
                files == self.files(),
                sq.wf(),
                sq.limit() == old(sq).limit(),
                sq@ == queue.skip(batch@.len() as int),
                node.wf(),
                world.node.wf(),
                all_runnable(queue, files, world),
                world_of(node, mem) == after(queue.take(batch@.len() as int), files, world),
                batch@ =~= completions(queue, files, world).take(batch@.len() as int),
            decreases n - batch.len(),
        {
            let ghost i = batch@.len() as int;
            let entry = sq.pop().unwrap();
            proof {
                assert(entry == queue[i]);
                assert(queue.skip(i).drop_first() =~= queue.skip(i + 1));
                assert forall|k: int| 0 <= k < queue.take(i).len() implies runnable(
                    #[trigger] queue.take(i)[k],
                    files,
                    world,
                ) by {
                    assert(queue.take(i)[k] == queue[k]);
                }
                lemma_after_alike(queue.take(i), files, world);
                lemma_runnable_alike(queue[i], files, world_of(node, mem), world);
                assert(queue.take(i + 1).drop_last() =~= queue.take(i));
                assert(queue.take(i + 1).last() == queue[i]);
            }
            let cqe = self.run(&entry, node, mem);
            assert(completions(queue, files, world)[i] == cqe);
            batch.push(cqe);
        }
        proof {
            assert(queue.take(n as int) =~= queue);
            assert(sq@ =~= Seq::<Entry>::empty());
            assert(batch@ =~= completions(queue, files, world));
        }
        let order = rng.order(n);
        proof {
            lemma_arranged(completions(queue, files, world), order@);
        }
        cq.extend_in_order(&batch, &order);
        Ok(n)
    }

    /// Submits all queued entries and waits for at least `want` completions.
    ///
    /// Every submitted entry completes at once, so this is equivalent to
    /// [`submit`](Self::submit).
    pub fn submit_and_wait(
        &self,
        _want: usize,
        sq: &mut SubmissionQueue,
        cq: &mut CompletionQueue,
        node: &mut FsNodeHandle,
        mem: &mut Memory,
        rng: &mut GlobalRng,
    ) -> (result: Result<usize, Error>)
        requires
            old(sq).wf(),
            old(node).wf(),
            all_runnable(old(sq)@, self.files(), world_of(old(node), old(mem))),
        ensures
            final(sq).wf(),
            final(node).wf(),
            submitted(
                self.files(),
                stage(old(sq), old(cq), old(node), old(mem), old(rng)),
                stage(final(sq), final(cq), final(node), final(mem), final(rng)),
                result,
            ),
    {
        self.submit(sq, cq, node, mem, rng)
    }

    /// Registers a set of fixed buffers.
    ///
    /// The simulator records the registration but does not pin any memory; reads and writes
    /// always use the address carried by the submission entry. While buffers are registered,
    /// another registration is `EBUSY`.
    pub fn register_buffers(&mut self, bufs: &[IoVec]) -> (result: Result<(), Error>)
        ensures
            (result, final(self).buffers()) == registration(old(self).buffers(), bufs@.len()),
            final(self).files() == old(self).files(),
    {
        if self.registered_buffers > 0 {
            return Err(Error::Os(ebusy()));
        }
        self.registered_buffers = bufs.len();
        Ok(())
    }

    /// Unregisters all fixed buffers.
    pub fn unregister_buffers(&mut self) -> (result: Result<(), Error>)
        ensures
            result is Ok,
            final(self).buffers() == 0,
            final(self).files() == old(self).files(),
    {
        self.registered_buffers = 0;
        Ok(())
    }

    /// Registers a set of files, addressable via [`Fixed`](crate::types::Fixed), in place of
    /// those registered before.
    pub fn register_files(&mut self, fds: &[RawFd]) -> (result: Result<(), Error>)
        ensures
            result is Ok,
            final(self).files() == fds@,
            final(self).buffers() == old(self).buffers(),
    {
        self.files = vstd::slice::slice_to_vec(fds);
        Ok(())
    }

    /// Unregisters all files.
    pub fn unregister_files(&mut self) -> (result: Result<(), Error>)
        ensures
            result is Ok,
            final(self).files() == Seq::<RawFd>::empty(),
            final(self).buffers() == old(self).buffers(),
    {
        self.files.clear();
        Ok(())
    }
}

/// A simulated `io_uring` instance.
pub struct IoUring {
    submitter: Submitter,
    sq: SubmissionQueue,
    cq: CompletionQueue,
}

impl IoUring {
    /// The ring's registrations.
    pub closed spec fn regs(&self) -> Submitter {
        self.submitter
    }

    /// The ring's submission queue.
    pub closed spec fn sq(&self) -> SubmissionQueue {
        self.sq
    }

    /// The ring's completion queue.
    pub closed spec fn cq(&self) -> CompletionQueue {
        self.cq
    }

    /// Whether both queues are well-formed.
    pub open spec fn wf(&self) -> bool {
        &&& self.sq().wf()
        &&& self.cq().wf()
    }

    /// Creates a new ring with the given number of submission queue entries.
    pub fn new(entries: u32) -> (result: Result<IoUring, Error>)
        requires
            entries <= 0x4000_0000 || usize::MAX > u32::MAX,
        ensures
            result matches Ok(ring) && fresh(ring, None, entries),
    {
        IoUring::builder().build(entries)
    }

    /// Returns a [`Builder`] for configuring a new ring.
    pub fn builder() -> (builder: Builder)
        ensures
            builder.cq_size() is None,
    {
        Builder::default()
    }

    /// Returns the submission queue.
    pub fn submission(&mut self) -> (sq: &mut SubmissionQueue)
        ensures
            *sq == old(self).sq(),
            final(self).sq() == *final(sq),
            final(self).cq() == old(self).cq(),
            final(self).regs() == old(self).regs(),
    {
        &mut self.sq
    }

    /// Returns the completion queue.
    pub fn completion(&mut self) -> (cq: &mut CompletionQueue)
        ensures
            *cq == old(self).cq(),
            final(self).cq() == *final(cq),
            final(self).sq() == old(self).sq(),
            final(self).regs() == old(self).regs(),
    {
        &mut self.cq
    }

    /// Returns the [`Submitter`] for managing registrations.
    pub fn submitter(&mut self) -> (submitter: &mut Submitter)
        ensures
            *submitter == old(self).regs(),
            final(self).regs() == *final(submitter),
            final(self).sq() == old(self).sq(),
            final(self).cq() == old(self).cq(),
    {
        &mut self.submitter
    }

    /// Splits the ring into its submitter and queues, which can then be used side by side.
    pub fn split(&mut self) -> (parts: (
        &mut Submitter,
        &mut SubmissionQueue,
        &mut CompletionQueue,
    ))
        ensures
            *parts.0 == old(self).regs(),
            *parts.1 == old(self).sq(),
            *parts.2 == old(self).cq(),
            final(self).regs() == *final(parts.0),
            final(self).sq() == *final(parts.1),
            final(self).cq() == *final(parts.2),
    {
        (&mut self.submitter, &mut self.sq, &mut self.cq)
    }

    /// Returns whether every queued entry may be run, as [`Submitter::can_submit`] does.
    pub fn can_submit(&self, node: &FsNodeHandle, mem: &Memory) -> (able: bool)
        requires
            node.wf(),
        ensures
            able == all_runnable(self.sq()@, self.regs().files(), world_of(node, mem)),
    {
        self.submitter.can_submit(&self.sq, node, mem)
    }

    /// Submits all queued entries to be processed, as [`Submitter::submit`] does.
    pub fn submit(&mut self, node: &mut FsNodeHandle, mem: &mut Memory, rng: &mut GlobalRng) -> (
    result: Result<usize, Error>)
        requires
            old(self).wf(),
            old(node).wf(),
            all_runnable(
                old(self).sq()@,
                old(self).regs().files(),
                world_of(old(node), old(mem)),
            ),
        ensures
            final(self).wf(),
            final(node).wf(),
            final(self).regs() == old(self).regs(),
            submitted(
                old(self).regs().files(),
                stage(&old(self).sq(), &old(self).cq(), old(node), old(mem), old(rng)),
                stage(&final(self).sq(), &final(self).cq(), final(node), final(mem), final(rng)),
                result,
            ),
    {
        self.submitter.submit(&mut self.sq, &mut self.cq, node, mem, rng)
    }

    /// Submits all queued entries and waits for at least `want` completions.
    ///
    /// Every submitted entry completes at once, so this is equivalent to
    /// [`submit`](Self::submit); the `want` argument is satisfied as long as it does not
    /// exceed the number of entries submitted.
    pub fn submit_and_wait(
        &mut self,
        _want: usize,
        node: &mut FsNodeHandle,
        mem: &mut Memory,
        rng: &mut GlobalRng,
    ) -> (result: Result<usize, Error>)
        requires
            old(self).wf(),
            old(node).wf(),
            all_runnable(
                old(self).sq()@,
                old(self).regs().files(),
                world_of(old(node), old(mem)),
            ),
        ensures
            final(self).wf(),
            final(node).wf(),
            final(self).regs() == old(self).regs(),
            submitted(
                old(self).regs().files(),
                stage(&old(self).sq(), &old(self).cq(), old(node), old(mem), old(rng)),
                stage(&final(self).sq(), &final(self).cq(), final(node), final(mem), final(rng)),
                result,
            ),
    {
        self.submit(node, mem, rng)
    }
}

/// The capacity of the submission queue of a ring made for `entries` entries.
pub open spec fn sq_size(entries: u32) -> nat {
    rounded_up(if entries == 0 {
        1
    } else {
        entries as nat
    })
}

/// The capacity of the completion queue of a ring made for `entries` entries: the size asked
/// for, rounded up to a power of two, or twice the submission queue's.
pub open spec fn cq_size(asked: Option<u32>, entries: u32) -> nat {
    match asked {
        Some(size) => rounded_up(size as nat),
        None => 2 * sq_size(entries),
    }
}

/// Whether a ring is as it was made: sized as asked for, with nothing queued and nothing
/// registered.
pub open spec fn fresh(ring: IoUring, asked: Option<u32>, entries: u32) -> bool {
    &&& ring.wf()
    &&& ring.sq()@ == Seq::<Entry>::empty()
    &&& ring.sq().limit() == sq_size(entries)
    &&& ring.cq()@ == Seq::<cqueue::Entry>::empty()
    &&& ring.cq().limit() == cq_size(asked, entries)
    &&& ring.regs().buffers() == 0
    &&& ring.regs().files() == Seq::<RawFd>::empty()
}

/// Builder for an [`IoUring`].
///
/// Every `setup_*` method is accepted for source compatibility; the simulator ignores
/// kernel-specific tuning except for [`setup_cqsize`](Self::setup_cqsize), which sizes the
/// completion queue.
#[derive(Debug)]
pub struct Builder {
    cq_entries: Option<u32>,
}

impl Clone for Builder {
    fn clone(&self) -> (copy: Builder)
        ensures
            copy == *self,
    {
        Builder { cq_entries: self.cq_entries }
    }
}

impl Default for Builder {
    fn default() -> (builder: Builder)
        ensures
            builder.cq_size() is None,
    {
        Builder { cq_entries: None }
    }
}

impl Builder {
    /// The completion queue size asked for, if any.
    pub closed spec fn cq_size(&self) -> Option<u32> {
        self.cq_entries
    }

    /// Sets the completion queue size.
    pub fn setup_cqsize(&mut self, entries: u32) -> (builder: &mut Builder)
        ensures
            builder.cq_size() == Some(entries),
            *final(self) == *final(builder),
    {
        self.cq_entries = Some(entries);
        self
    }

    /// Builds the ring with the given number of submission queue entries.
    ///
    /// The submission queue is rounded up to a power of two; the completion queue defaults
    /// to twice that.
    pub fn build(&self, entries: u32) -> (result: Result<IoUring, Error>)
        requires
            entries <= 0x4000_0000 || usize::MAX > u32::MAX,
            self.cq_size() matches Some(size) ==> (size <= 0x8000_0000 || usize::MAX > u32::MAX),
        ensures
            result matches Ok(ring) && fresh(ring, self.cq_size(), entries),
    {
        let wanted: usize = if entries == 0 {
            1
        } else {
            entries as usize
        };
        proof {
            lemma_rounded_bound(entries);
        }
        let sq_entries: usize = next_power_of_two(wanted);
        let cq_entries: usize = match self.cq_entries {
            Some(size) => {
                proof {
                    lemma_rounded_bound(size);
                }
                next_power_of_two(size as usize)
            },
            None => {
                proof {
                    lemma_double(sq_entries as nat);
                }
                sq_entries * 2
            },
        };
        Ok(
            IoUring {
                submitter: Submitter::new(),
                sq: SubmissionQueue::new(sq_entries),
                cq: CompletionQueue::new(cq_entries),
            },
        )
    }

    /// Accepted for source compatibility; ignored by the simulator.
    pub fn dontfork(&mut self) -> (builder: &mut Builder)
        ensures
            *builder == *old(self),
            *final(self) == *final(builder),
    {
        self
    }

    /// Accepted for source compatibility; ignored by the simulator.
    pub fn setup_iopoll(&mut self) -> (builder: &mut Builder)
        ensures
            *builder == *old(self),
            *final(self) == *final(builder),
    {
        self
    }

    /// Accepted for source compatibility; ignored by the simulator.
    pub fn setup_sqpoll(&mut self, _idle: u32) -> (builder: &mut Builder)
        ensures
            *builder == *old(self),
            *final(self) == *final(builder),
    {
        self
    }

    /// Accepted for source compatibility; ignored by the simulator.
    pub fn setup_sqpoll_cpu(&mut self, _cpu: u32) -> (builder: &mut Builder)
        ensures
            *builder == *old(self),
            *final(self) == *final(builder),
    {
        self
    }

    /// Accepted for source compatibility; ignored by the simulator.
    pub fn setup_clamp(&mut self) -> (builder: &mut Builder)
        ensures
            *builder == *old(self),
            *final(self) == *final(builder),
    {
        self
    }

    /// Accepted for source compatibility; ignored by the simulator.
    pub fn setup_attach_wq(&mut self, _fd: RawFd) -> (builder: &mut Builder)
        ensures
            *builder == *old(self),
            *final(self) == *final(builder),
    {
        self
    }

    /// Accepted for source compatibility; ignored by the simulator.
    pub fn setup_r_disabled(&mut self) -> (builder: &mut Builder)
        ensures
            *builder == *old(self),
            *final(self) == *final(builder),
    {
        self
    }

    /// Accepted for source compatibility; ignored by the simulator.
    pub fn setup_submit_all(&mut self) -> (builder: &mut Builder)
        ensures
            *builder == *old(self),
            *final(self) == *final(builder),
    {
        self
    }

    /// Accepted for source compatibility; ignored by the simulator.
    pub fn setup_coop_taskrun(&mut self) -> (builder: &mut Builder)
        ensures
            *builder == *old(self),
            *final(self) == *final(builder),
    {
        self
    }

    /// Accepted for source compatibility; ignored by the simulator.
    pub fn setup_taskrun_flag(&mut self) -> (builder: &mut Builder)
        ensures
            *builder == *old(self),
            *final(self) == *final(builder),
    {
        self
    }

    /// Accepted for source compatibility; ignored by the simulator.
    pub fn setup_defer_taskrun(&mut self) -> (builder: &mut Builder)
        ensures
            *builder == *old(self),
            *final(self) == *final(builder),
    {
        self
    }

    /// Accepted for source compatibility; ignored by the simulator.
    pub fn setup_single_issuer(&mut self) -> (builder: &mut Builder)
        ensures
            *builder == *old(self),
            *final(self) == *final(builder),
    {
        self
    }

    /// Accepted for source compatibility; ignored by the simulator.
    pub fn setup_no_sqarray(&mut self) -> (builder: &mut Builder)
        ensures
            *builder == *old(self),
            *final(self) == *final(builder),
    {
        self
    }
}

} // verus!
