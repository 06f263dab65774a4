//! Submission queue types.
use std::collections::VecDeque;

use vstd::prelude::*;

use crate::op::Op;
use crate::power::is_power_of_two;

verus! {

/// A submission queue entry (SQE).
///
/// Build one from an [`opcode`](crate::opcode) and optionally attach
/// [`user_data`](Self::user_data) before pushing it onto the queue.
#[derive(Debug, Clone, Copy)]
pub struct Entry {
    pub op: Op,
    pub user_data: u64,
    pub flags: Flags,
}

impl Entry {
    /// Creates an entry for an operation, with no user data and no flags.
    pub fn from_op(op: Op) -> (entry: Entry)
        ensures
            entry == (Entry { op, user_data: 0, flags: Flags::of(0) }),
            !fixed_file(entry.flags),
    {
        Entry { op, user_data: 0, flags: Flags::empty() }
    }

    /// Sets the user data, an application-supplied value returned unchanged in the matching
    /// completion queue entry.
    pub fn user_data(self, user_data: u64) -> (entry: Entry)
        ensures
            entry == (Entry { user_data, ..self }),
    {
        Entry { user_data, ..self }
    }

    /// Sets the submission flags for this entry.
    pub fn flags(self, flags: Flags) -> (entry: Entry)
        ensures
            entry == (Entry { flags, ..self }),
    {
        Entry { flags, ..self }
    }

    /// Sets the personality (credentials) for this entry. Accepted but ignored by the
    /// simulator.
    pub fn personality(self, _personality: u16) -> (entry: Entry)
        ensures
            entry == self,
    {
        self
    }
}

/// Submission flags for an [`Entry`].
///
/// The simulator acts on [`fixed_file`](Self::fixed_file) and accepts the others without
/// effect: it runs every entry to its end, one after the other in submission order.
#[derive(Debug, Clone, Copy, PartialEq, Eq, Structural)]
pub struct Flags(u8);

/// Whether the flags say that a descriptor is an index into the registered files.
pub open spec fn fixed_file(flags: Flags) -> bool {
    flags@ & 1 == 1
}

impl View for Flags {
    type V = u8;

    closed spec fn view(&self) -> u8 {
        self.0
    }
}

impl Default for Flags {
    fn default() -> (flags: Flags)
        ensures
            flags == Flags::of(0),
            !fixed_file(flags),
    {
        Flags::empty()
    }
}

impl Flags {
    /// The flags with these raw bits.
    pub closed spec fn of(bits: u8) -> Flags {
        Flags(bits)
    }

    /// Flags are told apart by their raw bits alone.
    pub proof fn lemma_of(bits: u8)
        ensures
            Flags::of(bits)@ == bits,
            forall|flags: Flags| #[trigger] flags@ == bits ==> flags == Flags::of(bits),
    {
    }

    /// `fd` is an index into the registered files array.
    ///
    /// An entry aimed at a descriptor is then aimed at that index. A negative one is `EBADF`.
    pub fn fixed_file() -> (flags: Flags)
        ensures
            flags@ == 1,
            fixed_file(flags),
    {
        assert(1u8 & 1 == 1) by (bit_vector);
        Flags(1)
    }

    /// Start this entry only after previously submitted entries complete.
    ///
    /// Accepted without effect: every entry starts only then.
    pub fn io_drain() -> (flags: Flags)
        ensures
            flags@ == 2,
            !fixed_file(flags),
    {
        assert(2u8 & 1 != 1) by (bit_vector);
        Flags(2)
    }

    /// Form a link with the next entry in the submission ring.
    ///
    /// Accepted without effect: the next entry starts after this one in any case, and it is
    /// run also where this one fails.
    pub fn io_link() -> (flags: Flags)
        ensures
            flags@ == 4,
            !fixed_file(flags),
    {
        assert(4u8 & 1 != 1) by (bit_vector);
        Flags(4)
    }

    /// Like [`io_link`](Self::io_link) but unaffected by completion results.
    ///
    /// Accepted without effect: the next entry starts after this one in any case, whatever
    /// this one's result.
    pub fn io_hardlink() -> (flags: Flags)
        ensures
            flags@ == 8,
            !fixed_file(flags),
    {
        assert(8u8 & 1 != 1) by (bit_vector);
        Flags(8)
    }

    /// Issue the operation asynchronously from the start.
    ///
    /// Accepted without effect: every operation is run while it is submitted.
    pub fn asynchronous() -> (flags: Flags)
        ensures
            flags@ == 16,
            !fixed_file(flags),
    {
        assert(16u8 & 1 != 1) by (bit_vector);
        Flags(16)
    }

    /// Select a buffer from a registered group.
    ///
    /// Accepted without effect: an operation uses the address that its entry carries.
    pub fn buffer_select() -> (flags: Flags)
        ensures
            flags@ == 32,
            !fixed_file(flags),
    {
        assert(32u8 & 1 != 1) by (bit_vector);
        Flags(32)
    }

    /// Returns an empty set of flags.
    pub fn empty() -> (flags: Flags)
        ensures
            flags == Flags::of(0),
            flags@ == 0,
            !fixed_file(flags),
    {
        assert(0u8 & 1 != 1) by (bit_vector);
        Flags(0)
    }

    /// Returns the raw bits of the flags.
    pub fn bits(self) -> (bits: u8)
        ensures
            bits == self@,
    {
        self.0
    }

    /// Returns `true` if all flags in `other` are set in `self`.
    pub fn contains(self, other: Flags) -> (all: bool)
        ensures
            all == (self@ & other@ == other@),
    {
        self.0 & other.0 == other.0
    }
}

/// A union has a flag if and only if either part has it.
proof fn lemma_union(a: u8, b: u8)
    ensures
        (a | b) & 1 == 1 <==> a & 1 == 1 || b & 1 == 1,
{
    assert((a | b) & 1 == 1 <==> a & 1 == 1 || b & 1 == 1) by (bit_vector);
}

impl std::ops::BitOr for Flags {
    type Output = Flags;

    fn bitor(self, rhs: Flags) -> (both: Flags)
        ensures
            both@ == self@ | rhs@,
            fixed_file(both) == (fixed_file(self) || fixed_file(rhs)),
    {
        proof {
            lemma_union(self@, rhs@);
        }
        Flags(self.0 | rhs.0)
    }
}

impl vstd::std_specs::ops::BitOrSpecImpl for Flags {
    open spec fn obeys_bitor_spec() -> bool {
        true
    }

    open spec fn bitor_req(self, rhs: Flags) -> bool {
        true
    }

    open spec fn bitor_spec(self, rhs: Flags) -> Flags {
        Flags::of(self@ | rhs@)
    }
}

impl std::ops::BitOrAssign for Flags {
    fn bitor_assign(&mut self, rhs: Flags)
        ensures
            final(self)@ == old(self)@ | rhs@,
            fixed_file(*final(self)) == (fixed_file(*old(self)) || fixed_file(rhs)),
    {
        proof {
            lemma_union(self@, rhs@);
        }
        self.0 = self.0 | rhs.0;
    }
}

/// The error returned by [`SubmissionQueue::push`] when the queue is full.
#[derive(Debug, Clone, Copy, PartialEq, Eq, Structural)]
pub struct PushError;

impl PushError {
    /// Returns what this error tells a reader.
    pub fn message(&self) -> (text: &'static str)
        ensures
            text@ == "submission queue is full"@,
    {
        "submission queue is full"
    }
}

/// The submission queue of an [`IoUring`](crate::IoUring).
pub struct SubmissionQueue {
    entries: VecDeque<Entry>,
    capacity: usize,
}

impl View for SubmissionQueue {
    type V = Seq<Entry>;

    /// The entries waiting to be submitted, oldest first.
    closed spec fn view(&self) -> Seq<Entry> {
        self.entries@
    }
}

impl SubmissionQueue {
    /// How many entries may wait at once.
    pub closed spec fn limit(&self) -> nat {
        self.capacity as nat
    }

    /// No more entries wait than the capacity allows, and the capacity is a power of two.
    pub open spec fn wf(&self) -> bool {
        &&& self@.len() <= self.limit()
        &&& is_power_of_two(self.limit())
    }

    /// Creates an empty queue.
    pub(crate) fn new(capacity: usize) -> (queue: SubmissionQueue)
        requires
            is_power_of_two(capacity as nat),
        ensures
            queue.wf(),
            queue@ == Seq::<Entry>::empty(),
            queue.limit() == capacity,
    {
        SubmissionQueue { entries: VecDeque::new(), capacity }
    }

    /// Synchronizes the submission queue with the kernel. A no-op in the simulator.
    pub fn sync(&mut self)
        ensures
            *final(self) == *old(self),
    {
    }

    /// Returns the capacity of the submission queue.
    pub fn capacity(&self) -> (capacity: usize)
        ensures
            capacity == self.limit(),
    {
        self.capacity
    }

    /// Returns the number of entries waiting to be submitted.
    pub fn len(&self) -> (len: usize)
        ensures
            len == self@.len(),
    {
        self.entries.len()
    }

    /// Returns `true` if no entries are waiting to be submitted.
    pub fn is_empty(&self) -> (empty: bool)
        ensures
            empty == (self@.len() == 0),
    {
        self.entries.len() == 0
    }

    /// Returns `true` if the submission queue is at capacity.
    pub fn is_full(&self) -> (full: bool)
        ensures
            full == (self@.len() >= self.limit()),
    {
        self.entries.len() >= self.capacity
    }

    /// Pushes an entry onto the submission queue.
    ///
    /// Returns [`PushError`] if the queue is already at capacity.
    pub fn push(&mut self, entry: &Entry) -> (result: Result<(), PushError>)
        requires
            old(self).wf(),
        ensures
            final(self).wf(),
            final(self).limit() == old(self).limit(),
            result == (if old(self)@.len() < old(self).limit() {
                Ok::<(), PushError>(())
            } else {
                Err(PushError)
            }),
            final(self)@ == (if old(self)@.len() < old(self).limit() {
                old(self)@.push(*entry)
            } else {
                old(self)@
            }),
    {
        if self.entries.len() >= self.capacity {
            return Err(PushError);
        }
        self.entries.push_back(*entry);
        Ok(())
    }

    /// Pushes multiple entries onto the submission queue.
    ///
    /// Returns [`PushError`] without enqueuing anything if the entries would not all fit.
    pub fn push_multiple(&mut self, entries: &[Entry]) -> (result: Result<(), PushError>)
        requires
            old(self).wf(),
        ensures
            final(self).wf(),
            final(self).limit() == old(self).limit(),
            result == (if old(self)@.len() + entries@.len() <= old(self).limit() {
                Ok::<(), PushError>(())
            } else {
                Err(PushError)
            }),
            final(self)@ == (if old(self)@.len() + entries@.len() <= old(self).limit() {
                old(self)@ + entries@
            } else {
                old(self)@
            }),
    {
        if entries.len() > self.capacity - self.entries.len() {
            return Err(PushError);
        }
        let mut i: usize = 0;
        assert(self@ =~= old(self)@ + entries@.take(0));
        while i < entries.len()
            invariant
                i <= entries@.len(),
                self.capacity == old(self).capacity,
                self@ == old(self)@ + entries@.take(i as int),
            decreases entries@.len() - i,
        {
            self.entries.push_back(entries[i]);
            assert(self@ =~= old(self)@ + entries@.take(i + 1));
            i = i + 1;
        }
        assert(entries@.take(i as int) =~= entries@);
        Ok(())
    }

    /// Takes the oldest entry off the queue.
    pub(crate) fn pop(&mut self) -> (entry: Option<Entry>)
        requires
            old(self).wf(),
        ensures
            final(self).wf(),
            final(self).limit() == old(self).limit(),
            old(self)@.len() > 0 ==> entry == Some(old(self)@[0]) && final(self)@
                == old(self)@.drop_first(),
            old(self)@.len() == 0 ==> entry is None && final(self)@ == old(self)@,
    {
        let entry = self.entries.pop_front();
        assert(old(self)@.len() > 0 ==> self@ =~= old(self)@.drop_first());
        entry
    }

    /// Returns the entry at place `i`, oldest first.
    pub(crate) fn get(&self, i: usize) -> (entry: Entry)
        requires
            i < self@.len(),
        ensures
            entry == self@[i as int],
    {
        self.entries[i]
    }
}

} // verus!
