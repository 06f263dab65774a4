//! Completion queue types.
use std::collections::VecDeque;

use vstd::prelude::*;

use crate::power::is_power_of_two;
use crate::rng::is_order;

verus! {

/// A completion queue entry (CQE).
#[derive(Debug, Clone, Copy)]
pub struct Entry {
    pub user_data: u64,
    pub result: i32,
    pub flags: u32,
}

impl Entry {
    /// Creates an entry.
    pub fn new(user_data: u64, result: i32, flags: u32) -> (entry: Entry)
        ensures
            entry == (Entry { user_data, result, flags }),
    {
        Entry { user_data, result, flags }
    }

    /// The result of the operation: a non-negative byte count on success, or the negated
    /// `errno` on failure (matching the kernel's convention).
    pub fn result(&self) -> (result: i32)
        ensures
            result == self.result,
    {
        self.result
    }

    /// The user data copied from the originating submission queue entry.
    pub fn user_data(&self) -> (user_data: u64)
        ensures
            user_data == self.user_data,
    {
        self.user_data
    }

    /// The completion flags.
    pub fn flags(&self) -> (flags: u32)
        ensures
            flags == self.flags,
    {
        self.flags
    }
}

/// The entries of `entries` in the order in which `order` lists their places.
pub open spec fn arranged(entries: Seq<Entry>, order: Seq<usize>) -> Seq<Entry> {
    Seq::new(order.len(), |i: int| entries[order[i] as int])
}

/// Arranging entries drops none, adds none and changes none.
pub proof fn lemma_arranged(entries: Seq<Entry>, order: Seq<usize>)
    requires
        is_order(order, entries.len()),
    ensures
        arranged(entries, order).len() == entries.len(),
        arranged(entries, order).to_multiset() == entries.to_multiset(),
    decreases entries.len(),
{
    broadcast use vstd::seq_lib::group_to_multiset_ensures;
    broadcast use vstd::multiset::group_multiset_axioms;

    let n = entries.len();
    if n == 0 {
        assert(arranged(entries, order) =~= entries);
    } else {
        let at = lemma_last_listed(order, n);
        let rest = order.remove(at);
        assert(is_order(rest, (n - 1) as nat)) by {
            assert forall|i: int| 0 <= i < rest.len() implies #[trigger] rest[i] < n - 1 by {
                let k = if i < at {
                    i
                } else {
                    i + 1
                };
                assert(rest[i] == order[k]);
                assert(order[k] != order[at]);
            }
            assert forall|i: int, j: int|
                0 <= i < rest.len() && 0 <= j < rest.len() && i != j implies rest[i]
                != rest[j] by {
                let k = if i < at {
                    i
                } else {
                    i + 1
                };
                let l = if j < at {
                    j
                } else {
                    j + 1
                };
                assert(order[k] != order[l]);
            }
        }
        let front = entries.drop_last();
        lemma_arranged(front, rest);
        let all = arranged(entries, order);
        assert(all.remove(at) =~= arranged(front, rest));
        assert(all[at] == entries.last());
        assert(all.remove(at).to_multiset() =~= all.to_multiset().remove(all[at]));
        assert(all.to_multiset().count(all[at]) > 0) by {
            assert(all.contains(all[at]));
        }
        assert(front.push(entries.last()) =~= entries);
        assert(entries.to_multiset() =~= front.to_multiset().insert(entries.last()));
        assert(all.to_multiset() =~= all.to_multiset().remove(all[at]).insert(all[at]));
    }
}

/// Where an order of `n` things lists the last of them.
proof fn lemma_last_listed(order: Seq<usize>, n: nat) -> (at: int)
    requires
        n > 0,
        is_order(order, n),
    ensures
        0 <= at < order.len(),
        order[at] == n - 1,
{
    if forall|i: int| 0 <= i < order.len() ==> #[trigger] order[i] != n - 1 {
        let listed = order.map_values(|place: usize| place as int);
        assert(listed.no_duplicates());
        assert forall|place: int| listed.contains(place) implies 0 <= place < n - 1 by {
            let i = choose|i: int| 0 <= i < listed.len() && listed[i] == place;
            assert(order[i] < n);
        }
        let places = listed.to_set();
        listed.unique_seq_to_set();
        assert(places.subset_of(vstd::set_lib::set_int_range(0, n - 1)));
        vstd::set_lib::lemma_int_range(0, n - 1);
        vstd::set_lib::lemma_len_subset(places, vstd::set_lib::set_int_range(0, n - 1));
        assert(false);
    }
    choose|i: int| 0 <= i < order.len() && #[trigger] order[i] == n - 1
}

/// The completion queue of an [`IoUring`](crate::IoUring).
///
/// Reap completions with [`next`](Self::next), which yields each ready [`Entry`] in the
/// order in which the operations were made out to complete.
pub struct CompletionQueue {
    entries: VecDeque<Entry>,
    capacity: usize,
}

impl View for CompletionQueue {
    type V = Seq<Entry>;

    /// The completions ready to be reaped, in the order in which they will be.
    closed spec fn view(&self) -> Seq<Entry> {
        self.entries@
    }
}

impl CompletionQueue {
    /// How many completions fill the queue nominally.
    pub closed spec fn limit(&self) -> nat {
        self.capacity as nat
    }

    /// The nominal capacity is a power of two.
    pub open spec fn wf(&self) -> bool {
        is_power_of_two(self.limit())
    }

    /// Creates an empty queue.
    pub(crate) fn new(capacity: usize) -> (queue: CompletionQueue)
        requires
            is_power_of_two(capacity as nat),
        ensures
            queue.wf(),
            queue@ == Seq::<Entry>::empty(),
            queue.limit() == capacity,
    {
        CompletionQueue { entries: VecDeque::new(), capacity }
    }

    /// Synchronizes the completion queue with the kernel. A no-op in the simulator.
    pub fn sync(&mut self)
        ensures
            *final(self) == *old(self),
    {
    }

    /// Returns the number of completions ready to be reaped.
    pub fn len(&self) -> (len: usize)
        ensures
            len == self@.len(),
    {
        self.entries.len()
    }

    /// Returns `true` if there are no completions ready.
    pub fn is_empty(&self) -> (empty: bool)
        ensures
            empty == (self@.len() == 0),
    {
        self.entries.len() == 0
    }

    /// Returns `true` if the completion queue is at its nominal capacity.
    pub fn is_full(&self) -> (full: bool)
        ensures
            full == (self@.len() >= self.limit()),
    {
        self.entries.len() >= self.capacity
    }

    /// The number of completions lost to overflow. Always `0`: the simulator never drops
    /// completions.
    pub fn overflow(&self) -> (lost: u32)
        ensures
            lost == 0,
    {
        0
    }

    /// Reaps the next completion.
    pub fn next(&mut self) -> (entry: Option<Entry>)
        ensures
            final(self).limit() == old(self).limit(),
            old(self)@.len() > 0 ==> entry == Some(old(self)@[0]) && final(self)@
                == old(self)@.drop_first(),
            old(self)@.len() == 0 ==> entry is None && final(self)@ == old(self)@,
    {
        let entry = self.entries.pop_front();
        assert(old(self)@.len() > 0 ==> self@ =~= old(self)@.drop_first());
        entry
    }

    /// Adds the completions of a batch behind those already there, in the order in which
    /// `order` lists their places in the batch.
    pub fn extend_in_order(&mut self, batch: &Vec<Entry>, order: &Vec<usize>)
        requires
            is_order(order@, batch@.len()),
        ensures
            final(self).limit() == old(self).limit(),
            final(self)@ == old(self)@ + arranged(batch@, order@),
    {
        let mut i: usize = 0;
        assert(self@ =~= old(self)@ + arranged(batch@, order@).take(0));
        while i < order.len()
            invariant
                i <= order@.len(),
                is_order(order@, batch@.len()),
                self.capacity == old(self).capacity,
                self@ == old(self)@ + arranged(batch@, order@).take(i as int),
            decreases order@.len() - i,
        {
            self.entries.push_back(batch[order[i]]);
            assert(self@ =~= old(self)@ + arranged(batch@, order@).take(i + 1));
            i = i + 1;
        }
        assert(arranged(batch@, order@).take(i as int) =~= arranged(batch@, order@));
    }
}

} // verus!
