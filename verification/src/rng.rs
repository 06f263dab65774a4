//! The deterministic source of randomness: everything drawn follows from one seed.
use rand::seq::SliceRandom;
use rand_xoshiro::rand_core::{RngCore, SeedableRng};
use rand_xoshiro::Xoshiro256PlusPlus;
use vstd::prelude::*;

verus! {

/// The order in which `rand`'s `SliceRandom::shuffle` leaves `order` when it draws from a
/// `Xoshiro256PlusPlus` seeded with `seed`.
pub uninterp spec fn shuffled(seed: u64, order: Seq<usize>) -> Seq<usize>;

/// The first number that a `Xoshiro256PlusPlus` seeded with `seed` yields.
pub uninterp spec fn drawn(seed: u64) -> u64;

/// `rand::seq::SliceRandom::shuffle`, drawing from
/// `rand_xoshiro::Xoshiro256PlusPlus::seed_from_u64(seed)`.
///
/// Trusted: what comes out is fixed by the seed and by what went in, and it is the same
/// numbers in some order, since the shuffle only swaps elements.
#[verifier::external_body]
fn shuffle(seed: u64, order: &mut Vec<usize>)
    ensures
        final(order)@ == shuffled(seed, old(order)@),
        final(order)@.to_multiset() == old(order)@.to_multiset(),
{
    order.shuffle(&mut Xoshiro256PlusPlus::seed_from_u64(seed));
}

/// `RngCore::next_u64` of `rand_xoshiro::Xoshiro256PlusPlus::seed_from_u64(seed)`.
///
/// Trusted: the number is fixed by the seed.
#[verifier::external_body]
fn draw(seed: u64) -> (number: u64)
    ensures
        number == drawn(seed),
{
    Xoshiro256PlusPlus::seed_from_u64(seed).next_u64()
}

/// The numbers `0..n` in ascending order.
pub open spec fn ascending(n: nat) -> Seq<usize> {
    Seq::new(n, |i: int| i as usize)
}

/// Whether `order` lists each of the numbers `0..n` exactly once.
pub open spec fn is_order(order: Seq<usize>, n: nat) -> bool {
    &&& order.len() == n
    &&& forall|i: int| 0 <= i < order.len() ==> #[trigger] order[i] < n
    &&& order.no_duplicates()
}

/// The order of the next `n` things, for a generator at `seed`.
pub open spec fn next_order(seed: u64, n: nat) -> Seq<usize> {
    shuffled(seed, ascending(n))
}

/// Where a generator at `seed` stands after ordering `n` things: fewer than two need no
/// choice, and draw nothing.
pub open spec fn next_seed(seed: u64, n: nat) -> u64 {
    if n < 2 {
        seed
    } else {
        drawn(seed)
    }
}

/// Numbers with the multiset of `0..n` are `0..n` in some order.
proof fn lemma_is_order(order: Seq<usize>, n: nat)
    requires
        n <= usize::MAX,
        order.to_multiset() == ascending(n).to_multiset(),
    ensures
        is_order(order, n),
{
    let plain = ascending(n);
    broadcast use vstd::seq_lib::group_to_multiset_ensures;

    assert(plain.no_duplicates());
    plain.lemma_multiset_has_no_duplicates();
    order.lemma_multiset_has_no_duplicates_conv();
    assert forall|i: int| 0 <= i < order.len() implies #[trigger] order[i] < n by {
        assert(order.contains(order[i]));
        assert(plain.to_multiset().count(order[i]) > 0);
        assert(plain.contains(order[i]));
    }
    assert(order.len() == order.to_multiset().len());
    assert(plain.len() == plain.to_multiset().len());
}

/// A generator of which every choice is fixed by the seed it was made with.
#[derive(Debug)]
pub struct GlobalRng {
    seed: u64,
}

impl View for GlobalRng {
    type V = u64;

    closed spec fn view(&self) -> u64 {
        self.seed
    }
}

impl GlobalRng {
    /// Creates a generator.
    pub fn new_with_seed(seed: u64) -> (rng: GlobalRng)
        ensures
            rng@ == seed,
    {
        GlobalRng { seed }
    }

    /// Chooses an order of `n` things.
    pub fn order(&mut self, n: usize) -> (order: Vec<usize>)
        ensures
            order@ == next_order(old(self)@, n as nat),
            is_order(order@, n as nat),
            final(self)@ == next_seed(old(self)@, n as nat),
    {
        let mut order: Vec<usize> = Vec::new();
        let mut i: usize = 0;
        while i < n
            invariant
                i <= n,
                order@ == ascending(i as nat),
            decreases n - i,
        {
            order.push(i);
            assert(order@ =~= ascending((i + 1) as nat));
            i = i + 1;
        }
        shuffle(self.seed, &mut order);
        proof {
            lemma_is_order(order@, n as nat);
        }
        if n >= 2 {
            self.seed = draw(self.seed);
        }
        order
    }
}

} // verus!
