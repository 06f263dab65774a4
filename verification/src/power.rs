//! Queue sizes: powers of two.
use vstd::arithmetic::power2::{
    lemma2_to64, lemma_pow2_pos, lemma_pow2_strictly_increases, lemma_pow2_unfold, pow2,
};
use vstd::prelude::*;

verus! {

/// Whether `n` is a power of two.
pub open spec fn is_power_of_two(n: nat) -> bool {
    exists|e: nat| n == #[trigger] pow2(e)
}

/// `n` rounded up to a power of two.
pub open spec fn rounded_up(n: nat) -> nat
    decreases n,
{
    if n <= 1 {
        1
    } else {
        2 * rounded_up(((n + 1) / 2) as nat)
    }
}

/// Twice a power of two is one.
pub proof fn lemma_double(n: nat)
    requires
        is_power_of_two(n),
    ensures
        is_power_of_two(2 * n),
{
    let e = choose|e: nat| n == #[trigger] pow2(e);
    lemma_pow2_unfold(e + 1);
    assert(pow2(e + 1) == 2 * n);
}

/// No power of two lies strictly between one and its double.
pub proof fn lemma_apart(p: nat, q: nat)
    requires
        is_power_of_two(p),
        is_power_of_two(q),
        q < p,
    ensures
        2 * q <= p,
{
    let a = choose|e: nat| p == #[trigger] pow2(e);
    let b = choose|e: nat| q == #[trigger] pow2(e);
    if a <= b {
        if a < b {
            lemma_pow2_strictly_increases(a, b);
        }
        assert(false);
    }
    lemma_pow2_unfold(b + 1);
    if b + 1 < a {
        lemma_pow2_strictly_increases(b + 1, a);
    }
}

/// Rounding up yields the least power of two that is not below the number.
pub proof fn lemma_rounded_up(n: nat)
    ensures
        is_power_of_two(rounded_up(n)),
        rounded_up(n) >= n,
        rounded_up(n) >= 1,
        forall|p: nat| #[trigger] is_power_of_two(p) && p >= n ==> rounded_up(n) <= p,
    decreases n,
{
    if n <= 1 {
        lemma2_to64();
        assert(rounded_up(n) == pow2(0));
        assert forall|p: nat| #[trigger] is_power_of_two(p) && p >= n implies rounded_up(n)
            <= p by {
            let e = choose|e: nat| p == #[trigger] pow2(e);
            lemma_pow2_pos(e);
        }
    } else {
        let half = ((n + 1) / 2) as nat;
        lemma_rounded_up(half);
        lemma_double(rounded_up(half));
        assert forall|p: nat| #[trigger] is_power_of_two(p) && p >= n implies rounded_up(n)
            <= p by {
            let e = choose|e: nat| p == #[trigger] pow2(e);
            if e == 0 {
                lemma2_to64();
            } else {
                lemma_pow2_unfold(e);
                let q = pow2((e - 1) as nat);
                assert(is_power_of_two(q));
                assert(q >= half);
            }
        }
    }
}

/// How far a 32-bit number is rounded up at most.
pub proof fn lemma_rounded_bound(n: u32)
    ensures
        rounded_up(n as nat) <= 0x1_0000_0000,
        n <= 0x8000_0000 ==> rounded_up(n as nat) <= 0x8000_0000,
        n <= 0x4000_0000 ==> rounded_up(n as nat) <= 0x4000_0000,
{
    lemma2_to64();
    lemma_rounded_up(n as nat);
    assert(is_power_of_two(0x1_0000_0000)) by {
        assert(0x1_0000_0000 == pow2(32));
    }
    assert(is_power_of_two(0x8000_0000)) by {
        assert(0x8000_0000 == pow2(31));
    }
    assert(is_power_of_two(0x4000_0000)) by {
        assert(0x4000_0000 == pow2(30));
    }
}

/// Returns `n` rounded up to a power of two.
pub fn next_power_of_two(n: usize) -> (power: usize)
    requires
        rounded_up(n as nat) <= usize::MAX,
    ensures
        power == rounded_up(n as nat),
        is_power_of_two(power as nat),
{
    let ghost least = rounded_up(n as nat);
    let mut power: usize = 1;
    proof {
        lemma2_to64();
        assert(1 == pow2(0));
        lemma_rounded_up(n as nat);
    }
    while power < n
        invariant
            n <= least <= usize::MAX,
            1 <= power <= least,
            is_power_of_two(power as nat),
            is_power_of_two(least),
        decreases least - power,
    {
        proof {
            lemma_double(power as nat);
            lemma_apart(least, power as nat);
        }
        power = power * 2;
    }
    power
}

} // verus!
