//! Bit entropy of exact counts, and the three entropy figures of a passphrase.
use crate::bignum::{big_bits, big_div, big_value, bit_len};
use crate::combinatorics::{
    lemma_multichoose_le_power, lemma_multichoose_positive, multi_cmbn_count, multichoose,
    perm_count, power,
};
use vstd::prelude::*;
use num_bigint::BigUint;

verus! {

/// `floor(log2(n))`, and 0 for `n <= 1`.
pub open spec fn log2_floor(n: nat) -> nat
    decreases n,
{
    if n <= 1 {
        0
    } else {
        1 + log2_floor(n / 2)
    }
}

/// The bit length of a positive number is one more than its floored log2.
pub proof fn lemma_bit_len_log2(n: nat)
    ensures
        n == 0 ==> bit_len(n) == 0,
        n >= 1 ==> bit_len(n) == log2_floor(n) + 1,
    decreases n,
{
    if n >= 2 {
        lemma_bit_len_log2(n / 2);
    } else if n == 1 {
        assert(bit_len(0) == 0);
    }
}

/// `log2_floor` never decreases as its argument grows.
pub proof fn lemma_log2_floor_monotone(a: nat, b: nat)
    requires
        a <= b,
    ensures
        log2_floor(a) <= log2_floor(b),
    decreases b,
{
    if a > 1 {
        lemma_log2_floor_monotone(a / 2, b / 2);
    }
}

/// Letting the user rearrange the words never raises the reported entropy:
/// from a non-empty list, the rearranged entropy is at most the ordered one.
pub proof fn lemma_rearranged_le_ordered(m: nat, k: nat)
    requires
        m >= 1,
    ensures
        log2_floor(multichoose(m, k)) <= log2_floor(power(m, k)),
{
    lemma_multichoose_le_power(m, k);
    lemma_log2_floor_monotone(multichoose(m, k), power(m, k));
}

/// Entropy in bits of `count` equally likely outcomes: `floor(log2(count))`,
/// and 0 when `count` is 0 or 1.
pub fn entropy_bits(count: &BigUint) -> (r: u64)
    ensures
        r as nat == log2_floor(big_value(*count)),
{
    let b = big_bits(count);
    proof {
        lemma_bit_len_log2(big_value(*count));
    }
    if b == 0 {
        0
    } else {
        b - 1
    }
}

/// Entropy of the exact ordered sequence of `k` words from `m`: the bits of
/// `m^k`.
pub fn ordered_entropy(m: usize, k: usize) -> (r: u64)
    ensures
        r as nat == log2_floor(power(m as nat, k as nat)),
{
    entropy_bits(&perm_count(m, k))
}

/// Entropy when the `k` words from `m` may be freely rearranged: the bits of
/// the number of multisets, `C(m + k - 1, k)`.
pub fn rearranged_entropy(m: usize, k: usize) -> (r: u64)
    ensures
        r as nat == log2_floor(multichoose(m as nat, k as nat)),
{
    entropy_bits(&multi_cmbn_count(m, k))
}

/// Entropy when `n` candidates are drawn from `m` words and the user keeps
/// `k` of them in any order: the bits of the quotient of the multiset counts
/// of `n` and of `n - k` draws.
pub fn pick_from_entropy(m: usize, n: usize, k: usize) -> (r: u64)
    requires
        m >= 1,
        k <= n,
    ensures
        r as nat == log2_floor(
            multichoose(m as nat, n as nat) / multichoose(m as nat, (n - k) as nat),
        ),
{
    let all = multi_cmbn_count(m, n);
    let rest = multi_cmbn_count(m, n - k);
    proof {
        lemma_multichoose_positive(m as nat, (n - k) as nat);
    }
    entropy_bits(&big_div(&all, &rest))
}

} // verus!
