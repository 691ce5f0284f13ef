//! Exact counts of ordered and unordered draws with replacement.
use crate::bignum::{big_div, big_from_u128, big_mul, big_value};
use num_bigint::BigUint;
use vstd::prelude::*;

verus! {

/// `m` raised to the power `k`, with `power(m, 0) == 1`.
pub open spec fn power(m: nat, k: nat) -> nat
    decreases k,
{
    if k == 0 {
        1
    } else {
        m * power(m, (k - 1) as nat)
    }
}

/// The binomial coefficient `C(n, k)`, by Pascal's rule.
pub open spec fn binom(n: nat, k: nat) -> nat
    decreases n,
{
    if k == 0 {
        1
    } else if n == 0 {
        0
    } else {
        binom((n - 1) as nat, (k - 1) as nat) + binom((n - 1) as nat, k)
    }
}

/// Number of multisets of size `k` drawn from `m` items: `C(m + k - 1, k)`,
/// and 1 (the empty multiset) for `k == 0`.
pub open spec fn multichoose(m: nat, k: nat) -> nat {
    if k == 0 {
        1
    } else {
        binom((m + k - 1) as nat, k)
    }
}

/// `C(n, 1) == n`.
pub proof fn lemma_binom_one(n: nat)
    ensures
        binom(n, 1) == n,
    decreases n,
{
    if n > 0 {
        lemma_binom_one((n - 1) as nat);
        assert(binom(n, 1) == binom((n - 1) as nat, 0) + binom((n - 1) as nat, 1));
    } else {
        assert(binom(0, 1) == 0);
    }
}

/// `k * C(n, k) == (n - k + 1) * C(n, k - 1)`: the step from one coefficient
/// of a row to the next.
pub proof fn lemma_binom_step(n: nat, k: nat)
    requires
        k >= 1,
    ensures
        k * binom(n, k) == (n - k + 1) * binom(n, (k - 1) as nat),
    decreases n,
{
    if n == 0 {
        assert(binom(0, k) == 0);
        if k >= 2 {
            assert(binom(0, (k - 1) as nat) == 0);
        } else {
            assert(binom(0, 0) == 1);
        }
    } else if k == 1 {
        lemma_binom_one(n);
        assert(binom(n, 0) == 1);
    } else {
        let p = (n - 1) as nat;
        lemma_binom_step(p, (k - 1) as nat);
        lemma_binom_step(p, k);
        let a = binom(p, (k - 2) as nat);
        let b = binom(p, (k - 1) as nat);
        let c = binom(p, k);
        assert(binom(n, k) == b + c);
        assert(binom(n, (k - 1) as nat) == a + b);
        assert((k - 1) * b == (p - k + 2) * a);
        assert(k * c == (p - k + 1) * b);
        assert(k * (b + c) == (n - k + 1) * (a + b)) by (nonlinear_arith)
            requires
                (k - 1) * b == (p - k + 2) * a,
                k * c == (p - k + 1) * b,
                p == n - 1,
        ;
    }
}

/// `C(n, k) >= 1` whenever `k <= n`.
pub proof fn lemma_binom_positive(n: nat, k: nat)
    requires
        k <= n,
    ensures
        binom(n, k) >= 1,
    decreases n,
{
    if k > 0 {
        lemma_binom_positive((n - 1) as nat, (k - 1) as nat);
    }
}

/// `k * C(n, k) == n * C(n - 1, k - 1)`.
pub proof fn lemma_binom_absorb(n: nat, k: nat)
    requires
        n >= 1,
        k >= 1,
    ensures
        k * binom(n, k) == n * binom((n - 1) as nat, (k - 1) as nat),
    decreases n,
{
    let p = (n - 1) as nat;
    if k == 1 {
        lemma_binom_one(n);
        assert(binom(p, 0) == 1);
        assert(k * binom(n, k) == n * binom(p, 0));
    } else if n == 1 {
        assert(binom(0, k) == 0);
        assert(binom(0, (k - 1) as nat) == 0);
        assert(binom(1, k) == binom(0, (k - 1) as nat) + binom(0, k));
        assert(k * binom(n, k) == 0) by (nonlinear_arith)
            requires
                binom(n, k) == 0,
        ;
    } else {
        let q = (n - 2) as nat;
        lemma_binom_absorb(p, k);
        lemma_binom_absorb(p, (k - 1) as nat);
        let a = binom(q, (k - 2) as nat);
        let b = binom(q, (k - 1) as nat);
        let x = binom(p, (k - 1) as nat);
        let y = binom(p, k);
        assert(binom(n, k) == x + y);
        assert(x == a + b);
        assert(k * y == p * b);
        assert((k - 1) * x == p * a);
        assert(k * (x + y) == n * x) by (nonlinear_arith)
            requires
                k * y == p * b,
                (k - 1) * x == p * a,
                x == a + b,
                p == n - 1,
        ;
    }
}

/// From a non-empty word list every draw size has at least one multiset.
pub proof fn lemma_multichoose_positive(m: nat, k: nat)
    requires
        m >= 1,
    ensures
        multichoose(m, k) >= 1,
{
    if k > 0 {
        lemma_binom_positive((m + k - 1) as nat, k);
    }
}

/// The number of unordered multisets of `k` words drawn with replacement from
/// `m` words: `C(m + k - 1, k)`, and 1 for `k == 0`.
pub fn multi_cmbn_count(m: usize, k: usize) -> (r: BigUint)
    ensures
        big_value(r) == multichoose(m as nat, k as nat),
{
    if k == 0 {
        return big_from_u128(1);
    }
    let top: u128 = m as u128 + k as u128 - 1;
    let mut n: u128 = top;
    let mut c = big_from_u128(n);
    proof {
        lemma_binom_one(top as nat);
    }
    let mut i: u128 = 2;
    while i <= k as u128
        invariant
            1 <= k,
            2 <= i <= k + 1,
            top == m + k - 1,
            n == top - (i - 2),
            big_value(c) == binom(top as nat, (i - 1) as nat),
        decreases k + 1 - i,
    {
        n = n - 1;
        let prod = big_mul(&c, &big_from_u128(n));
        proof {
            lemma_binom_step(top as nat, i as nat);
            let prev = binom(top as nat, (i - 1) as nat);
            assert(big_value(prod) == prev * (top - i + 1));
            assert(big_value(prod) == (i as nat) * binom(top as nat, i as nat)) by (nonlinear_arith)
                requires
                    big_value(prod) == prev * (top - i + 1),
                    i * binom(top as nat, i as nat) == (top - i + 1) * prev,
            ;
        }
        c = big_div(&prod, &big_from_u128(i));
        proof {
            vstd::arithmetic::div_mod::lemma_div_multiples_vanish(
                binom(top as nat, i as nat) as int,
                i as int,
            );
        }
        i = i + 1;
    }
    c
}

/// An empty draw, ordered or not, has exactly one outcome; from no words, a
/// non-empty ordered draw has none.
pub proof fn lemma_counts_of_empty_draw(m: nat, k: nat)
    ensures
        power(m, 0) == 1,
        multichoose(m, 0) == 1,
        m == 0 && k > 0 ==> power(m, k) == 0,
{
}

/// Choosing one word out of `m` has `m` outcomes, whatever the order.
pub proof fn lemma_multichoose_one(m: nat)
    requires
        m >= 1,
    ensures
        multichoose(m, 1) == m,
{
    lemma_binom_one(m);
}

/// The stars-and-bars recurrence: a multiset of `k` out of `m` words either
/// holds no copy of the last word (a multiset of `k` out of `m - 1`), or is
/// one copy of it added to a multiset of `k - 1` out of `m`.
pub proof fn lemma_multichoose_recurrence(m: nat, k: nat)
    requires
        m >= 1,
        k >= 1,
    ensures
        multichoose(m, k) == multichoose((m - 1) as nat, k) + multichoose(m, (k - 1) as nat),
{
    let n = (m + k - 1) as nat;
    assert(binom(n, k) == binom((n - 1) as nat, (k - 1) as nat) + binom((n - 1) as nat, k));
    if k == 1 {
        assert(binom((n - 1) as nat, 0) == 1);
    }
}

/// There are never more multisets of `k` words out of `m` than sequences.
pub proof fn lemma_multichoose_le_power(m: nat, k: nat)
    requires
        m >= 1,
    ensures
        multichoose(m, k) <= power(m, k),
    decreases k,
{
    if k > 0 {
        let km = (k - 1) as nat;
        lemma_multichoose_le_power(m, km);
        let n = (m + k - 1) as nat;
        lemma_binom_absorb(n, k);
        assert(multichoose(m, km) == binom((n - 1) as nat, km));
        let prev = multichoose(m, km);
        let pw = power(m, km);
        assert(power(m, k) == m * pw);
        assert(k * multichoose(m, k) == n * prev);
        assert(multichoose(m, k) <= m * pw) by (nonlinear_arith)
            requires
                k * multichoose(m, k) == n * prev,
                prev <= pw,
                n == m + k - 1,
                m >= 1,
                k >= 1,
        ;
    }
}

/// The number of ordered sequences of `k` words drawn with replacement from
/// `m` words: `m^k`.
pub fn perm_count(m: usize, k: usize) -> (r: BigUint)
    ensures
        big_value(r) == power(m as nat, k as nat),
{
    let base = big_from_u128(m as u128);
    let mut c = big_from_u128(1);
    let mut i: usize = 0;
    while i < k
        invariant
            0 <= i <= k,
            big_value(base) == m,
            big_value(c) == power(m as nat, i as nat),
        decreases k - i,
    {
        c = big_mul(&c, &base);
        proof {
            assert(power(m as nat, (i + 1) as nat) == m * power(m as nat, i as nat));
        }
        i = i + 1;
    }
    c
}

} // verus!
