//! Dice-roll labels for a word list: word `i` is labelled by the base-`B`
//! digits of `i`, each shifted to `1..=B`, most significant first, with just
//! enough digits to label every word.
use crate::combinatorics::power;
use crate::passphrase::UsageError;
use vstd::prelude::*;

verus! {

/// Digit `j` (most significant first) of the `d`-digit label of `index`.
pub open spec fn label_digit(index: nat, d: nat, base: nat, j: nat) -> nat {
    (index / power(base, (d - 1 - j) as nat)) % base + 1
}

proof fn lemma_power_positive(b: nat, e: nat)
    requires
        b >= 1,
    ensures
        power(b, e) >= 1,
    decreases e,
{
    if e > 0 {
        lemma_power_positive(b, (e - 1) as nat);
        vstd::arithmetic::mul::lemma_mul_increases(b as int, power(b, (e - 1) as nat) as int);
    }
}

/// The fewest base-`base` digits that label `m` words: the least `d` with
/// `base^d >= m`, which is `ceil(log_base(m))` for `m >= 1`.
pub fn dice_digit_count(m: usize, base: u32) -> (r: usize)
    requires
        base >= 2,
    ensures
        power(base as nat, r as nat) >= m,
        r == 0 || power(base as nat, (r - 1) as nat) < m,
{
    let mut d: usize = 0;
    let mut cap: u128 = 1;
    while cap < m as u128
        invariant
            base >= 2,
            cap == power(base as nat, d as nat),
            1 <= cap,
            d < cap,
            d == 0 || power(base as nat, (d - 1) as nat) < m,
            cap <= 0x1_0000_0000_0000_0000 * 0x1_0000_0000,
        decreases m - d,
    {
        proof {
            assert(cap * base >= cap * 2) by (nonlinear_arith)
                requires
                    base >= 2,
                    cap >= 1,
            ;
            assert(cap * base <= 0x1_0000_0000_0000_0000 * 0x1_0000_0000) by (nonlinear_arith)
                requires
                    base <= 0xffff_ffff,
                    cap < 0x1_0000_0000_0000_0000,
            ;
        }
        proof {
            assert(power(base as nat, (d + 1) as nat) == base * power(base as nat, d as nat));
            assert(cap * base == base * cap) by (nonlinear_arith);
        }
        cap = cap * base as u128;
        d = d + 1;
    }
    d
}

/// The label of word `index`: `digit_count` digits in `1..=base`, most
/// significant first.
pub fn dice_label(index: usize, digit_count: usize, base: u32) -> (r: Vec<u32>)
    requires
        base >= 2,
    ensures
        r@.len() == digit_count,
        forall|j: int|
            0 <= j < digit_count ==> r@[j] as nat == label_digit(
                index as nat,
                digit_count as nat,
                base as nat,
                j as nat,
            ),
{
    let mut r: Vec<u32> = vec![0u32; digit_count];
    let mut q: usize = index;
    let mut j: usize = digit_count;
    proof {
        assert(power(base as nat, 0) == 1);
        assert((digit_count - j) as nat == 0);
        assert(index as nat / 1 == index as nat);
    }
    while j > 0
        invariant
            base >= 2,
            j <= digit_count,
            r@.len() == digit_count,
            q as nat == index as nat / power(base as nat, (digit_count - j) as nat),
            forall|t: int|
                j <= t < digit_count ==> r@[t] as nat == label_digit(
                    index as nat,
                    digit_count as nat,
                    base as nat,
                    t as nat,
                ),
        decreases j,
    {
        let digit = (q % (base as usize)) as u32 + 1;
        proof {
            let e = (digit_count - j) as nat;
            assert(((digit_count - 1 - (j - 1)) as nat) == e);
            lemma_power_positive(base as nat, e);
            vstd::arithmetic::div_mod::lemma_div_denominator(
                index as int,
                power(base as nat, e) as int,
                base as int,
            );
            assert(power(base as nat, e + 1) == base * power(base as nat, e));
            vstd::arithmetic::mul::lemma_mul_is_commutative(
                base as int,
                power(base as nat, e) as int,
            );
        }
        r.set(j - 1, digit);
        q = q / (base as usize);
        j = j - 1;
    }
    r
}

/// `label` is the label of word `i` in a list of `m` words for a die with
/// `base` faces: the fewest digits that label `m` words, and the digits of `i`.
pub open spec fn is_label(label: Seq<u32>, i: nat, m: nat, base: nat) -> bool {
    let d = label.len();
    &&& power(base, d) >= m
    &&& (d == 0 || power(base, (d - 1) as nat) < m)
    &&& forall|j: int| 0 <= j < d ==> label[j] as nat == label_digit(i, d, base, j as nat)
}

/// The labels of a list of `m` words for a die with `base` faces, in the
/// list's order, or `DiceBaseTooSmall` when `base < 2`.
pub fn diceware_labels(m: usize, base: u32) -> (r: Result<Vec<Vec<u32>>, UsageError>)
    ensures
        base < 2 ==> r == Err::<Vec<Vec<u32>>, UsageError>(UsageError::DiceBaseTooSmall),
        base >= 2 ==> (r matches Ok(labels) && labels@.len() == m && forall|i: int|
            0 <= i < m ==> is_label(#[trigger] labels@[i]@, i as nat, m as nat, base as nat)),
{
    if base < 2 {
        return Err(UsageError::DiceBaseTooSmall);
    }
    let d = dice_digit_count(m, base);
    let mut labels: Vec<Vec<u32>> = Vec::new();
    let mut i: usize = 0;
    while i < m
        invariant
            base >= 2,
            i <= m,
            labels@.len() == i,
            power(base as nat, d as nat) >= m,
            d == 0 || power(base as nat, (d - 1) as nat) < m,
            forall|t: int|
                0 <= t < i ==> is_label(#[trigger] labels@[t]@, t as nat, m as nat, base as nat),
        decreases m - i,
    {
        let label = dice_label(i, d, base);
        labels.push(label);
        i = i + 1;
    }
    Ok(labels)
}

} // verus!
