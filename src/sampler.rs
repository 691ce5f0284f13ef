//! Unbiased secure sampling of an index in `[0, n)`.
//!
//! A block of `RANDOM_BYTES` bytes from the operating system's secure source
//! is read as one little-endian integer `R` of 288 bits and reduced modulo `n`.
//! For `n < 2^32` the deviation of any residue's probability from `1/n` is
//! below `n / 2^288 < 2^-256`, so no rejection loop is needed.
use crate::bignum::{big_from_bytes_le, big_from_u128, big_rem, big_to_u32, le_value};
use crate::combinatorics::power;
use vstd::prelude::*;

verus! {

/// Size of the random block drawn for each sample: 256 bits of margin over a
/// 32-bit range.
pub const RANDOM_BYTES: usize = 36;

/// The operating system's secure random source failed.
#[derive(Debug, Clone, Copy, PartialEq, Eq, Structural)]
pub enum SampleError {
    RandomSourceUnavailable,
}

#[verifier::external_type_specification]
#[verifier::external_body]
pub struct ExRandomError(getrandom::Error);

/// Relies on `getrandom::getrandom`: fills the buffer in place from the
/// operating system's secure source, or returns that source's error.
#[verifier::external_body]
fn fill_secure(buf: &mut Vec<u8>) -> (r: Result<(), getrandom::Error>)
    ensures
        final(buf)@.len() == old(buf)@.len(),
{
    getrandom::getrandom(buf.as_mut_slice())
}

/// How many integers in `[0, total)` leave remainder `r` modulo `n`.
pub open spec fn residue_count(total: nat, n: nat, r: nat) -> nat
    decreases total,
{
    if total == 0 {
        0
    } else {
        residue_count((total - 1) as nat, n, r) + if ((total - 1) as nat) % n == r {
            1nat
        } else {
            0nat
        }
    }
}

/// A block of bytes, read little-endian, lies in `[0, 256^len)`.
pub proof fn lemma_le_value_bound(s: Seq<u8>)
    ensures
        le_value(s) < power(256, s.len()),
    decreases s.len(),
{
    if s.len() > 0 {
        let rest = s.subrange(1, s.len() as int);
        lemma_le_value_bound(rest);
        assert(power(256, s.len()) == 256 * power(256, rest.len()));
        assert(le_value(s) == s[0] as nat + 256 * le_value(rest));
        assert(s[0] as nat + 256 * le_value(rest) < 256 * power(256, rest.len())) by (nonlinear_arith)
            requires
                s[0] < 256,
                le_value(rest) < power(256, rest.len()),
        ;
    }
}

/// The `len` little-endian bytes of `v` (the low `len` bytes, for a `v` that
/// does not fit).
pub open spec fn le_bytes(v: nat, len: nat) -> Seq<u8>
    decreases len,
{
    if len == 0 {
        Seq::empty()
    } else {
        seq![(v % 256) as u8] + le_bytes(v / 256, (len - 1) as nat)
    }
}

/// Every value below `256^len` is read from the block `le_bytes(v, len)`.
pub proof fn lemma_le_bytes_value(v: nat, len: nat)
    requires
        v < power(256, len),
    ensures
        le_bytes(v, len).len() == len,
        le_value(le_bytes(v, len)) == v,
    decreases len,
{
    if len > 0 {
        let lm = (len - 1) as nat;
        assert(power(256, len) == 256 * power(256, lm));
        vstd::arithmetic::div_mod::lemma_fundamental_div_mod(v as int, 256);
        assert(v / 256 < power(256, lm)) by (nonlinear_arith)
            requires
                v == 256 * (v / 256) + v % 256,
                v % 256 >= 0,
                v < 256 * power(256, lm),
        ;
        lemma_le_bytes_value(v / 256, lm);
        let b = le_bytes(v, len);
        let rest = le_bytes(v / 256, lm);
        assert(b.subrange(1, b.len() as int) =~= rest);
        assert(b[0] as nat == v % 256);
    }
}

/// Two blocks of one length that read as the same value are the same block.
pub proof fn lemma_le_value_injective(s1: Seq<u8>, s2: Seq<u8>)
    requires
        s1.len() == s2.len(),
        le_value(s1) == le_value(s2),
    ensures
        s1 == s2,
    decreases s1.len(),
{
    if s1.len() > 0 {
        let r1 = s1.subrange(1, s1.len() as int);
        let r2 = s2.subrange(1, s2.len() as int);
        let v = le_value(s1);
        vstd::arithmetic::div_mod::lemma_fundamental_div_mod_converse(
            v as int,
            256,
            le_value(r1) as int,
            s1[0] as int,
        );
        vstd::arithmetic::div_mod::lemma_fundamental_div_mod_converse(
            v as int,
            256,
            le_value(r2) as int,
            s2[0] as int,
        );
        lemma_le_value_injective(r1, r2);
        assert(s1 =~= seq![s1[0]] + r1);
        assert(s2 =~= seq![s2[0]] + r2);
    }
    assert(s1 =~= s2);
}

/// Blocks of `len` bytes and values in `[0, 256^len)` correspond one to one
/// under the little-endian reading: every block reads below `256^len`, every
/// such value is read from some block, and from only one. A uniformly drawn
/// block therefore gives a uniformly drawn value in that range.
pub proof fn lemma_blocks_cover_range_once(len: nat)
    ensures
        forall|s: Seq<u8>| s.len() == len ==> #[trigger] le_value(s) < power(256, len),
        forall|v: nat|
            v < power(256, len) ==> {
                let b = #[trigger] le_bytes(v, len);
                &&& b.len() == len
                &&& le_value(b) == v
            },
        forall|s1: Seq<u8>, s2: Seq<u8>|
            s1.len() == len && s2.len() == len && #[trigger] le_value(s1) == #[trigger] le_value(
                s2,
            ) ==> s1 == s2,
{
    assert forall|s: Seq<u8>| s.len() == len implies #[trigger] le_value(s) < power(256, len) by {
        lemma_le_value_bound(s);
    }
    assert forall|v: nat| v < power(256, len) implies {
        let b = #[trigger] le_bytes(v, len);
        &&& b.len() == len
        &&& le_value(b) == v
    } by {
        lemma_le_bytes_value(v, len);
    }
    assert forall|s1: Seq<u8>, s2: Seq<u8>|
        s1.len() == len && s2.len() == len && #[trigger] le_value(s1) == #[trigger] le_value(
            s2,
        ) implies s1 == s2 by {
        lemma_le_value_injective(s1, s2);
    }
}

/// The bias of reducing modulo `n`: among the `total` equally likely values
/// of the block, each residue below `n` is hit `total / n` times, plus one
/// for the residues below `total % n`. So every residue's probability is
/// within `1 / total` of `1 / n`; with `total = 2^288` and `n < 2^32` that is
/// far below `2^-96`.
pub proof fn lemma_reduction_bias(total: nat, n: nat, r: nat)
    requires
        n > 0,
        r < n,
    ensures
        residue_count(total, n, r) == total / n + if r < total % n {
            1nat
        } else {
            0nat
        },
        total / n <= residue_count(total, n, r) <= total / n + 1,
    decreases total,
{
    if total > 0 {
        let t = (total - 1) as nat;
        lemma_reduction_bias(t, n, r);
        let q = t / n;
        let s = t % n;
        vstd::arithmetic::div_mod::lemma_fundamental_div_mod(t as int, n as int);
        if s + 1 == n {
            assert(total == (q + 1) * n + 0) by (nonlinear_arith)
                requires
                    t == n * q + s,
                    s + 1 == n,
                    total == t + 1,
            ;
            vstd::arithmetic::div_mod::lemma_fundamental_div_mod_converse(
                total as int,
                n as int,
                (q + 1) as int,
                0,
            );
        } else {
            assert(total == q * n + (s + 1)) by (nonlinear_arith)
                requires
                    t == n * q + s,
                    total == t + 1,
            ;
            vstd::arithmetic::div_mod::lemma_fundamental_div_mod_converse(
                total as int,
                n as int,
                q as int,
                (s + 1) as int,
            );
        }
    }
}

/// The values in `[0, total)` that leave remainder `r` modulo `n`.
pub open spec fn values_with_residue(total: nat, n: nat, r: nat) -> Set<nat> {
    Set::new(|v: nat| v < total && v % n == r)
}

/// The blocks of `len` bytes whose little-endian value leaves remainder `r`
/// modulo `n`: those that `reduce_uniform` maps to `r`.
pub open spec fn blocks_with_residue(len: nat, n: nat, r: nat) -> Set<Seq<u8>> {
    Set::new(|s: Seq<u8>| s.len() == len && le_value(s) % n == r)
}

proof fn lemma_values_with_residue_len(total: nat, n: nat, r: nat)
    requires
        n > 0,
    ensures
        values_with_residue(total, n, r).finite(),
        values_with_residue(total, n, r).len() == residue_count(total, n, r),
    decreases total,
{
    if total == 0 {
        assert(values_with_residue(0, n, r) =~= Set::<nat>::empty());
    } else {
        let t = (total - 1) as nat;
        lemma_values_with_residue_len(t, n, r);
        if t % n == r {
            assert(values_with_residue(total, n, r) =~= values_with_residue(t, n, r).insert(t));
        } else {
            assert(values_with_residue(total, n, r) =~= values_with_residue(t, n, r));
        }
    }
}

/// The bias of the draw itself: of the `256^RANDOM_BYTES` (that is `2^288`)
/// equally likely blocks, the number that `reduce_uniform` maps to a residue
/// `r < n` is `2^288 / n` or one more. Every index's probability is thus
/// within `2^-288` of `1 / n`.
pub proof fn lemma_draw_bias(n: nat, r: nat)
    requires
        n > 0,
        r < n,
    ensures
        blocks_with_residue(RANDOM_BYTES as nat, n, r).finite(),
        blocks_with_residue(RANDOM_BYTES as nat, n, r).len() == residue_count(
            power(256, RANDOM_BYTES as nat),
            n,
            r,
        ),
        power(256, RANDOM_BYTES as nat) / n <= blocks_with_residue(
            RANDOM_BYTES as nat,
            n,
            r,
        ).len() <= power(256, RANDOM_BYTES as nat) / n + 1,
{
    let len = RANDOM_BYTES as nat;
    let total = power(256, len);
    let values = values_with_residue(total, n, r);
    let blocks = blocks_with_residue(len, n, r);
    let f = |v: nat| le_bytes(v, len);
    lemma_values_with_residue_len(total, n, r);
    lemma_reduction_bias(total, n, r);
    lemma_blocks_cover_range_once(len);
    assert(vstd::relations::injective_on(f, values)) by {
        assert forall|x: nat, y: nat|
            values.contains(x) && values.contains(y) && #[trigger] f(x) == #[trigger] f(y) implies x
            == y by {
            lemma_le_bytes_value(x, len);
            lemma_le_bytes_value(y, len);
        }
    }
    assert(values.map(f) =~= blocks) by {
        assert forall|s: Seq<u8>| blocks.contains(s) implies values.map(f).contains(s) by {
            let v = le_value(s);
            lemma_le_value_bound(s);
            lemma_le_bytes_value(v, len);
            lemma_le_value_injective(le_bytes(v, len), s);
            assert(values.contains(v));
            assert(f(v) == s);
        }
        assert forall|s: Seq<u8>| values.map(f).contains(s) implies blocks.contains(s) by {
            let v = choose|v: nat| values.contains(v) && f(v) == s;
            lemma_le_bytes_value(v, len);
        }
    }
    vstd::set_lib::lemma_map_size(values, blocks, f);
}

/// Reduces a block of random bytes, read as a little-endian integer, to an
/// index in `[0, n)`.
pub fn reduce_uniform(bytes: &[u8], n: u32) -> (r: u32)
    requires
        n > 0,
    ensures
        r as nat == le_value(bytes@) % (n as nat),
        r < n,
{
    let big = big_from_bytes_le(bytes);
    let count = big_from_u128(n as u128);
    let offset = big_rem(&big, &count);
    match big_to_u32(&offset) {
        Some(v) => v,
        None => 0,
    }
}

/// Draws an index uniformly from `[0, n)` out of the operating system's
/// secure random source; fails when that source does.
pub fn sample_uniform(n: u32) -> (r: Result<u32, SampleError>)
    requires
        n > 0,
    ensures
        r matches Ok(v) ==> v < n,
{
    let mut bytes: Vec<u8> = vec![0u8; RANDOM_BYTES];
    match fill_secure(&mut bytes) {
        Ok(()) => Ok(reduce_uniform(bytes.as_slice(), n)),
        Err(_) => Err(SampleError::RandomSourceUnavailable),
    }
}

/// Draws `count` indices, each independently and uniformly from `[0, m)`,
/// with repetition allowed.
pub fn sample_indices(m: u32, count: usize) -> (r: Result<Vec<u32>, SampleError>)
    requires
        m > 0,
    ensures
        r matches Ok(v) ==> v@.len() == count && forall|j: int| 0 <= j < count ==> v@[j] < m,
        count == 0 ==> r is Ok,
{
    let mut out: Vec<u32> = Vec::new();
    let mut i: usize = 0;
    while i < count
        invariant
            m > 0,
            i <= count,
            out@.len() == i,
            forall|j: int| 0 <= j < i ==> out@[j] < m,
        decreases count - i,
    {
        let v = sample_uniform(m)?;
        out.push(v);
        i = i + 1;
    }
    Ok(out)
}

} // verus!
