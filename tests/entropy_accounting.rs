use num_bigint::BigUint;
use passphrase::combinatorics::{multi_cmbn_count, perm_count};
use passphrase::entropy::{entropy_bits, ordered_entropy, pick_from_entropy, rearranged_entropy};

fn big(x: u64) -> BigUint {
    BigUint::from(x)
}

/// Counts multisets of size `k` from `m` items by the stars-and-bars recursion.
fn multisets_reference(m: u64, k: u64) -> u64 {
    if k == 0 {
        1
    } else if m == 0 {
        0
    } else {
        multisets_reference(m - 1, k) + multisets_reference(m, k - 1)
    }
}

#[test]
fn perm_count_of_empty_draw_is_one() {
    for m in [0usize, 1, 2, 7, 7776, usize::MAX] {
        assert_eq!(perm_count(m, 0), big(1));
    }
}

#[test]
fn perm_count_matches_exponentiation() {
    for (m, k) in [(1usize, 5usize), (2, 10), (4, 2), (10, 3), (7776, 5), (0, 3), (3, 1)] {
        let expected = (m as u128).pow(k as u32);
        assert_eq!(perm_count(m, k), BigUint::from(expected), "m={} k={}", m, k);
    }
    assert_eq!(perm_count(2, 200), BigUint::from(2u32).pow(200));
}

#[test]
fn multi_cmbn_count_of_one_word_is_source_size() {
    for m in [1usize, 2, 3, 10, 7776, 100_000] {
        assert_eq!(multi_cmbn_count(m, 1), BigUint::from(m));
    }
}

#[test]
fn multi_cmbn_count_three_choose_two() {
    assert_eq!(multi_cmbn_count(3, 2), big(6));
}

#[test]
fn multi_cmbn_count_matches_stars_and_bars() {
    for m in 0..8u64 {
        for k in 0..8u64 {
            assert_eq!(
                multi_cmbn_count(m as usize, k as usize),
                big(multisets_reference(m, k)),
                "m={} k={}",
                m,
                k
            );
        }
    }
}

#[test]
fn multi_cmbn_count_of_empty_draw_is_one() {
    assert_eq!(multi_cmbn_count(0, 0), big(1));
    assert_eq!(multi_cmbn_count(5, 0), big(1));
}

#[test]
fn multi_cmbn_count_from_no_words_is_zero() {
    assert_eq!(multi_cmbn_count(0, 1), big(0));
    assert_eq!(multi_cmbn_count(0, 4), big(0));
}

#[test]
fn multi_cmbn_count_large_list() {
    // C(7780, 5) = 7780 * 7779 * 7778 * 7777 * 7776 / 120
    let expected = big(7780) * big(7779) * big(7778) * big(7777) * big(7776) / big(120);
    assert_eq!(multi_cmbn_count(7776, 5), expected);
}

#[test]
fn entropy_bits_small_counts() {
    assert_eq!(entropy_bits(&big(0)), 0);
    assert_eq!(entropy_bits(&big(1)), 0);
    assert_eq!(entropy_bits(&big(2)), 1);
    assert_eq!(entropy_bits(&big(3)), 1);
    assert_eq!(entropy_bits(&big(10)), 3);
    assert_eq!(entropy_bits(&big(16)), 4);
    assert_eq!(entropy_bits(&BigUint::from(2u32).pow(300)), 300);
}

#[test]
fn rearranged_entropy_never_exceeds_ordered() {
    for m in 1..12usize {
        for k in 0..12usize {
            assert!(rearranged_entropy(m, k) <= ordered_entropy(m, k), "m={} k={}", m, k);
        }
    }
    assert!(rearranged_entropy(7776, 6) <= ordered_entropy(7776, 6));
}

#[test]
fn four_word_list_two_words_entropy() {
    assert_eq!(perm_count(4, 2), big(16));
    assert_eq!(ordered_entropy(4, 2), 4);
    assert_eq!(multi_cmbn_count(4, 2), big(10));
    assert_eq!(rearranged_entropy(4, 2), 3);
}

#[test]
fn pick_from_entropy_exact() {
    // C(6, 3) / C(4, 1) = 20 / 4 = 5
    assert_eq!(pick_from_entropy(4, 3, 2), 2);
    // C(13, 4) / C(11, 2) = 715 / 55 = 13
    assert_eq!(pick_from_entropy(10, 4, 2), 3);
    // keeping every candidate gives the rearranged entropy
    assert_eq!(pick_from_entropy(10, 4, 4), rearranged_entropy(10, 4));
}

#[test]
fn zero_length_passphrase_has_no_entropy() {
    assert_eq!(ordered_entropy(7776, 0), 0);
    assert_eq!(rearranged_entropy(7776, 0), 0);
}
