use num_bigint::BigUint;
use passphrase::diceware::{dice_digit_count, dice_label, diceware_labels};
use passphrase::passphrase::{
    check_usage, entropy_report, generate, EntropyReport, PassphraseError, UsageError,
};
use passphrase::sampler::{reduce_uniform, sample_indices, sample_uniform, RANDOM_BYTES};

#[test]
fn reduce_uniform_reads_little_endian() {
    let mut bytes = vec![0u8; RANDOM_BYTES];
    bytes[0] = 5;
    assert_eq!(reduce_uniform(&bytes, 3), 2);
    bytes[0] = 0;
    bytes[1] = 1;
    assert_eq!(reduce_uniform(&bytes, 7), 256 % 7);
    let full = vec![0xffu8; RANDOM_BYTES];
    let expected = BigUint::from_bytes_le(&full) % BigUint::from(37u32);
    assert_eq!(BigUint::from(reduce_uniform(&full, 37)), expected);
    assert_eq!(reduce_uniform(&full, 1), 0);
}

#[test]
fn sample_uniform_stays_in_range() {
    for n in [1u32, 2, 37, u32::MAX] {
        for _ in 0..200 {
            assert!(sample_uniform(n).unwrap() < n);
        }
    }
}

#[test]
fn sample_uniform_is_uniform_chi_square() {
    let n = 37usize;
    let draws = 100_000usize;
    let mut counts = vec![0u64; n];
    for _ in 0..draws {
        counts[sample_uniform(n as u32).unwrap() as usize] += 1;
    }
    let expected = draws as f64 / n as f64;
    let chi2: f64 = counts
        .iter()
        .map(|&c| {
            let d = c as f64 - expected;
            d * d / expected
        })
        .sum();
    // 36 degrees of freedom: the 0.9999 quantile is about 80.
    assert!(chi2 < 80.0, "chi-square statistic {}", chi2);
}

#[test]
fn sample_indices_count_and_range() {
    let v = sample_indices(4, 10).unwrap();
    assert_eq!(v.len(), 10);
    assert!(v.iter().all(|&i| i < 4));
    assert!(sample_indices(4, 0).unwrap().is_empty());
}

#[test]
fn end_to_end_four_words_two_long() {
    let words = ["ant", "bee", "cat", "dog"];
    let p = generate(words.len(), 2, None).unwrap();
    assert_eq!(p.indices.len(), 2);
    assert!(p.indices.iter().all(|&i| (i as usize) < words.len()));
    assert_eq!(
        p.report,
        EntropyReport { ordered_bits: Some(4), unordered_bits: 3, source_count: 4 }
    );
}

#[test]
fn pick_from_report_and_draw() {
    let p = generate(10, 2, Some(4)).unwrap();
    assert_eq!(p.indices.len(), 4);
    assert_eq!(
        p.report,
        EntropyReport { ordered_bits: None, unordered_bits: 3, source_count: 10 }
    );
    // pick_from equal to length is the plain mode
    assert_eq!(
        entropy_report(4, 2, Some(2)).unwrap(),
        EntropyReport { ordered_bits: Some(4), unordered_bits: 3, source_count: 4 }
    );
}

#[test]
fn pick_from_smaller_than_length_is_usage_error() {
    assert_eq!(check_usage(100, 5, Some(3)), Err(UsageError::PickFromTooSmall));
    assert_eq!(entropy_report(100, 5, Some(3)), Err(UsageError::PickFromTooSmall));
    assert!(matches!(
        generate(100, 5, Some(3)),
        Err(PassphraseError::Usage(UsageError::PickFromTooSmall))
    ));
}

#[test]
fn empty_word_list_is_usage_error() {
    assert_eq!(check_usage(0, 5, None), Err(UsageError::EmptyWordList));
    assert!(matches!(
        generate(0, 5, None),
        Err(PassphraseError::Usage(UsageError::EmptyWordList))
    ));
}

#[test]
fn oversized_word_list_is_usage_error() {
    let m = (u32::MAX as usize) + 1;
    assert_eq!(check_usage(m, 5, None), Err(UsageError::WordListTooLarge));
}

#[test]
fn zero_length_passphrase_is_empty() {
    let p = generate(4, 0, None).unwrap();
    assert!(p.indices.is_empty());
    assert_eq!(
        p.report,
        EntropyReport { ordered_bits: Some(0), unordered_bits: 0, source_count: 4 }
    );
}

#[test]
fn diceware_four_words_base_four() {
    assert_eq!(dice_digit_count(4, 4), 1);
    let labels = diceware_labels(4, 4).unwrap();
    assert_eq!(labels, vec![vec![1], vec![2], vec![3], vec![4]]);
}

#[test]
fn dice_digit_count_is_ceiling_log() {
    assert_eq!(dice_digit_count(0, 6), 0);
    assert_eq!(dice_digit_count(1, 6), 0);
    assert_eq!(dice_digit_count(6, 6), 1);
    assert_eq!(dice_digit_count(7, 6), 2);
    assert_eq!(dice_digit_count(36, 6), 2);
    assert_eq!(dice_digit_count(37, 6), 3);
    assert_eq!(dice_digit_count(7776, 6), 5);
    assert_eq!(dice_digit_count(usize::MAX, 2), 64);
}

#[test]
fn dice_labels_count_least_significant_fastest() {
    assert_eq!(dice_label(0, 2, 6), vec![1, 1]);
    assert_eq!(dice_label(1, 2, 6), vec![1, 2]);
    assert_eq!(dice_label(6, 2, 6), vec![2, 1]);
    assert_eq!(dice_label(35, 2, 6), vec![6, 6]);
    let labels = diceware_labels(9, 2).unwrap();
    assert_eq!(labels[0], vec![1, 1, 1, 1]);
    assert_eq!(labels[5], vec![1, 2, 1, 2]);
    assert_eq!(labels[8], vec![2, 1, 1, 1]);
}

#[test]
fn dice_base_below_two_is_usage_error() {
    assert_eq!(diceware_labels(4, 1), Err(UsageError::DiceBaseTooSmall));
    assert_eq!(diceware_labels(4, 0), Err(UsageError::DiceBaseTooSmall));
}
