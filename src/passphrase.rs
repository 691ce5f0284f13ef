//! Assembling a passphrase: checking the request, drawing word indices and
//! reporting the entropy of the result.
use crate::combinatorics::{multichoose, power};
use crate::entropy::{log2_floor, ordered_entropy, pick_from_entropy, rearranged_entropy};
use crate::sampler::{sample_indices, SampleError};
use vstd::prelude::*;

verus! {

/// A request that cannot be served; the user can correct it.
#[derive(Debug, Clone, Copy, PartialEq, Eq, Structural)]
pub enum UsageError {
    /// More words were asked for than the candidate set holds.
    PickFromTooSmall,
    /// Filtering left no word to draw from.
    EmptyWordList,
    /// The word list has more words than a 32-bit index reaches.
    WordListTooLarge,
    /// A dice base below 2 labels no word.
    DiceBaseTooSmall,
}

/// Why no passphrase came out.
#[derive(Debug, Clone, Copy, PartialEq, Eq, Structural)]
pub enum PassphraseError {
    Usage(UsageError),
    Random(SampleError),
}

/// The entropy figures of one passphrase.
#[derive(Debug, Clone, Copy, PartialEq, Eq)]
pub struct EntropyReport {
    /// Bits of the exact ordered sequence; `None` in pick-from mode.
    pub ordered_bits: Option<u64>,
    /// Bits once the kept words may be rearranged (and, in pick-from mode,
    /// chosen among the candidates).
    pub unordered_bits: u64,
    /// Size of the filtered word list that the figures assume.
    pub source_count: usize,
}

/// A drawn passphrase: indices into the word list, and its entropy report.
#[derive(Debug)]
pub struct Passphrase {
    pub indices: Vec<u32>,
    pub report: EntropyReport,
}

/// Outcome of checking a request for `length` words from `m` words, shown
/// `pick_from` candidates (or `length` of them): the number of words to draw.
pub open spec fn usage_outcome(m: usize, length: usize, pick_from: Option<usize>) -> Result<
    usize,
    UsageError,
> {
    let n = match pick_from {
        Some(p) => p,
        None => length,
    };
    if n < length {
        Err(UsageError::PickFromTooSmall)
    } else if m == 0 {
        Err(UsageError::EmptyWordList)
    } else if m > u32::MAX {
        Err(UsageError::WordListTooLarge)
    } else {
        Ok(n)
    }
}

/// The report owed for `length` words kept out of `n` drawn from `m` words.
pub open spec fn report_spec(rep: EntropyReport, m: usize, length: usize, n: usize) -> bool {
    &&& rep.source_count == m
    &&& if n > length {
        &&& rep.ordered_bits is None
        &&& rep.unordered_bits as nat == log2_floor(
            multichoose(m as nat, n as nat) / multichoose(m as nat, (n - length) as nat),
        )
    } else {
        &&& rep.ordered_bits matches Some(b) && b as nat == log2_floor(
            power(m as nat, length as nat),
        )
        &&& rep.unordered_bits as nat == log2_floor(multichoose(m as nat, length as nat))
    }
}

/// Checks a request: `pick_from`, when given, must be at least `length`, and
/// the word list must be non-empty and indexable by `u32`. Returns the number
/// of words to draw.
pub fn check_usage(m: usize, length: usize, pick_from: Option<usize>) -> (r: Result<
    usize,
    UsageError,
>)
    ensures
        r == usage_outcome(m, length, pick_from),
{
    let n = match pick_from {
        Some(p) => p,
        None => length,
    };
    if n < length {
        Err(UsageError::PickFromTooSmall)
    } else if m == 0 {
        Err(UsageError::EmptyWordList)
    } else if m > 0xffff_ffff {
        Err(UsageError::WordListTooLarge)
    } else {
        Ok(n)
    }
}

/// The entropy report of a request: ordered and rearranged entropy when as
/// many words are drawn as kept, the pick-from entropy otherwise.
pub fn entropy_report(m: usize, length: usize, pick_from: Option<usize>) -> (r: Result<
    EntropyReport,
    UsageError,
>)
    ensures
        match usage_outcome(m, length, pick_from) {
            Err(e) => r == Err::<EntropyReport, UsageError>(e),
            Ok(n) => r matches Ok(rep) && report_spec(rep, m, length, n),
        },
{
    let n = check_usage(m, length, pick_from)?;
    if n > length {
        Ok(
            EntropyReport {
                ordered_bits: None,
                unordered_bits: pick_from_entropy(m, n, length),
                source_count: m,
            },
        )
    } else {
        Ok(
            EntropyReport {
                ordered_bits: Some(ordered_entropy(m, length)),
                unordered_bits: rearranged_entropy(m, length),
                source_count: m,
            },
        )
    }
}

/// Draws a passphrase of `length` words from a list of `m` words, or
/// `pick_from` candidates for the user to choose from, with its report.
/// Nothing is drawn when the request is refused.
pub fn generate(m: usize, length: usize, pick_from: Option<usize>) -> (r: Result<
    Passphrase,
    PassphraseError,
>)
    ensures
        match usage_outcome(m, length, pick_from) {
            Err(e) => r == Err::<Passphrase, PassphraseError>(PassphraseError::Usage(e)),
            Ok(n) => match r {
                Ok(p) => {
                    &&& p.indices@.len() == n
                    &&& forall|j: int| 0 <= j < n ==> (p.indices@[j] as int) < m
                    &&& report_spec(p.report, m, length, n)
                },
                Err(e) => e == PassphraseError::Random(SampleError::RandomSourceUnavailable),
            },
        },
        usage_outcome(m, length, pick_from) == Ok::<usize, UsageError>(0usize) ==> r is Ok,
{
    let report = match entropy_report(m, length, pick_from) {
        Ok(rep) => rep,
        Err(e) => return Err(PassphraseError::Usage(e)),
    };
    let n = match pick_from {
        Some(p) => p,
        None => length,
    };
    match sample_indices(m as u32, n) {
        Ok(indices) => Ok(Passphrase { indices, report }),
        Err(e) => Err(PassphraseError::Random(e)),
    }
}

} // verus!
