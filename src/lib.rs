//! Passphrase entropy accounting: exact combinatorial counts of the
//! passphrases that a word list can yield, the bit entropy of such counts,
//! and an unbiased secure sampler of word indices.

pub mod bignum;
pub mod combinatorics;
pub mod entropy;
pub mod sampler;
pub mod passphrase;
pub mod diceware;
