//! Deterministic ChaCha20 byte stream, used for ping payloads and for the
//! connection cipher's keystream.
//!
//! The generator is `rand_chacha::ChaCha20Rng`. Its output is a pure
//! function of the 32-byte seed and of the position in the stream, which is
//! what the names below capture: `chacha20_bytes(seed, word_pos, len)` are
//! the `len` bytes produced by a generator with that seed standing at that
//! position. The position is counted in 32-bit words; reading `n` bytes
//! advances it by `n` divided by 4, rounded up, because the generator
//! discards the remainder of a partially-read word.

use vstd::prelude::*;

verus! {

#[verifier::external_type_specification]
#[verifier::external_body]
pub struct ExChaCha20Rng(rand_chacha::ChaCha20Rng);

/// The seed a generator was built from.
pub uninterp spec fn rng_seed(rng: rand_chacha::ChaCha20Rng) -> Seq<u8>;

/// The position of a generator in its output stream, in 32-bit words.
pub uninterp spec fn rng_word_pos(rng: rand_chacha::ChaCha20Rng) -> nat;

/// The bytes that a generator with the given seed produces at the given
/// word position.
pub uninterp spec fn chacha20_bytes(seed: Seq<u8>, word_pos: nat, len: nat) -> Seq<u8>;

/// Relies on `ChaCha20Rng::from_seed`: it builds a generator standing at
/// position 0 of the stream determined by the seed. This is the only
/// constructor the library uses, so every generator reachable here runs on
/// stream 0: the seed and the word position determine the output.
#[verifier::external_body]
pub fn chacha20_from_seed(seed: &[u8; 32]) -> (r: rand_chacha::ChaCha20Rng)
    ensures
        rng_seed(r) == seed@,
        rng_word_pos(r) == 0,
{
    <rand_chacha::ChaCha20Rng as rand_chacha::rand_core::SeedableRng>::from_seed(*seed)
}

/// Relies on `ChaCha20Rng::fill_bytes` (through `rand_core::RngCore`): the
/// bytes are a pure function of the seed and of the word position, and the
/// position advances by the number of 32-bit words consumed.
#[verifier::external_body]
pub fn chacha20_fill(rng: &mut rand_chacha::ChaCha20Rng, n: usize) -> (r: Vec<u8>)
    ensures
        r@.len() == n,
        r@ == chacha20_bytes(rng_seed(*old(rng)), rng_word_pos(*old(rng)), n as nat),
        rng_seed(*final(rng)) == rng_seed(*old(rng)),
        rng_word_pos(*final(rng)) == rng_word_pos(*old(rng)) + (((n as nat) + 3) / 4),
{
    let mut buf = std::vec::from_elem(0u8, n);
    rand_chacha::rand_core::RngCore::fill_bytes(rng, &mut buf);
    buf
}

} // verus!
