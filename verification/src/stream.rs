//! The pseudo-random stream that map generation draws from.
//!
//! The generator itself is `rand_xoshiro::SplitMix64`, driven through `rand`.
//! Nothing of it is proved here: the items of this module state, from the
//! generator's source, how its 64-bit state moves and name the word that one
//! step gives out.

use vstd::prelude::*;
use rand::Rng;
use rand::SeedableRng;

verus! {

/// `rand_xoshiro::SplitMix64`, the generator. It is passed on as it is:
/// nothing inside it can be seen from here.
#[verifier::external_type_specification]
#[verifier::external_body]
pub struct ExSplitMix64(rand_xoshiro::SplitMix64);

/// The 64-bit state that a `SplitMix64` holds: all there is to it.
pub uninterp spec fn stream_state(rng: rand_xoshiro::SplitMix64) -> u64;

/// The 32-bit word that `SplitMix64::next_u32` returns when it is called on a
/// generator whose state is `state`.
pub uninterp spec fn stream_word(state: u64) -> u32;

/// The increment that every draw adds to the state.
pub const STREAM_STEP: u64 = 0x9e37_79b9_7f4a_7c15;

/// The state after one draw from `state`: the increment added, wrapping.
pub open spec fn stream_advance(state: u64) -> u64 {
    ((state + STREAM_STEP) % 0x1_0000_0000_0000_0000) as u64
}

/// The low 8 bits of the word drawn from `state`.
pub open spec fn stream_u8(state: u64) -> u8 {
    #[verifier::truncate]
    (stream_word(state) as u8)
}

/// The low 16 bits of the word drawn from `state`.
pub open spec fn stream_u16(state: u64) -> u16 {
    #[verifier::truncate]
    (stream_word(state) as u16)
}

/// `SplitMix64::seed_from_u64`: the new generator's state is the seed itself
/// (the seed's little-endian bytes are read back as one `u64`).
#[verifier::external_body]
pub(crate) fn seeded_stream(seed: u64) -> (rng: rand_xoshiro::SplitMix64)
    ensures
        stream_state(rng) == seed,
{
    rand_xoshiro::SplitMix64::seed_from_u64(seed)
}

/// `Rng::gen::<u8>` on a `SplitMix64`: one call of `next_u32`, which advances
/// the state by the increment, and the word truncated to its low 8 bits.
#[verifier::external_body]
pub(crate) fn draw_u8(rng: &mut rand_xoshiro::SplitMix64) -> (r: u8)
    ensures
        stream_state(*final(rng)) == stream_advance(stream_state(*old(rng))),
        r == #[verifier::truncate] (stream_word(stream_state(*old(rng))) as u8),
{
    rng.gen::<u8>()
}

/// `Rng::gen::<u16>` on a `SplitMix64`: one call of `next_u32`, which advances
/// the state by the increment, and the word truncated to its low 16 bits.
#[verifier::external_body]
pub(crate) fn draw_u16(rng: &mut rand_xoshiro::SplitMix64) -> (r: u16)
    ensures
        stream_state(*final(rng)) == stream_advance(stream_state(*old(rng))),
        r == #[verifier::truncate] (stream_word(stream_state(*old(rng))) as u16),
{
    rng.gen::<u16>()
}

} // verus!
