//! The keyed generator that spaces the walk: a ChaCha20 stream seeded from a
//! hash of the key.

use vstd::prelude::*;
use rand::Rng;
use rand::SeedableRng;

verus! {

/// `rand_chacha::ChaCha20Rng`, carried through verified code as an opaque value.
#[verifier::external_type_specification]
#[verifier::external_body]
pub struct ExChaCha20Rng(rand_chacha::ChaCha20Rng);

/// What a generator holds: the 32 bytes of its seed, then its stream number
/// and its position in the stream, as `ChaCha20Rng`'s `get_seed`, `get_stream`
/// and `get_word_pos` give them (little-endian, 8 and 16 bytes).
pub uninterp spec fn generator_state(rng: rand_chacha::ChaCha20Rng) -> Seq<u8>;

/// The seed that `rand_seeder::Seeder` hashes out of a key.
pub uninterp spec fn key_seed(key: Option<Seq<char>>) -> Seq<u8>;

/// What `Rng::random_range(0..bound)` gives on a generator in state `state`:
/// the number drawn, and the state the generator is left in.
pub uninterp spec fn drawn(state: Seq<u8>, bound: usize) -> (usize, Seq<u8>);

/// A key as contracts see it.
pub open spec fn key_view(key: Option<String>) -> Option<Seq<char>> {
    match key {
        Some(k) => Some(k@),
        None => None,
    }
}

/// The state of a generator that has drawn nothing yet: its seed, stream 0,
/// position 0.
pub open spec fn fresh_state(seed: Seq<u8>) -> Seq<u8> {
    seed + Seq::new(24, |i: int| 0u8)
}

/// `Seeder::from(key).make_seed()` of rand_seeder: the key, hashed by
/// SipHash into 32 bytes. The crate fixes the hash's keys and byte order, so
/// the seed depends on the key alone.
#[verifier::external_body]
pub(crate) fn seed_from_key(key: &Option<String>) -> (seed: [u8; 32])
    ensures
        seed@ == key_seed(key_view(*key)),
{
    rand_seeder::Seeder::from(key).make_seed()
}

/// `ChaCha20Rng::from_seed` of rand_chacha: a generator at the start of
/// stream 0 of that seed.
#[verifier::external_body]
pub(crate) fn generator_from_seed(seed: [u8; 32]) -> (rng: rand_chacha::ChaCha20Rng)
    ensures
        generator_state(rng) == fresh_state(seed@),
{
    rand_chacha::ChaCha20Rng::from_seed(seed)
}

/// `Rng::random_range(0..bound)` of rand on a `ChaCha20Rng`: a number below
/// `bound`, which the generator's state and `bound` determine, as they do the
/// state it is left in. An empty range panics there, so `bound` is not 0.
#[verifier::external_body]
pub(crate) fn draw_below(rng: &mut rand_chacha::ChaCha20Rng, bound: usize) -> (k: usize)
    requires
        bound > 0,
    ensures
        k < bound,
        k == drawn(generator_state(*old(rng)), bound).0,
        generator_state(*final(rng)) == drawn(generator_state(*old(rng)), bound).1,
{
    rng.random_range(0..bound)
}

/// One step of the walk for `max_step`, and the state the generator is left
/// in: step 0 and the same state where `max_step` leaves no choice, else the
/// number drawn below `max_step`. A generator draws no number that is not
/// below its bound; the definition says so of every state.
pub open spec fn step_of(state: Seq<u8>, max_step: usize) -> (usize, Seq<u8>) {
    if max_step > 1 {
        let (k, next) = drawn(state, max_step);
        if k < max_step {
            (k, next)
        } else {
            (0usize, next)
        }
    } else {
        (0usize, state)
    }
}

/// The state of a generator after `n` steps with the same `max_step`.
pub open spec fn state_after(state: Seq<u8>, max_step: usize, n: nat) -> Seq<u8>
    decreases n,
{
    if n == 0 {
        state
    } else {
        step_of(state_after(state, max_step, (n - 1) as nat), max_step).1
    }
}

/// The first `n` steps that a generator in `state` gives for `max_step`.
pub open spec fn steps_from(state: Seq<u8>, max_step: usize, n: nat) -> Seq<usize> {
    Seq::new(n, |j: int| step_of(state_after(state, max_step, j as nat), max_step).0)
}

/// The first `n` steps of the walk that `key` gives for `max_step`.
pub open spec fn key_steps(key: Option<Seq<char>>, max_step: usize, n: nat) -> Seq<usize> {
    steps_from(fresh_state(key_seed(key)), max_step, n)
}

/// The keyed generator of step sizes.
pub struct Stepper {
    rng: rand_chacha::ChaCha20Rng,
}

impl Stepper {
    /// What the generator holds.
    pub closed spec fn state(&self) -> Seq<u8> {
        generator_state(self.rng)
    }

    /// A generator at the start of the stream that `key` selects.
    pub fn new(key: &Option<String>) -> (s: Self)
        ensures
            s.state() == fresh_state(key_seed(key_view(*key))),
    {
        let seed = seed_from_key(key);
        Stepper { rng: generator_from_seed(seed) }
    }

    /// The next number below `bound`.
    pub(crate) fn draw(&mut self, bound: usize) -> (k: usize)
        requires
            bound > 0,
        ensures
            k < bound,
            k == drawn(old(self).state(), bound).0,
            final(self).state() == drawn(old(self).state(), bound).1,
    {
        draw_below(&mut self.rng, bound)
    }
}

} // verus!
