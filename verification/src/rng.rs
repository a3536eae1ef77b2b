use rand::Rng;
use rand::SeedableRng;
use vstd::prelude::*;

verus! {

/// rand_chacha's ChaCha20 generator, declared so that a value of it can run
/// through verified code; what it holds stays opaque.
#[verifier::external_type_specification]
#[verifier::external_body]
pub struct ExChaCha20Rng(rand_chacha::ChaCha20Rng);

/// The abstract state a generator is in, named but never written out: the
/// wrappers below say how it starts and how each draw moves it.
pub uninterp spec fn chacha_state(rng: rand_chacha::ChaCha20Rng) -> int;

/// The state a freshly seeded generator starts in, a function of the 32 seed
/// bytes alone.
pub uninterp spec fn chacha_seeded(seed: Seq<u8>) -> int;

/// The index that one bounded draw yields, a function of the state and the
/// bound alone.
pub uninterp spec fn chacha_draw(state: int, bound: nat) -> nat;

/// The state one bounded draw leaves the generator in, a function of the
/// state and the bound alone.
pub uninterp spec fn chacha_next(state: int, bound: nat) -> int;

/// Relies on ChaCha20Rng::from_seed: the generator's whole output stream is
/// determined by the 32-byte seed alone.
#[verifier::external_body]
pub(crate) fn chacha_from_seed(seed: &[u8]) -> (r: rand_chacha::ChaCha20Rng)
    requires
        seed@.len() == 32,
    ensures
        chacha_state(r) == chacha_seeded(seed@),
{
    let mut s = [0u8; 32];
    s.copy_from_slice(seed);
    rand_chacha::ChaCha20Rng::from_seed(s)
}

/// Relies on Rng::gen_range over the 64-bit range `0..bound`: rejection
/// sampling over the ChaCha output stream, which returns a value below the
/// bound and leaves the generator in a state that, like the value, is a
/// function of the starting state and the bound alone.
#[verifier::external_body]
pub(crate) fn chacha_below(rng: &mut rand_chacha::ChaCha20Rng, bound: usize) -> (r: usize)
    requires
        bound >= 1,
    ensures
        r < bound,
        r as nat == chacha_draw(chacha_state(*old(rng)), bound as nat),
        chacha_state(*final(rng)) == chacha_next(chacha_state(*old(rng)), bound as nat),
{
    rng.gen_range(0..(bound as u64)) as usize
}

} // verus!
