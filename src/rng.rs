use rand::Rng;
use rand::SeedableRng;
use vstd::prelude::*;

verus! {

#[verifier::external_type_specification]
#[verifier::external_body]
pub struct ExStdRng(rand::StdRng);

/// Relies on `SeedableRng::from_seed` for `rand::StdRng`: builds the
/// generator from a one-word seed.
#[verifier::external_body]
fn seeded_rng(seed: usize) -> (r: rand::StdRng) {
    let words: [usize; 1] = [seed];
    rand::StdRng::from_seed(&words[..])
}

/// Relies on `Rng::gen_range`: a value in `[low, high)`; it panics when
/// `low >= high`.
#[verifier::external_body]
fn random_in_range(rng: &mut rand::StdRng, low: i32, high: i32) -> (r: i32)
    requires
        low < high,
    ensures
        low <= r < high,
{
    rng.gen_range(low, high)
}

/// Relies on `Rng::gen::<bool>`: a fair coin.
#[verifier::external_body]
fn random_bool(rng: &mut rand::StdRng) -> (r: bool) {
    rng.gen::<bool>()
}

/// Bit pattern of `1.0f32`. The bit patterns of the non-negative
/// single-precision numbers are ordered as the numbers themselves.
pub const ONE_BITS: u32 = 0x3F80_0000;

/// Relies on `Rng::next_f32`, which returns a number in `[0, 1)`; the
/// number is handed over as its IEEE-754 bit pattern.
#[verifier::external_body]
fn random_unit_bits(rng: &mut rand::StdRng) -> (r: u32)
    ensures
        r < ONE_BITS,
{
    rng.next_f32().to_bits()
}

/// The seeded random stream that drives level generation.
pub struct ThreadContext {
    pub rand: rand::StdRng,
    pub custom_seed: bool,
    pub rand_seed: i32,
    /// Every value drawn so far, in order; a coin flip counts as 1 or 0.
    pub draws: Ghost<Seq<int>>,
}

/// Seed used when none is given.
pub const DEFAULT_SEED: i32 = 69;

impl ThreadContext {
    /// A stream seeded with the default seed.
    pub fn new() -> (r: Self)
        ensures
            r.rand_seed == DEFAULT_SEED,
            !r.custom_seed,
            r.draws@ == Seq::<int>::empty(),
    {
        new_thread_context_from_seed(DEFAULT_SEED, false)
    }

    /// A stream seeded with `seed`, marked as chosen by the user.
    pub fn from_seed(seed: i32) -> (r: Self)
        ensures
            r.rand_seed == seed,
            r.custom_seed,
            r.draws@ == Seq::<int>::empty(),
    {
        new_thread_context_from_seed(seed, true)
    }

    /// A uniformly drawn value in `[low, high)`.
    pub fn range(&mut self, low: i32, high: i32) -> (r: i32)
        requires
            low < high,
        ensures
            low <= r < high,
            final(self).rand_seed == old(self).rand_seed,
            final(self).custom_seed == old(self).custom_seed,
            final(self).draws@ == old(self).draws@.push(r as int),
    {
        let r = random_in_range(&mut self.rand, low, high);
        self.draws = Ghost(self.draws@.push(r as int));
        r
    }

    /// A fair coin flip.
    pub fn coin(&mut self) -> (r: bool)
        ensures
            final(self).rand_seed == old(self).rand_seed,
            final(self).custom_seed == old(self).custom_seed,
            final(self).draws@ == old(self).draws@.push(if r {
                1int
            } else {
                0int
            }),
    {
        let r = random_bool(&mut self.rand);
        self.draws = Ghost(self.draws@.push(if r {
            1int
        } else {
            0int
        }));
        r
    }

    /// A number uniformly drawn from `[0, 1)`, given by its bit pattern.
    pub fn unit_bits(&mut self) -> (r: u32)
        ensures
            r < ONE_BITS,
            final(self).rand_seed == old(self).rand_seed,
            final(self).custom_seed == old(self).custom_seed,
            final(self).draws@ == old(self).draws@.push(r as int),
    {
        let r = random_unit_bits(&mut self.rand);
        self.draws = Ghost(self.draws@.push(r as int));
        r
    }
}

fn new_thread_context_from_seed(seed: i32, custom_seed: bool) -> (r: ThreadContext)
    ensures
        r.rand_seed == seed,
        r.custom_seed == custom_seed,
        r.draws@ == Seq::<int>::empty(),
{
    let word = seed as usize;
    ThreadContext { rand: seeded_rng(word), custom_seed, rand_seed: seed, draws: Ghost(Seq::empty()) }
}

} // verus!
