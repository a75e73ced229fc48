//! The seeded generator: a thin, verified face over libgdx-xs128's `Random`.
use libgdx_xs128::old_rng::Random;
use libgdx_xs128::RandomXS128;
use vstd::prelude::*;

verus! {

#[verifier::external_type_specification]
#[verifier::external_body]
pub struct ExRandom(Random);

/// The draw at position `index` (counting from 0) of a generator freshly
/// seeded with `seed`, each draw reduced into `[0, bound)`.
pub uninterp spec fn capped_draw(seed: u64, index: nat, bound: u64) -> u64;

/// A generator together with the seed it was made from and the number of
/// draws taken from it so far.
pub struct Generator {
    rng: Random,
    seed: Ghost<u64>,
    drawn: Ghost<nat>,
}

impl Generator {
    /// The seed this generator was made from.
    pub closed spec fn seed(&self) -> u64 {
        self.seed@
    }

    /// How many draws have been taken from this generator.
    pub closed spec fn drawn(&self) -> nat {
        self.drawn@
    }

    /// The draw this generator hands out at position `index`, reduced into
    /// `[0, bound)`.
    pub open spec fn draw_at(&self, index: nat, bound: u64) -> u64 {
        capped_draw(self.seed(), index, bound)
    }

    /// A fresh generator for `seed`, with nothing drawn yet.
    pub fn new(seed: u64) -> (g: Generator)
        ensures
            g.seed() == seed,
            g.drawn() == 0,
    {
        seeded(seed)
    }

    /// The next draw, reduced into `[0, bound)`; the generator moves on by one
    /// position.
    pub fn next_in_range(&mut self, bound: u64) -> (r: u64)
        requires
            0 < bound <= 0x8000_0000_0000_0000u64,
        ensures
            r == old(self).draw_at(old(self).drawn(), bound),
            r < bound,
            final(self).seed() == old(self).seed(),
            final(self).drawn() == old(self).drawn() + 1,
    {
        take_capped(self, bound)
    }
}

/// Relies on `RandomXS128::new` of libgdx-xs128: a fresh generator whose
/// state is a function of `seed` alone, with nothing drawn yet.
#[verifier::external_body]
fn seeded(seed: u64) -> (g: Generator)
    ensures
        g.seed() == seed,
        g.drawn() == 0,
{
    Generator { rng: Random::new(seed), seed: Ghost(seed), drawn: Ghost(0) }
}

/// Relies on `RandomXS128::next_capped_u64` of libgdx-xs128: it takes one
/// 64-bit output, shifts it right by one and returns it modulo `bound` (with
/// the reroll feature it never rerolls, as the shifted value is never below
/// the residue), so each call consumes one position of the seed's output
/// stream. A bound above 2^63 could overflow its arithmetic, and a zero bound
/// divides by zero.
#[verifier::external_body]
fn take_capped(g: &mut Generator, bound: u64) -> (r: u64)
    requires
        0 < bound <= 0x8000_0000_0000_0000u64,
    ensures
        r == capped_draw(old(g).seed(), old(g).drawn(), bound),
        r < bound,
        final(g).seed() == old(g).seed(),
        final(g).drawn() == old(g).drawn() + 1,
{
    let r = g.rng.next_capped_u64(bound);
    g.drawn = Ghost(g.drawn@ + 1);
    r
}

/// Two generators made from the same seed hand out the same draw at every
/// position and for every bound: the stream depends on the seed alone.
pub proof fn lemma_same_seed_same_draws(a: &Generator, b: &Generator)
    requires
        a.seed() == b.seed(),
    ensures
        forall|i: nat, bound: u64| #[trigger] a.draw_at(i, bound) == b.draw_at(i, bound),
{
}

} // verus!
