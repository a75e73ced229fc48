//! The run-length probe: does a seed's first bounded draw repeat often enough?
use crate::generator::{capped_draw, Generator};
use vstd::prelude::*;

verus! {

/// Every draw is reduced into `[0, DRAW_BOUND)`.
pub const DRAW_BOUND: u64 = 71;

/// The run length a seed must reach to qualify.
pub const THRESHOLD: u32 = 5;

/// How many draws of `d`, from position `i` on, equal the first draw before
/// one differs or the sequence ends.
pub open spec fn run_from(d: Seq<u64>, i: nat) -> nat
    decreases d.len() - i,
{
    if i < d.len() && d[i as int] == d[0] {
        1 + run_from(d, i + 1)
    } else {
        0
    }
}

/// The run of a draw sequence: the number of draws right after the first one
/// that equal it, up to the first that differs (or the end).
pub open spec fn run_of(d: Seq<u64>) -> nat {
    if d.len() == 0 {
        0
    } else {
        run_from(d, 1)
    }
}

/// The bounded draw of `seed`'s generator at position `index`.
pub open spec fn seed_draw(seed: u64, index: nat) -> u64 {
    capped_draw(seed, index, DRAW_BOUND)
}

/// A seed qualifies for `threshold` when the `threshold` draws that follow its
/// first draw all equal the first: its run is at least `threshold`.
pub open spec fn qualifies(seed: u64, threshold: nat) -> bool {
    forall|k: nat| 1 <= k <= threshold ==> #[trigger] seed_draw(seed, k) == seed_draw(seed, 0)
}

/// The first `n` bounded draws of `seed`'s generator.
pub open spec fn draws_of(seed: u64, n: nat) -> Seq<u64> {
    Seq::new(n, |k: int| seed_draw(seed, k as nat))
}

proof fn lemma_run_from_reaches(d: Seq<u64>, i: nat, m: nat)
    requires
        1 <= i,
        i + m <= d.len(),
    ensures
        run_from(d, i) >= m <==> forall|k: int| i <= k < i + m ==> #[trigger] d[k] == d[0],
    decreases m,
{
    if m > 0 {
        lemma_run_from_reaches(d, i + 1, (m - 1) as nat);
        if run_from(d, i) >= m {
            assert forall|k: int| i <= k < i + m implies #[trigger] d[k] == d[0] by {
                if k > i {
                    assert(i + 1 <= k < i + 1 + (m - 1));
                }
            }
        }
        if forall|k: int| i <= k < i + m ==> #[trigger] d[k] == d[0] {
            assert(d[i as int] == d[0]);
            assert forall|k: int| i + 1 <= k < i + 1 + (m - 1) implies #[trigger] d[k] == d[0] by {
                assert(i <= k < i + m);
            }
        }
    }
}

/// A seed qualifies for `threshold` exactly when the run of its first
/// `threshold + 1` draws is at least `threshold`: the probe is the run-length
/// test on the seed's own draws.
pub proof fn lemma_qualifies_is_run(seed: u64, threshold: nat)
    ensures
        qualifies(seed, threshold) <==> run_of(draws_of(seed, threshold + 1)) >= threshold,
{
    let d = draws_of(seed, threshold + 1);
    lemma_run_from_reaches(d, 1, threshold);
    if qualifies(seed, threshold) {
        assert forall|k: int| 1 <= k < 1 + threshold implies #[trigger] d[k] == d[0] by {
            assert(seed_draw(seed, k as nat) == seed_draw(seed, 0));
        }
    }
    if run_of(d) >= threshold {
        assert forall|k: nat| 1 <= k <= threshold implies #[trigger] seed_draw(seed, k) == seed_draw(
            seed,
            0,
        ) by {
            assert(d[k as int] == d[0]);
        }
    }
}

/// The run of a finite draw sequence, as the probe counts it.
pub fn leading_run(draws: &Vec<u64>) -> (r: usize)
    ensures
        r == run_of(draws@),
{
    if draws.len() == 0 {
        return 0;
    }
    let first = draws[0];
    let mut i: usize = 1;
    while i < draws.len() && draws[i] == first
        invariant
            1 <= i <= draws.len(),
            first == draws@[0],
            run_of(draws@) == (i - 1) + run_from(draws@, i as nat),
        decreases draws.len() - i,
    {
        i = i + 1;
    }
    i - 1
}

/// Draws from a fresh generator for `seed` and reports whether the run after
/// the first draw reaches `threshold`. It stops at the first differing draw,
/// or once `threshold` equal draws have been seen.
pub fn probe(seed: u64, threshold: u32) -> (r: bool)
    ensures
        r == qualifies(seed, threshold as nat),
{
    let mut g = Generator::new(seed);
    let first = g.next_in_range(DRAW_BOUND);
    let mut run: u32 = 0;
    while run < threshold
        invariant
            run <= threshold,
            g.seed() == seed,
            g.drawn() == run + 1,
            first == seed_draw(seed, 0),
            forall|k: nat| 1 <= k <= run ==> #[trigger] seed_draw(seed, k) == seed_draw(seed, 0),
        decreases threshold - run,
    {
        let d = g.next_in_range(DRAW_BOUND);
        if d != first {
            assert(seed_draw(seed, (run + 1) as nat) != seed_draw(seed, 0));
            return false;
        }
        run = run + 1;
    }
    true
}

} // verus!
