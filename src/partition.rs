//! Striding the seed space across lanes, and the per-lane search kernels.
use crate::probe::{probe, qualifies, THRESHOLD};
use vstd::prelude::*;

verus! {

/// Seeds at or above this bound are never examined.
pub const SEARCH_CEILING: u64 = 1_000_000_000_000;

/// `s` is one of the seeds lane `lane` of `count` lanes examines:
/// `lane + 1`, `lane + 1 + count`, `lane + 1 + 2 * count`, ...
pub open spec fn is_candidate(lane: nat, count: nat, s: nat) -> bool {
    s >= lane + 1 && (s - (lane + 1)) as nat % count == 0
}

/// `s` is the first candidate of the lane below `ceiling` that qualifies.
pub open spec fn is_first_match(lane: nat, count: nat, ceiling: nat, threshold: nat, s: u64) -> bool {
    &&& is_candidate(lane, count, s as nat)
    &&& s < ceiling
    &&& qualifies(s, threshold)
    &&& forall|t: u64|
        is_candidate(lane, count, t as nat) && t < s ==> !#[trigger] qualifies(t, threshold)
}

/// No candidate of the lane below `ceiling` qualifies.
pub open spec fn finds_nothing(lane: nat, count: nat, ceiling: nat, threshold: nat) -> bool {
    forall|t: u64|
        is_candidate(lane, count, t as nat) && t < ceiling ==> !#[trigger] qualifies(t, threshold)
}

/// What a lane's result slot holds once the lane is done: its first match, or
/// the sentinel 0 when it found nothing.
pub open spec fn slot_outcome(lane: nat, count: nat, ceiling: nat, threshold: nat, v: u64) -> bool {
    ||| v == 0 && finds_nothing(lane, count, ceiling, threshold)
    ||| is_first_match(lane, count, ceiling, threshold, v)
}

/// Two candidates of one lane lie at least a stride apart.
proof fn lemma_candidates_stride(lane: nat, count: nat, s: nat, t: nat)
    requires
        count > 0,
        is_candidate(lane, count, s),
        is_candidate(lane, count, t),
        s < t,
    ensures
        s + count <= t,
{
    let b = lane + 1;
    let x = (s - b) as nat;
    let y = (t - b) as nat;
    vstd::arithmetic::div_mod::lemma_fundamental_div_mod(x as int, count as int);
    vstd::arithmetic::div_mod::lemma_fundamental_div_mod(y as int, count as int);
    let qx = x as int / count as int;
    let qy = y as int / count as int;
    assert(x == count * qx);
    assert(y == count * qy);
    assert(qx < qy) by (nonlinear_arith)
        requires
            x == count * qx,
            y == count * qy,
            x < y,
            count > 0,
    ;
    assert(count * qx + count <= count * qy) by (nonlinear_arith)
        requires
            qx < qy,
            count > 0,
    ;
}

/// Every seed in `[1, ceiling)` is a candidate of exactly one of `count`
/// lanes, the lane `(s - 1) % count`: the lanes cover the search space with no
/// seed examined twice.
pub proof fn lemma_lanes_partition(count: nat, ceiling: nat, s: nat)
    requires
        count > 0,
        1 <= s < ceiling,
    ensures
        ((s - 1) as nat % count) < count,
        is_candidate(((s - 1) as nat % count), count, s),
        forall|lane: nat| lane < count && #[trigger] is_candidate(lane, count, s) ==> lane == (s - 1) as nat % count,
{
    let x = (s - 1) as nat;
    let l = x % count;
    vstd::arithmetic::div_mod::lemma_fundamental_div_mod(x as int, count as int);
    let q = x as int / count as int;
    assert(q >= 0) by {
        vstd::arithmetic::div_mod::lemma_div_pos_is_pos(x as int, count as int);
    }
    assert(count * q >= 0) by (nonlinear_arith)
        requires
            q >= 0,
            count > 0,
    ;
    assert((s - (l + 1)) as nat == count * q);
    vstd::arithmetic::mul::lemma_mul_is_commutative(count as int, q);
    vstd::arithmetic::div_mod::lemma_mod_multiples_basic(q, count as int);
    assert(((q * count) as nat) % count == 0);
    assert(is_candidate(l, count, s));
    assert forall|lane: nat| lane < count && #[trigger] is_candidate(lane, count, s) implies lane == l by {
        let y = (s - (lane + 1)) as nat;
        vstd::arithmetic::div_mod::lemma_fundamental_div_mod(y as int, count as int);
        let p = y as int / count as int;
        assert(y == count * p);
        // x == count * p + lane with lane < count, so lane is x % count
        assert(x == count * p + lane);
        vstd::arithmetic::div_mod::lemma_fundamental_div_mod_converse(
            x as int,
            count as int,
            p,
            lane as int,
        );
    }
}

/// The lane's search: walks its candidates in increasing order below
/// `ceiling` and stops at the first that qualifies for `threshold`.
pub fn first_match(lane_index: u32, lane_count: u32, ceiling: u64, threshold: u32) -> (r: Option<u64>)
    requires
        lane_count > 0,
    ensures
        match r {
            Some(s) => is_first_match(
                lane_index as nat,
                lane_count as nat,
                ceiling as nat,
                threshold as nat,
                s,
            ),
            None => finds_nothing(
                lane_index as nat,
                lane_count as nat,
                ceiling as nat,
                threshold as nat,
            ),
        },
{
    let ghost lane = lane_index as nat;
    let ghost count = lane_count as nat;
    let ghost th = threshold as nat;
    let stride = lane_count as u64;
    let mut seed: u64 = lane_index as u64 + 1;
    assert(is_candidate(lane, count, seed as nat)) by {
        assert((seed - (lane + 1)) as nat == 0);
    }
    while seed < ceiling
        invariant
            is_candidate(lane, count, seed as nat),
            lane == lane_index as nat,
            count == lane_count as nat,
            th == threshold as nat,
            stride == count,
            count > 0,
            forall|t: u64|
                is_candidate(lane, count, t as nat) && t < seed ==> !#[trigger] qualifies(t, th),
        decreases ceiling - seed,
    {
        if probe(seed, threshold) {
            return Some(seed);
        }
        if ceiling - seed <= stride {
            assert forall|t: u64|
                is_candidate(lane, count, t as nat) && t < ceiling implies !#[trigger] qualifies(t, th) by {
                if t > seed {
                    lemma_candidates_stride(lane, count, seed as nat, t as nat);
                }
            }
            return None;
        }
        let next = seed + stride;
        assert(is_candidate(lane, count, next as nat)) by {
            let x = (seed - (lane + 1)) as nat;
            vstd::arithmetic::div_mod::lemma_add_mod_noop(x as int, count as int, count as int);
            vstd::arithmetic::div_mod::lemma_mod_self_0(count as int);
            vstd::arithmetic::div_mod::lemma_small_mod(0, count);
            assert((next - (lane + 1)) as nat == x + count);
        }
        assert forall|t: u64|
            is_candidate(lane, count, t as nat) && t < next implies !#[trigger] qualifies(t, th) by {
            if t > seed {
                lemma_candidates_stride(lane, count, seed as nat, t as nat);
            }
        }
        seed = next;
    }
    None
}

/// A lane's identity for one launch: its global index and the total number of
/// lanes launched.
#[derive(Clone, Copy, Debug, PartialEq, Eq)]
pub struct Lane {
    pub index: u32,
    pub count: u32,
}

impl Lane {
    /// The lane of thread `thread_idx` in block `block_idx`, in a grid of
    /// `grid_dim` blocks of `block_dim` threads each; `None` when the global
    /// index or the lane count does not fit in 32 bits.
    pub fn from_grid(thread_idx: u32, block_idx: u32, block_dim: u32, grid_dim: u32) -> (r: Option<Lane>)
        ensures
            r matches Some(l) ==> l.index == thread_idx + block_idx * block_dim && l.count
                == block_dim * grid_dim,
            r is None <==> (thread_idx + block_idx * block_dim > u32::MAX || block_dim * grid_dim
                > u32::MAX),
    {
        let b = block_idx as u64;
        let d = block_dim as u64;
        let g = grid_dim as u64;
        assert(b * d <= 0xffff_fffe_0000_0001u64) by (nonlinear_arith)
            requires
                b <= 0xffff_ffffu64,
                d <= 0xffff_ffffu64,
        ;
        assert(d * g <= 0xffff_fffe_0000_0001u64) by (nonlinear_arith)
            requires
                g <= 0xffff_ffffu64,
                d <= 0xffff_ffffu64,
        ;
        let index = thread_idx as u64 + b * d;
        let count = d * g;
        if index > u32::MAX as u64 || count > u32::MAX as u64 {
            None
        } else {
            Some(Lane { index: index as u32, count: count as u32 })
        }
    }
}

/// What lane `lane` of `count` lanes leaves in its slot after searching below
/// `ceiling` for `threshold`: its first qualifying seed, or 0.
pub fn lane_slot(lane: Lane, ceiling: u64, threshold: u32) -> (r: u64)
    requires
        lane.count > 0,
    ensures
        slot_outcome(lane.index as nat, lane.count as nat, ceiling as nat, threshold as nat, r),
{
    match first_match(lane.index, lane.count, ceiling, threshold) {
        Some(s) => s,
        None => 0,
    }
}

/// A lane's slot after a full run is the sentinel 0 or a seed of that lane,
/// below the ceiling, that qualifies.
pub proof fn lemma_slot_exclusive(lane: nat, count: nat, ceiling: nat, threshold: nat, v: u64)
    requires
        slot_outcome(lane, count, ceiling, threshold, v),
    ensures
        v == 0 || (qualifies(v, threshold) && is_candidate(lane, count, v as nat) && v < ceiling),
{
}

/// The search kernel for one lane: a lane at or past `size` does nothing;
/// any other lane searches its candidates below the ceiling and writes its
/// first qualifying seed into its own slot, leaving it untouched otherwise.
pub fn run_length(output: &mut Vec<u64>, size: i32, lane: Lane)
    requires
        lane.count > 0,
        size <= old(output).len(),
    ensures
        final(output)@.len() == old(output)@.len(),
        lane.index >= size ==> final(output)@ == old(output)@,
        lane.index < size ==> {
            ||| finds_nothing(
                lane.index as nat,
                lane.count as nat,
                SEARCH_CEILING as nat,
                THRESHOLD as nat,
            ) && final(output)@ == old(output)@
            ||| is_first_match(
                lane.index as nat,
                lane.count as nat,
                SEARCH_CEILING as nat,
                THRESHOLD as nat,
                final(output)@[lane.index as int],
            ) && final(output)@ == old(output)@.update(
                lane.index as int,
                final(output)@[lane.index as int],
            )
        },
{
    if lane.index as i64 >= size as i64 {
        return;
    }
    match first_match(lane.index, lane.count, SEARCH_CEILING, THRESHOLD) {
        Some(s) => {
            output.set(lane.index as usize, s);
        },
        None => {},
    }
}

/// The diagnostic kernel: a lane below `size` writes its own global index
/// into its own slot; any other lane does nothing.
pub fn thread_id(output: &mut Vec<i32>, size: i32, lane: Lane)
    requires
        size <= old(output).len(),
    ensures
        lane.index >= size ==> final(output)@ == old(output)@,
        lane.index < size ==> final(output)@ == old(output)@.update(
            lane.index as int,
            lane.index as i32,
        ),
{
    if lane.index as i64 >= size as i64 {
        return;
    }
    output.set(lane.index as usize, lane.index as i32);
}

/// Runs every lane of `lane_count` in turn over the seeds below `ceiling`
/// and collects the slots, one per lane, in lane order.
pub fn search_all(lane_count: u32, ceiling: u64, threshold: u32) -> (r: Vec<u64>)
    requires
        lane_count > 0,
    ensures
        r@.len() == lane_count,
        forall|i: int|
            0 <= i < lane_count ==> slot_outcome(
                i as nat,
                lane_count as nat,
                ceiling as nat,
                threshold as nat,
                #[trigger] r@[i],
            ),
{
    let mut slots: Vec<u64> = Vec::new();
    let mut i: u32 = 0;
    while i < lane_count
        invariant
            i <= lane_count,
            slots@.len() == i,
            forall|j: int|
                0 <= j < i ==> slot_outcome(
                    j as nat,
                    lane_count as nat,
                    ceiling as nat,
                    threshold as nat,
                    #[trigger] slots@[j],
                ),
        decreases lane_count - i,
    {
        let v = lane_slot(Lane { index: i, count: lane_count }, ceiling, threshold);
        slots.push(v);
        i = i + 1;
    }
    slots
}

} // verus!
