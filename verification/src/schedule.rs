//! The brickwork gate schedule.
//!
//! One depth step of the random 1D circuit applies a two-site gate on every
//! even bond and then on every odd bond. This module computes those gate
//! positions; the numeric layer applies a gate at each returned position in
//! order, drawing its angles from the generator as it goes.

use vstd::prelude::*;

verus! {

/// How many nearest-neighbour pairs `(k, k + 1)` with `k` of the parity of
/// `start` fit in a chain of `n` sites.
pub open spec fn pair_count(n: int, start: int) -> int {
    if n >= start {
        (n - start) / 2
    } else {
        0
    }
}

/// The left sites of one brickwork sub-layer: `start`, `start + 2`, …, as
/// long as the partner site `k + 1` is still inside the chain.
pub fn brickwork_pairs(n: usize, start: usize) -> (ks: Vec<usize>)
    requires
        start <= 1,
    ensures
        ks@.len() == pair_count(n as int, start as int),
        forall|j: int| 0 <= j < ks@.len() ==> ks@[j] == start + 2 * j,
        forall|j: int| 0 <= j < ks@.len() ==> #[trigger] ks@[j] + 1 < n,
{
    let mut ks: Vec<usize> = Vec::new();
    let mut i: usize = start;
    while i < n && i + 1 < n
        invariant
            start <= 1,
            start <= i,
            i <= n || i == start,
            i == start + 2 * ks@.len(),
            forall|j: int| 0 <= j < ks@.len() ==> ks@[j] == start + 2 * j,
            forall|j: int| 0 <= j < ks@.len() ==> #[trigger] ks@[j] + 1 < n,
        decreases n - i,
    {
        ks.push(i);
        i = i + 2;
    }
    proof {
        if n as int >= start as int {
            assert(n - start - 1 <= 2 * ks@.len() <= n - start);
        } else {
            assert(ks@.len() == 0);
        }
        assert(ks@.len() == pair_count(n as int, start as int));
    }
    ks
}

/// One whole brickwork layer: every even bond, then every odd bond.
pub fn brickwork_layer(n: usize) -> (ks: Vec<usize>)
    ensures
        ks@.len() == pair_count(n as int, 0) + pair_count(n as int, 1),
        forall|j: int|
            0 <= j < pair_count(n as int, 0) ==> ks@[j] == 2 * j,
        forall|j: int|
            pair_count(n as int, 0) <= j < ks@.len() ==> ks@[j] == 1 + 2 * (j - pair_count(
                n as int,
                0,
            )),
        forall|j: int| 0 <= j < ks@.len() ==> #[trigger] ks@[j] + 1 < n,
{
    let mut ks = brickwork_pairs(n, 0);
    let mut odd = brickwork_pairs(n, 1);
    let ghost even_part = ks@;
    let ghost odd_part = odd@;
    ks.append(&mut odd);
    proof {
        assert(ks@ == even_part + odd_part);
        assert(forall|j: int|
            pair_count(n as int, 0) <= j < ks@.len() ==> ks@[j] == odd_part[j - pair_count(
                n as int,
                0,
            )]);
    }
    ks
}

} // verus!
