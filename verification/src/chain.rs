//! Bond-dimension bookkeeping for the tensor chain.
//!
//! A site tensor has a left bond, a physical axis of size 2 and a right bond;
//! neighbouring sites share a bond, and the outermost bonds have dimension 1.
//! This module tracks the storage layout of one site and the chain of bond
//! dimensions, together with the truncation policy that caps them, without
//! touching the complex entries themselves.

use vstd::prelude::*;

verus! {

/// The bond dimension kept after a two-site singular value decomposition.
///
/// `above_cutoff` is how many singular values exceeded the cutoff; the kept
/// count is capped at `max_bond`, and at least one value is always kept so
/// that the chain never loses a bond.
pub fn bond_after_truncation(above_cutoff: usize, max_bond: usize) -> (kept: usize)
    requires
        max_bond >= 1,
    ensures
        kept == (if above_cutoff == 0 {
            1usize
        } else if above_cutoff <= max_bond {
            above_cutoff
        } else {
            max_bond
        }),
        1 <= kept <= max_bond,
{
    if above_cutoff == 0 {
        1
    } else if above_cutoff <= max_bond {
        above_cutoff
    } else {
        max_bond
    }
}

/// The row-major slot of entry `(l, p, r)` in a site tensor with physical
/// dimension `dp` and right bond `dr`: `r` varies fastest, then `p`, then `l`.
pub fn tensor_slot(dp: usize, dr: usize, l: usize, p: usize, r: usize) -> (i: usize)
    requires
        p < dp,
        r < dr,
        (l * dp + p) * dr + r <= usize::MAX,
    ensures
        i == (l * dp + p) * dr + r,
{
    proof {
        assert((l * dp + p) * dr >= l * dp + p) by (nonlinear_arith)
            requires
                dr >= 1,
                l >= 0,
                dp >= 0,
                p >= 0,
        ;
    }
    (l * dp + p) * dr + r
}

/// Distinct in-bounds index triples occupy distinct slots: the row-major
/// layout has no implicit sharing.
pub proof fn lemma_tensor_slot_injective(
    dp: int,
    dr: int,
    l1: int,
    p1: int,
    r1: int,
    l2: int,
    p2: int,
    r2: int,
)
    requires
        0 <= p1 < dp,
        0 <= p2 < dp,
        0 <= r1 < dr,
        0 <= r2 < dr,
        0 <= l1,
        0 <= l2,
        (l1 * dp + p1) * dr + r1 == (l2 * dp + p2) * dr + r2,
    ensures
        l1 == l2,
        p1 == p2,
        r1 == r2,
{
    assert(l1 * dp + p1 == l2 * dp + p2 && r1 == r2) by (nonlinear_arith)
        requires
            0 <= r1 < dr,
            0 <= r2 < dr,
            (l1 * dp + p1) * dr + r1 == (l2 * dp + p2) * dr + r2,
    ;
    assert(l1 == l2 && p1 == p2) by (nonlinear_arith)
        requires
            0 <= p1 < dp,
            0 <= p2 < dp,
            l1 * dp + p1 == l2 * dp + p2,
    ;
}

/// Every in-bounds triple lands inside the `dl * dp * dr` entries of the
/// tensor's storage.
pub proof fn lemma_tensor_slot_in_range(dl: int, dp: int, dr: int, l: int, p: int, r: int)
    requires
        0 <= l < dl,
        0 <= p < dp,
        0 <= r < dr,
    ensures
        0 <= (l * dp + p) * dr + r < dl * dp * dr,
{
    assert((l * dp + p) * dr + r < dl * dp * dr) by (nonlinear_arith)
        requires
            0 <= l < dl,
            0 <= p < dp,
            0 <= r < dr,
    ;
}

/// The largest entry of `s`, or 0 for the empty sequence.
pub open spec fn seq_max(s: Seq<usize>) -> nat
    decreases s.len(),
{
    if s.len() == 0 {
        0
    } else if s.last() as nat > seq_max(s.drop_last()) {
        s.last() as nat
    } else {
        seq_max(s.drop_last())
    }
}

proof fn lemma_seq_max_le(s: Seq<usize>, bound: nat)
    requires
        forall|i: int| 0 <= i < s.len() ==> s[i] as nat <= bound,
    ensures
        seq_max(s) <= bound,
    decreases s.len(),
{
    if s.len() > 0 {
        lemma_seq_max_le(s.drop_last(), bound);
    }
}

/// The bond dimensions of a chain of `n` site tensors: `n + 1` entries, the
/// entry at `k` being the left bond of site `k` and the entry at `k + 1` its
/// right bond. Storing one list makes the adjacency invariant — each site's
/// right bond equals its neighbour's left bond — hold by construction.
pub struct BondProfile {
    bonds: Vec<usize>,
}

impl BondProfile {
    pub closed spec fn bonds_view(&self) -> Seq<usize> {
        self.bonds@
    }

    pub open spec fn site_count(&self) -> nat {
        (self.bonds_view().len() - 1) as nat
    }

    /// Well-formed: at least one site, boundary bonds of dimension 1, and no
    /// degenerate (empty) bond anywhere.
    pub open spec fn wf(&self) -> bool {
        &&& self.bonds_view().len() >= 2
        &&& self.bonds_view()[0] == 1
        &&& self.bonds_view().last() == 1
        &&& forall|i: int| 0 <= i < self.bonds_view().len() ==> self.bonds_view()[i] >= 1
    }

    /// The bond profile of the product state |0…0⟩: every bond has
    /// dimension 1.
    pub fn product_state(n: usize) -> (s: BondProfile)
        requires
            1 <= n < usize::MAX,
        ensures
            s.wf(),
            s.site_count() == n,
            forall|i: int| 0 <= i < s.bonds_view().len() ==> s.bonds_view()[i] == 1,
    {
        let mut bonds: Vec<usize> = Vec::new();
        let mut i: usize = 0;
        while i < n + 1
            invariant
                i <= n + 1,
                n < usize::MAX,
                bonds@.len() == i,
                forall|j: int| 0 <= j < i ==> bonds@[j] == 1,
            decreases n + 1 - i,
        {
            bonds.push(1);
            i = i + 1;
        }
        BondProfile { bonds }
    }

    /// The left bond dimension of site `k`.
    pub fn left_dim(&self, k: usize) -> (d: usize)
        requires
            self.wf(),
            k < self.site_count(),
        ensures
            d == self.bonds_view()[k as int],
    {
        self.bonds[k]
    }

    /// The right bond dimension of site `k`.
    pub fn right_dim(&self, k: usize) -> (d: usize)
        requires
            self.wf(),
            k < self.site_count(),
        ensures
            d == self.bonds_view()[k as int + 1],
    {
        let n: usize = self.bonds.len();
        self.bonds[k + 1]
    }

    /// Records the bond kept by a two-site gate on the neighbouring sites
    /// `(k, k + 1)`: only the bond they share changes, and the boundary bonds
    /// are untouched.
    pub fn set_shared_bond(&mut self, k: usize, kept: usize)
        requires
            old(self).wf(),
            k + 1 < old(self).site_count(),
            kept >= 1,
        ensures
            final(self).wf(),
            final(self).site_count() == old(self).site_count(),
            final(self).bonds_view() == old(self).bonds_view().update(k as int + 1, kept),
    {
        let ghost orig = self.bonds@;
        let n: usize = self.bonds.len();
        self.bonds.set(k + 1, kept);
        proof {
            assert(final(self).bonds_view().last() == orig.last());
        }
    }

    /// The largest bond dimension anywhere in the chain.
    pub fn chi_max(&self) -> (m: usize)
        requires
            self.wf(),
        ensures
            m == seq_max(self.bonds_view()),
    {
        let mut m: usize = 0;
        let mut i: usize = 0;
        while i < self.bonds.len()
            invariant
                i <= self.bonds@.len(),
                m == seq_max(self.bonds@.take(i as int)),
            decreases self.bonds@.len() - i,
        {
            proof {
                assert(self.bonds@.take(i as int + 1).drop_last() =~= self.bonds@.take(i as int));
            }
            if self.bonds[i] > m {
                m = self.bonds[i];
            }
            i = i + 1;
        }
        proof {
            assert(self.bonds@.take(self.bonds@.len() as int) =~= self.bonds@);
        }
        m
    }
}

/// The bond dimension never exceeds the truncation cap: in a chain whose
/// every bond obeys the cap — as every bond written by the truncation rule
/// does — the largest bond dimension obeys it too.
pub proof fn lemma_chi_within_cap(s: BondProfile, max_bond: nat)
    requires
        s.wf(),
        max_bond >= 1,
        forall|i: int| 0 <= i < s.bonds_view().len() ==> s.bonds_view()[i] as nat <= max_bond,
    ensures
        seq_max(s.bonds_view()) <= max_bond,
{
    lemma_seq_max_le(s.bonds_view(), max_bond);
}

} // verus!
