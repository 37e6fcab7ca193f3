//! Powers, geometric sums, and the node count of a perfect n-ary tree.

use vstd::arithmetic::div_mod::lemma_div_multiples_vanish;
use vstd::arithmetic::power2::lemma2_to64;
use vstd::arithmetic::power2::pow2;
use vstd::prelude::*;

verus! {

/// `k` raised to the power `e`, over the natural numbers.
pub open spec fn npow(k: nat, e: nat) -> nat
    decreases e,
{
    if e == 0 {
        1
    } else {
        k * npow(k, (e - 1) as nat)
    }
}

/// `1 + k + k^2 + ... + k^d`: how many nodes a perfect tree with branching
/// factor `k` has on its depths `0` through `d`.
pub open spec fn geom(k: nat, d: nat) -> nat
    decreases d,
{
    if d == 0 {
        1
    } else {
        geom(k, (d - 1) as nat) + npow(k, d)
    }
}

pub proof fn lemma_npow_pos(k: nat, e: nat)
    requires
        k >= 1,
    ensures
        npow(k, e) >= 1,
    decreases e,
{
    if e > 0 {
        lemma_npow_pos(k, (e - 1) as nat);
        let p = npow(k, (e - 1) as nat);
        assert(k * p >= 1 * p) by (nonlinear_arith)
            requires
                k >= 1,
                p >= 0,
        ;
    }
}

/// `npow` does not shrink when the exponent grows.
pub proof fn lemma_npow_mono(k: nat, e1: nat, e2: nat)
    requires
        k >= 1,
        e1 <= e2,
    ensures
        npow(k, e1) <= npow(k, e2),
    decreases e2,
{
    if e1 < e2 {
        lemma_npow_mono(k, e1, (e2 - 1) as nat);
        let p = npow(k, (e2 - 1) as nat);
        assert(k * p >= 1 * p) by (nonlinear_arith)
            requires
                k >= 1,
                p >= 0,
        ;
    }
}

/// `npow` does not shrink when the base grows.
pub proof fn lemma_npow_base_mono(k1: nat, k2: nat, e: nat)
    requires
        k1 <= k2,
    ensures
        npow(k1, e) <= npow(k2, e),
    decreases e,
{
    if e > 0 {
        lemma_npow_base_mono(k1, k2, (e - 1) as nat);
        let p1 = npow(k1, (e - 1) as nat);
        let p2 = npow(k2, (e - 1) as nat);
        assert(k1 * p1 <= k2 * p2) by (nonlinear_arith)
            requires
                0 <= k1 <= k2,
                0 <= p1 <= p2,
        ;
    }
}

/// The closed form of the geometric sum: `(k - 1) * geom(k, d) + 1 == k^(d+1)`.
pub proof fn lemma_geom_closed_form(k: nat, d: nat)
    requires
        k >= 1,
    ensures
        (k - 1) * geom(k, d) + 1 == npow(k, d + 1),
    decreases d,
{
    let ki = k as int;
    if d == 0 {
        assert(npow(k, 1) == k * npow(k, 0));
        assert((ki - 1) * 1 == ki - 1) by (nonlinear_arith);
        assert(k * 1 == k) by (nonlinear_arith);
        assert((k - 1) * geom(k, d) + 1 == npow(k, d + 1));
    } else {
        lemma_geom_closed_form(k, (d - 1) as nat);
        let g = geom(k, (d - 1) as nat) as int;
        let p = npow(k, d) as int;
        assert((ki - 1) * (g + p) == (ki - 1) * g + (ki - 1) * p) by (nonlinear_arith);
        assert(p + (ki - 1) * p == ki * p) by (nonlinear_arith);
        assert(geom(k, d) == g + p);
        assert((ki - 1) * g + 1 == p);
        assert(npow(k, d + 1) == k * npow(k, d));
        assert((ki - 1) * (g + p) + 1 == ki * p);
        assert((k - 1) * geom(k, d) + 1 == npow(k, d + 1));
    }
}

/// Peeling the sum from the other end: `geom(k, d) == 1 + k * geom(k, d - 1)`.
pub proof fn lemma_geom_step(k: nat, d: nat)
    requires
        k >= 1,
        d >= 1,
    ensures
        geom(k, d) == 1 + k * geom(k, (d - 1) as nat),
    decreases d,
{
    if d == 1 {
        assert(npow(k, 1) == k * npow(k, 0));
    } else {
        lemma_geom_step(k, (d - 1) as nat);
        let g = geom(k, (d - 2) as nat);
        let p = npow(k, (d - 1) as nat);
        assert(k * (g + p) == k * g + k * p) by (nonlinear_arith);
        assert(npow(k, d) == k * npow(k, (d - 1) as nat));
        assert(geom(k, (d - 1) as nat) == g + p);
    }
}

/// `geom` does not shrink when the depth grows.
pub proof fn lemma_geom_mono(k: nat, d1: nat, d2: nat)
    requires
        d1 <= d2,
    ensures
        geom(k, d1) <= geom(k, d2),
    decreases d2,
{
    if d1 < d2 {
        lemma_geom_mono(k, d1, (d2 - 1) as nat);
    }
}

/// Below a geometric sum of positive terms: `k^d < geom(k, d)` once the sum
/// has at least two terms.
pub proof fn lemma_npow_le_geom(k: nat, d: nat)
    requires
        k >= 1,
        d >= 1,
    ensures
        npow(k, d) < geom(k, d),
{
    lemma_geom_mono(k, 0, (d - 1) as nat);
    assert(geom(k, d) == geom(k, (d - 1) as nat) + npow(k, d));
}

/// A branching factor of at least 2 keeps every representable tree at most
/// 63 levels deep: `k^(e)` with `e >= 64` exceeds `u64::MAX`.
pub proof fn lemma_npow_exceeds_u64(k: nat, e: nat)
    requires
        k >= 2,
        e >= 64,
    ensures
        npow(k, e) > u64::MAX,
{
    lemma_npow_eq_pow2(64);
    lemma2_to64();
    lemma_npow_mono(2, 64, e);
    lemma_npow_base_mono(2, k, e);
}

proof fn lemma_npow_eq_pow2(e: nat)
    ensures
        npow(2, e) == pow2(e),
    decreases e,
{
    if e == 0 {
        lemma2_to64();
    } else {
        lemma_npow_eq_pow2((e - 1) as nat);
        vstd::arithmetic::power2::lemma_pow2_unfold(e);
    }
}

/// How many nodes a perfect `targets_per_level`-ary tree of depth `height`
/// has in total, via the closed form `(k^(h+1) - 1) / (k - 1)`.
pub fn num_nodes_in_ntree(targets_per_level: u64, height: u32) -> (n: u64)
    requires
        targets_per_level >= 2,
        npow(targets_per_level as nat, height as nat + 1) <= u64::MAX,
    ensures
        n as nat == geom(targets_per_level as nat, height as nat),
{
    let ghost k: nat = targets_per_level as nat;
    proof {
        if height as nat + 1 >= 64 {
            lemma_npow_exceeds_u64(k, height as nat + 1);
        }
    }
    let mut p: u64 = 1;
    let mut i: u32 = 0;
    while i <= height
        invariant
            targets_per_level >= 2,
            k == targets_per_level as nat,
            height < 63,
            i <= height + 1,
            p as nat == npow(k, i as nat),
            npow(k, height as nat + 1) <= u64::MAX,
        decreases height + 1 - i,
    {
        proof {
            lemma_npow_mono(k, i as nat + 1, height as nat + 1);
            assert(npow(k, i as nat + 1) == k * npow(k, i as nat));
        }
        p = p * targets_per_level;
        i = i + 1;
    }
    proof {
        lemma_geom_closed_form(k, height as nat);
        let g = geom(k, height as nat) as int;
        lemma_div_multiples_vanish(g, k - 1);
        assert((p - 1) as int == (k - 1) * g);
    }
    (p - 1) / (targets_per_level - 1)
}

} // verus!
