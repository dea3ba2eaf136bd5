//! The zone partition of a price range.
//!
//! The range between the lowest low and the highest high is halved on a
//! logarithmic scale three times over. The midpoint of two prices on that
//! scale is their geometric mean, the square root of their product; here it is
//! taken in whole price units, rounded to the nearest unit.

use vstd::prelude::*;

verus! {

/// `r` is the integer part of the square root of `n`.
pub open spec fn is_sqrt_floor(n: nat, r: nat) -> bool {
    r * r <= n < (r + 1) * (r + 1)
}

/// The integer part of the square root of `n`.
pub open spec fn sqrt_floor(n: nat) -> nat {
    choose|r: nat| is_sqrt_floor(n, r)
}

/// The square root of `n`, rounded to the nearest integer.
pub open spec fn sqrt_round(n: nat) -> nat {
    let r = sqrt_floor(n);
    if n - r * r > r {
        r + 1
    } else {
        r
    }
}

/// The geometric mean of two prices, rounded to the nearest unit.
pub open spec fn geometric_mean(a: u64, b: u64) -> nat {
    sqrt_round(a as nat * b as nat)
}

/// The boundaries of the zones, in price units, from the bottom up.
#[derive(Clone, Copy, Debug, PartialEq, Eq, Structural)]
pub struct Zones {
    pub zone_min: u64,
    pub zone_1: u64,
    pub zone_2: u64,
    pub zone_3: u64,
    pub zone_4: u64,
    pub zone_5: u64,
    pub zone_6: u64,
    pub zone_7: u64,
    pub zone_max: u64,
}

/// The zones of the range from `low` to `high`: the middle boundary is the
/// geometric mean of the two ends, the second and the sixth are those of an
/// end and the middle, and the odd ones lie between their neighbours in the
/// same way.
pub open spec fn zones_of(low: u64, high: u64) -> Zones {
    let zone_4 = geometric_mean(low, high) as u64;
    let zone_2 = geometric_mean(low, zone_4) as u64;
    let zone_6 = geometric_mean(high, zone_4) as u64;
    let zone_3 = geometric_mean(zone_2, zone_4) as u64;
    let zone_5 = geometric_mean(zone_6, zone_4) as u64;
    let zone_1 = geometric_mean(low, zone_2) as u64;
    let zone_7 = geometric_mean(high, zone_6) as u64;
    Zones {
        zone_min: low,
        zone_1,
        zone_2,
        zone_3,
        zone_4,
        zone_5,
        zone_6,
        zone_7,
        zone_max: high,
    }
}

/// The boundaries do not decrease from the bottom up.
pub open spec fn zones_ordered(z: Zones) -> bool {
    z.zone_min <= z.zone_1 <= z.zone_2 <= z.zone_3 <= z.zone_4 <= z.zone_5 <= z.zone_6 <= z.zone_7
        <= z.zone_max
}

/// A number has one integer square root.
pub proof fn lemma_sqrt_floor_unique(n: nat, r: nat)
    requires
        is_sqrt_floor(n, r),
    ensures
        sqrt_floor(n) == r,
{
    let s = sqrt_floor(n);
    assert(is_sqrt_floor(n, s));
    if s < r {
        assert((s + 1) * (s + 1) <= r * r) by (nonlinear_arith)
            requires
                s + 1 <= r,
        ;
    } else if r < s {
        assert((r + 1) * (r + 1) <= s * s) by (nonlinear_arith)
            requires
                r + 1 <= s,
        ;
    }
}

/// Every number has an integer square root.
pub proof fn lemma_sqrt_floor_exists(n: nat)
    ensures
        is_sqrt_floor(n, sqrt_floor(n)),
    decreases n,
{
    if n == 0 {
        assert(0nat * 0nat <= 0 < (0nat + 1) * (0nat + 1)) by (nonlinear_arith);
        assert(is_sqrt_floor(n, 0));
    } else {
        lemma_sqrt_floor_exists((n - 1) as nat);
        let r = sqrt_floor((n - 1) as nat);
        if n < (r + 1) * (r + 1) {
            assert(is_sqrt_floor(n, r));
        } else {
            assert((r + 1 + 1) * (r + 1 + 1) > (r + 1) * (r + 1)) by (nonlinear_arith);
            assert(is_sqrt_floor(n, r + 1));
        }
    }
}

/// The rounded square root of a product lies between the factors.
pub proof fn lemma_geometric_mean_between(a: u64, b: u64, r: nat)
    requires
        a <= b,
        is_sqrt_floor(a as nat * b as nat, r),
    ensures
        a <= geometric_mean(a, b) <= b,
{
    let n = a as nat * b as nat;
    lemma_sqrt_floor_unique(n, r);
    assert(a * a <= n <= b * b) by (nonlinear_arith)
        requires
            a <= b,
            n == a * b,
    ;
    if r < a {
        assert((r + 1) * (r + 1) <= a * a) by (nonlinear_arith)
            requires
                r + 1 <= a,
        ;
    }
    if r > b {
        assert((b + 1) * (b + 1) <= r * r) by (nonlinear_arith)
            requires
                b + 1 <= r,
        ;
        assert(b * b < (b + 1) * (b + 1)) by (nonlinear_arith);
    }
    if r == b {
        assert(n == r * r);
    }
}

/// Where the range is not upside down, the zones are in order.
pub proof fn lemma_zones_ordered(low: u64, high: u64)
    requires
        low <= high,
    ensures
        zones_ordered(zones_of(low, high)),
{
    let z = zones_of(low, high);
    lemma_mean_between(low, high);
    lemma_mean_between(low, z.zone_4);
    lemma_mean_between(z.zone_4, high);
    lemma_mean_between(z.zone_2, z.zone_4);
    lemma_mean_between(z.zone_4, z.zone_6);
    lemma_mean_between(low, z.zone_2);
    lemma_mean_between(z.zone_6, high);
}

/// The geometric mean of two prices lies between them, whichever way round
/// they are given.
pub proof fn lemma_mean_between(a: u64, b: u64)
    requires
        a <= b,
    ensures
        a <= geometric_mean(a, b) <= b,
        geometric_mean(b, a) == geometric_mean(a, b),
{
    lemma_sqrt_floor_exists(a as nat * b as nat);
    lemma_geometric_mean_between(a, b, sqrt_floor(a as nat * b as nat));
    assert(a as nat * b as nat == b as nat * a as nat) by (nonlinear_arith);
}

/// The integer part of the square root of `n`.
pub fn integer_sqrt(n: u128) -> (r: u64)
    ensures
        is_sqrt_floor(n as nat, r as nat),
        r == sqrt_floor(n as nat),
{
    let mut low: u128 = 0;
    let mut high: u128 = 0x1_0000_0000_0000_0000;
    assert(n < high * high) by (nonlinear_arith)
        requires
            high == 0x1_0000_0000_0000_0000,
            n <= u128::MAX,
    ;
    while high - low > 1
        invariant
            low < high <= 0x1_0000_0000_0000_0000,
            low * low <= n < high * high,
        decreases high - low,
    {
        let mid = low + (high - low) / 2;
        assert(mid * mid <= 0xffff_ffff_ffff_ffff * 0xffff_ffff_ffff_ffff) by (nonlinear_arith)
            requires
                mid <= 0xffff_ffff_ffff_ffff,
        ;
        if mid * mid <= n {
            low = mid;
        } else {
            high = mid;
        }
    }
    proof {
        lemma_sqrt_floor_unique(n as nat, low as nat);
    }
    low as u64
}

/// The geometric mean of two prices, rounded to the nearest unit.
pub fn rounded_geometric_mean(a: u64, b: u64) -> (m: u64)
    ensures
        m == geometric_mean(a, b),
        a <= b ==> a <= m <= b,
        b <= a ==> b <= m <= a,
{
    assert(a * b <= 0xffff_ffff_ffff_ffff * 0xffff_ffff_ffff_ffff) by (nonlinear_arith)
        requires
            a <= 0xffff_ffff_ffff_ffff,
            b <= 0xffff_ffff_ffff_ffff,
    ;
    let n: u128 = a as u128 * b as u128;
    let r = integer_sqrt(n);
    proof {
        assert(a as nat * b as nat == b as nat * a as nat) by (nonlinear_arith);
        if a <= b {
            lemma_geometric_mean_between(a, b, r as nat);
        } else {
            lemma_geometric_mean_between(b, a, r as nat);
        }
    }
    let square: u128 = r as u128 * r as u128;
    if n - square > r as u128 {
        r + 1
    } else {
        r
    }
}

/// The zones of the range from `low` to `high`.
pub fn compute_zones(low: u64, high: u64) -> (z: Zones)
    ensures
        z == zones_of(low, high),
        low <= high ==> zones_ordered(z),
{
    let zone_4 = rounded_geometric_mean(low, high);
    let zone_2 = rounded_geometric_mean(low, zone_4);
    let zone_6 = rounded_geometric_mean(high, zone_4);
    let zone_3 = rounded_geometric_mean(zone_2, zone_4);
    let zone_5 = rounded_geometric_mean(zone_6, zone_4);
    let zone_1 = rounded_geometric_mean(low, zone_2);
    let zone_7 = rounded_geometric_mean(high, zone_6);
    Zones {
        zone_min: low,
        zone_1,
        zone_2,
        zone_3,
        zone_4,
        zone_5,
        zone_6,
        zone_7,
        zone_max: high,
    }
}

} // verus!
