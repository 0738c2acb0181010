//! Geometry and the great-circle distance model.
//!
//! Coordinates are carried in milli-degrees. The sine is the Bhaskara
//! rational approximation evaluated in integer arithmetic at `MICRO`
//! scale, the arcsine is a bisection against that sine, and the distance
//! is the haversine formula over those pieces, in whole kilometers.

use vstd::prelude::*;
use crate::units::{SCALE12, isqrt, is_isqrt, mul12};

verus! {

/// Geographic coordinates in milli-degrees.
#[derive(Clone, Copy, Debug, PartialEq, Eq, Structural)]
pub struct Location {
    pub lat_mdeg: i64,
    pub lon_mdeg: i64,
}

impl Location {
    pub open spec fn wf(self) -> bool {
        -90000 <= self.lat_mdeg <= 90000 && -180000 <= self.lon_mdeg <= 180000
    }

    pub fn new(lat_mdeg: i64, lon_mdeg: i64) -> (r: Location)
        requires
            -90000 <= lat_mdeg <= 90000,
            -180000 <= lon_mdeg <= 180000,
        ensures
            r.wf(),
            r.lat_mdeg == lat_mdeg,
            r.lon_mdeg == lon_mdeg,
    {
        Location { lat_mdeg, lon_mdeg }
    }

    /// Great-circle distance in kilometers (Earth radius 6371 km).
    pub fn distance_km(&self, other: &Location) -> (r: u64)
        requires
            self.wf(),
            other.wf(),
        ensures
            r == spec_distance_km(*self, *other),
            r <= 20016,
    {
        distance_km_impl(self, other)
    }
}

/// Bhaskara sine at `MICRO` scale: the argument is an angle in
/// milli-degrees within [0, 180000]; the result approximates
/// `sin(x) * 1000000`.
pub open spec fn spec_sin6(x: int) -> int {
    let t = x * (180000 - x);
    (4 * t * 1000000) / (40500000000 - t)
}

pub proof fn lemma_sin6_bounds(x: int)
    requires
        0 <= x <= 180000,
    ensures
        0 <= spec_sin6(x) <= 1000000,
{
    assert(0 <= x * (180000 - x) <= 8100000000) by (nonlinear_arith)
        requires 0 <= x <= 180000;
    let t = x * (180000 - x);
    assert((4 * t * 1000000) / (40500000000 - t) >= 0) by (nonlinear_arith)
        requires 0 <= t <= 8100000000;
    assert((4 * t * 1000000) / (40500000000 - t) <= 1000000) by (nonlinear_arith)
        requires 0 <= t <= 8100000000;
}

pub fn sin6(x: u64) -> (r: u64)
    requires
        x <= 180000,
    ensures
        r == spec_sin6(x as int),
        r <= 1000000,
{
    proof {
        lemma_sin6_bounds(x as int);
        assert(x * (180000 - x) <= 8100000000) by (nonlinear_arith)
            requires x <= 180000;
        assert(4 * (x * (180000 - x)) * 1000000 <= 32400000000000000) by (nonlinear_arith)
            requires x * (180000 - x) <= 8100000000;
    }
    let t: u64 = x * (180000 - x);
    let num: u64 = 4 * t * 1000000;
    let den: u64 = 40500000000 - t;
    num / den
}

/// Cosine via the sine of the complementary angle; the argument is a
/// latitude in milli-degrees within [-90000, 90000].
pub open spec fn spec_cos6(lat: int) -> int {
    spec_sin6(90000 - lat)
}

pub fn cos6(lat: i64) -> (r: u64)
    requires
        -90000 <= lat <= 90000,
    ensures
        r == spec_cos6(lat as int),
        r <= 1000000,
{
    let x: u64 = (90000 - lat) as u64;
    proof {
        lemma_sin6_bounds(x as int);
    }
    sin6(x)
}

/// One bisection refinement of the arcsine: narrow [lo, hi] around the
/// angle whose sine is `v`, keeping `sin6(lo) <= v`.
pub open spec fn spec_asin_bisect(lo: int, hi: int, v: int) -> int
    decreases hi - lo,
{
    if hi - lo <= 1 {
        lo
    } else {
        let mid = lo + (hi - lo) / 2;
        if spec_sin6(mid) <= v {
            spec_asin_bisect(mid, hi, v)
        } else {
            spec_asin_bisect(lo, mid, v)
        }
    }
}

pub proof fn lemma_asin_bisect_range(lo: int, hi: int, v: int)
    requires
        0 <= lo < hi,
    ensures
        lo <= spec_asin_bisect(lo, hi, v) < hi,
    decreases hi - lo,
{
    if hi - lo <= 1 {
    } else {
        let mid = lo + (hi - lo) / 2;
        if spec_sin6(mid) <= v {
            lemma_asin_bisect_range(mid, hi, v);
        } else {
            lemma_asin_bisect_range(lo, mid, v);
        }
    }
}

/// Arcsine in milli-degrees of a `MICRO`-scale sine value.
pub open spec fn spec_asin_mdeg(v: int) -> int {
    spec_asin_bisect(0, 90000, v)
}

pub fn asin_mdeg(v: u64) -> (r: u64)
    requires
        v <= 1000000,
    ensures
        r == spec_asin_mdeg(v as int),
        r < 90000,
{
    let mut lo: u64 = 0;
    let mut hi: u64 = 90000;
    while hi - lo > 1
        invariant
            lo < hi <= 90000,
            spec_asin_mdeg(v as int) == spec_asin_bisect(lo as int, hi as int, v as int),
        decreases hi - lo,
    {
        let mid: u64 = lo + (hi - lo) / 2;
        if sin6(mid) <= v {
            lo = mid;
        } else {
            hi = mid;
        }
    }
    proof {
        lemma_asin_bisect_range(lo as int, hi as int, v as int);
    }
    lo
}

/// Haversine term: the squared sine of a half-angle, at `SCALE12`.
pub open spec fn spec_hav12(half: int) -> int {
    spec_sin6(half) * spec_sin6(half)
}

pub fn hav12(half: u64) -> (r: u64)
    requires
        half <= 180000,
    ensures
        r == spec_hav12(half as int),
        r <= SCALE12,
{
    let s: u64 = sin6(half);
    proof {
        assert(s * s <= 1000000000000) by (nonlinear_arith)
            requires s <= 1000000;
    }
    s * s
}

/// The full fixed-point haversine distance in kilometers.
pub open spec fn spec_distance_km(a: Location, b: Location) -> int {
    let dlat = if a.lat_mdeg >= b.lat_mdeg {
        a.lat_mdeg - b.lat_mdeg
    } else {
        b.lat_mdeg - a.lat_mdeg
    };
    let dlon = if a.lon_mdeg >= b.lon_mdeg {
        a.lon_mdeg - b.lon_mdeg
    } else {
        b.lon_mdeg - a.lon_mdeg
    };
    let h1 = spec_hav12(dlat / 2);
    let cc = spec_cos6(a.lat_mdeg as int) * spec_cos6(b.lat_mdeg as int);
    let h2 = spec_hav12(dlon / 2);
    let t2 = cc * h2 / (SCALE12 as int);
    let hsum = h1 + t2;
    let hcl = if hsum <= SCALE12 as int {
        hsum
    } else {
        SCALE12 as int
    };
    let root = choose|r: u64| #[trigger] is_isqrt(hcl as u64, r);
    let ang = spec_asin_mdeg(root as int);
    12742 * ang * 3141593 / 180000000000
}

fn distance_km_impl(a: &Location, b: &Location) -> (r: u64)
    requires
        a.wf(),
        b.wf(),
    ensures
        r == spec_distance_km(*a, *b),
        r <= 20016,
{
    let dlat: u64 = if a.lat_mdeg >= b.lat_mdeg {
        (a.lat_mdeg - b.lat_mdeg) as u64
    } else {
        (b.lat_mdeg - a.lat_mdeg) as u64
    };
    let dlon: u64 = if a.lon_mdeg >= b.lon_mdeg {
        (a.lon_mdeg - b.lon_mdeg) as u64
    } else {
        (b.lon_mdeg - a.lon_mdeg) as u64
    };
    let h1: u64 = hav12(dlat / 2);
    let c1: u64 = cos6(a.lat_mdeg);
    let c2: u64 = cos6(b.lat_mdeg);
    proof {
        assert(c1 * c2 <= 1000000000000) by (nonlinear_arith)
            requires c1 <= 1000000, c2 <= 1000000;
    }
    let cc: u64 = c1 * c2;
    let h2: u64 = hav12(dlon / 2);
    let t2: u64 = mul12(cc, h2);
    let hsum: u64 = h1 + t2;
    let hcl: u64 = if hsum <= SCALE12 {
        hsum
    } else {
        SCALE12
    };
    let root: u64 = isqrt(hcl);
    proof {
        assert(exists|r: u64| #[trigger] is_isqrt(hcl, r)) by {
            assert(is_isqrt(hcl, root));
        }
        let w = choose|r: u64| #[trigger] is_isqrt(hcl as u64, r);
        crate::units::lemma_isqrt_unique(hcl, root, w);
        if root > 1000000 {
            assert(root * root > 1000000000000) by (nonlinear_arith)
                requires root >= 1000001u64;
        }
    }
    let ang: u64 = asin_mdeg(root);
    let num: u64 = 12742 * ang * 3141593;
    num / 180000000000
}

/// The distance is symmetric in its two endpoints.
pub proof fn lemma_distance_symmetric(a: Location, b: Location)
    ensures
        spec_distance_km(a, b) == spec_distance_km(b, a),
{
    assert(spec_cos6(a.lat_mdeg as int) * spec_cos6(b.lat_mdeg as int)
        == spec_cos6(b.lat_mdeg as int) * spec_cos6(a.lat_mdeg as int)) by (nonlinear_arith);
}

} // verus!
