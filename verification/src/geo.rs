//! Great-circle ground distance and the elevation-limited visibility radius.
//!
//! Points are geographic coordinates in micro-degrees; distances are meters on
//! a sphere of radius [`crate::EARTH_RADIUS_M`]. The haversine central angle
//! and the inverse trigonometric functions are computed by bounded bisection
//! over the fixed-point `sin`/`cos` of [`crate::trig`], and every executable
//! function returns exactly the value of its spec-level mirror.
use vstd::prelude::*;
use crate::trig::{
    sin_poly,
    abs_int, clamp_unit, cos_nano, cos_fixed, microdeg_to_nanorad, nanorad_of, sin_fixed,
    sin_nano, HALF_PI_NANO, MAX_MICRODEG, PI_NANO, SCALE,
};
use crate::EARTH_RADIUS_M;

verus! {

/// A geographic point: latitude and longitude in signed micro-degrees.
#[derive(Clone, Copy, Debug, PartialEq, Eq, Structural)]
pub struct GeoPoint {
    pub lat_microdeg: i64,
    pub lon_microdeg: i64,
}

impl GeoPoint {
    /// Latitude within +/-90 degrees, longitude within +/-180 degrees.
    pub open spec fn valid(self) -> bool {
        -90_000_000 <= self.lat_microdeg <= 90_000_000 && -180_000_000 <= self.lon_microdeg
            <= 180_000_000
    }

    pub fn new(lat_microdeg: i64, lon_microdeg: i64) -> (r: GeoPoint)
        ensures
            r.lat_microdeg == lat_microdeg,
            r.lon_microdeg == lon_microdeg,
    {
        GeoPoint { lat_microdeg, lon_microdeg }
    }
}

/// The haversine term `sin^2(dlat/2) + cos(lat1) cos(lat2) sin^2(dlon/2)`,
/// scaled by [`SCALE`].
pub open spec fn haversine_term(p: GeoPoint, q: GeoPoint) -> int {
    let l1 = nanorad_of(p.lat_microdeg as int);
    let l2 = nanorad_of(q.lat_microdeg as int);
    let g1 = nanorad_of(p.lon_microdeg as int);
    let g2 = nanorad_of(q.lon_microdeg as int);
    let s1 = sin_nano(abs_int(l1 - l2) / 2);
    let s2 = sin_nano(abs_int(g1 - g2) / 2);
    let c1 = sin_nano((HALF_PI_NANO as int) - abs_int(l1));
    let c2 = sin_nano((HALF_PI_NANO as int) - abs_int(l2));
    (s1 * s1) / (SCALE as int) + (((c1 * c2) / (SCALE as int)) * ((s2 * s2) / (SCALE as int)))
        / (SCALE as int)
}

/// The bisection bracket for `asin(sqrt(a))` after `n` halvings of
/// `[0, pi/2]`: the largest known angle whose squared sine still lies at or
/// under `a`, and the smallest known angle whose squared sine exceeds it.
pub open spec fn asin_bracket(a: int, n: nat) -> (int, int)
    decreases n,
{
    if n == 0 {
        (0int, HALF_PI_NANO as int)
    } else {
        let prev = asin_bracket(a, (n - 1) as nat);
        let mid = (prev.0 + prev.1) / 2;
        if (sin_nano(mid) * sin_nano(mid)) / (SCALE as int) <= a {
            (mid, prev.1)
        } else {
            (prev.0, mid)
        }
    }
}

/// Ground distance in meters between two valid points: the haversine formula
/// with the central angle recovered by 40 bisection steps.
pub open spec fn ground_distance_spec(p: GeoPoint, q: GeoPoint) -> int {
    let a = clamp_unit(haversine_term(p, q));
    if a == 0 {
        0
    } else {
        ((EARTH_RADIUS_M as int) * (2 * asin_bracket(a, 40).0)) / (SCALE as int)
    }
}

proof fn lemma_haversine_term_self(p: GeoPoint)
    ensures
        haversine_term(p, p) == 0,
{
    let l1 = nanorad_of(p.lat_microdeg as int);
    let c1 = sin_nano((HALF_PI_NANO as int) - abs_int(l1));
    vstd::arithmetic::div_mod::lemma_div_of0(SCALE as int);
    assert(sin_poly(0) == 0);
    assert(sin_nano(0) == 0);
    assert(((c1 * c1) / (SCALE as int)) * 0 == 0);
    assert(haversine_term(p, p) == 0);
}

/// The ground distance of a point to itself is zero.
pub proof fn lemma_ground_distance_self(p: GeoPoint)
    ensures
        ground_distance_spec(p, p) == 0,
{
    lemma_haversine_term_self(p);
}

/// Ground distance is symmetric in its two points.
pub proof fn lemma_ground_distance_symmetric(p: GeoPoint, q: GeoPoint)
    ensures
        ground_distance_spec(p, q) == ground_distance_spec(q, p),
{
    assert(haversine_term(p, q) == haversine_term(q, p));
}

/// Computes [`ground_distance_spec`]: the great-circle distance in meters.
pub fn ground_distance_m(p: GeoPoint, q: GeoPoint) -> (d: u64)
    requires
        p.valid(),
        q.valid(),
    ensures
        d as int == ground_distance_spec(p, q),
        p == q ==> d == 0,
        d <= 20_015_087,
{
    let l1: i64 = microdeg_to_nanorad(p.lat_microdeg);
    let l2: i64 = microdeg_to_nanorad(q.lat_microdeg);
    let g1: i64 = microdeg_to_nanorad(p.lon_microdeg);
    let g2: i64 = microdeg_to_nanorad(q.lon_microdeg);
    proof {
        lemma_nanorad_lat_bound(p.lat_microdeg as int);
        lemma_nanorad_lat_bound(q.lat_microdeg as int);
        lemma_nanorad_lon_bound(p.lon_microdeg as int);
        lemma_nanorad_lon_bound(q.lon_microdeg as int);
    }
    let dlat: i64 = if l1 >= l2 {
        l1 - l2
    } else {
        l2 - l1
    };
    let dlon: i64 = if g1 >= g2 {
        g1 - g2
    } else {
        g2 - g1
    };
    let s1: i64 = sin_fixed(dlat / 2);
    let s2: i64 = sin_fixed(dlon / 2);
    let a1: i64 = if l1 >= 0 {
        l1
    } else {
        -l1
    };
    let a2: i64 = if l2 >= 0 {
        l2
    } else {
        -l2
    };
    let c1: i64 = sin_fixed(HALF_PI_NANO - a1);
    let c2: i64 = sin_fixed(HALF_PI_NANO - a2);
    proof {
        crate::trig::lemma_mul_bound(s1 as int, s1 as int, SCALE as int, SCALE as int);
        crate::trig::lemma_mul_bound(s2 as int, s2 as int, SCALE as int, SCALE as int);
        crate::trig::lemma_mul_bound(c1 as int, c2 as int, SCALE as int, SCALE as int);
    }
    let term1: i128 = (s1 as i128) * (s1 as i128) / (SCALE as i128);
    let cc: i128 = (c1 as i128) * (c2 as i128) / (SCALE as i128);
    let ss: i128 = (s2 as i128) * (s2 as i128) / (SCALE as i128);
    proof {
        crate::trig::lemma_mul_bound(cc as int, ss as int, SCALE as int, SCALE as int);
    }
    let a_raw: i128 = term1 + cc * ss / (SCALE as i128);
    assert(a_raw == haversine_term(p, q));
    let a_clamped: i128 = if a_raw < 0 {
        0
    } else if a_raw > SCALE as i128 {
        SCALE as i128
    } else {
        a_raw
    };
    let a: i64 = a_clamped as i64;
    assert(a as int == clamp_unit(haversine_term(p, q)));
    if a == 0 {
        return 0;
    }
    let mut lo: i64 = 0;
    let mut hi: i64 = HALF_PI_NANO;
    let mut i: usize = 0;
    while i < 40
        invariant
            0 <= lo <= hi <= HALF_PI_NANO,
            i <= 40,
            lo as int == asin_bracket(a as int, i as nat).0,
            hi as int == asin_bracket(a as int, i as nat).1,
            0 < a <= SCALE,
        decreases 40 - i,
    {
        let mid: i64 = (lo + hi) / 2;
        let s: i64 = sin_fixed(mid);
        proof {
            crate::trig::lemma_mul_bound(s as int, s as int, SCALE as int, SCALE as int);
        }
        let sq: i128 = (s as i128) * (s as i128) / (SCALE as i128);
        if sq <= a as i128 {
            lo = mid;
        } else {
            hi = mid;
        }
        i = i + 1;
        assert(lo as int == asin_bracket(a as int, i as nat).0);
    }
    proof {
        crate::trig::lemma_mul_bound(
            EARTH_RADIUS_M as int,
            2 * lo as int,
            EARTH_RADIUS_M as int,
            PI_NANO as int,
        );
        vstd::arithmetic::div_mod::lemma_div_is_ordered(
            (EARTH_RADIUS_M as int) * (2 * lo as int),
            (EARTH_RADIUS_M as int) * (PI_NANO as int),
            SCALE as int,
        );
        vstd::arithmetic::div_mod::lemma_div_pos_is_pos(
            (EARTH_RADIUS_M as int) * (2 * lo as int),
            SCALE as int,
        );
    }
    proof {
        if p == q {
            lemma_haversine_term_self(p);
        }
    }
    let d: i128 = (EARTH_RADIUS_M as i128) * (2 * (lo as i128)) / (SCALE as i128);
    d as u64
}

/// `R / (R + alt)`, scaled by [`SCALE`]: the cosine of the horizon central
/// angle for a satellite `alt` meters above the sphere.
pub open spec fn horizon_ratio(alt_m: int) -> int {
    ((EARTH_RADIUS_M as int) * (SCALE as int)) / ((EARTH_RADIUS_M as int) + alt_m)
}

/// The bisection bracket for `arccos(k)` after `n` halvings of `[0, pi/2]`.
pub open spec fn acos_bracket(k: int, n: nat) -> (int, int)
    decreases n,
{
    if n == 0 {
        (0int, HALF_PI_NANO as int)
    } else {
        let prev = acos_bracket(k, (n - 1) as nat);
        let mid = (prev.0 + prev.1) / 2;
        if cos_nano(mid) >= k {
            (mid, prev.1)
        } else {
            (prev.0, mid)
        }
    }
}

/// The horizon central angle `arccos(R / (R + alt))` in nano-radians,
/// recovered by 40 bisection steps.
pub open spec fn horizon_angle_spec(alt_m: int) -> int {
    acos_bracket(horizon_ratio(alt_m), 40).0
}

/// The ground distance to the horizon, in meters, for a satellite `alt_m`
/// meters up: `R * arccos(R / (R + alt))`.
pub open spec fn horizon_distance_spec(alt_m: int) -> int {
    ((EARTH_RADIUS_M as int) * horizon_angle_spec(alt_m)) / (SCALE as int)
}

/// The bisection bracket, after `n` halvings of `[0, hi0]`, around the largest
/// central angle `psi` whose elevation still reaches the threshold: the kept
/// condition is `cos(psi) - k >= tan(e) * sin(psi)`, the sign of
/// `atan2(cos(psi) - k, sin(psi)) - e` for `psi` in the quarter turn.
pub open spec fn elevation_bracket(k: int, t: int, hi0: int, n: nat) -> (int, int)
    decreases n,
{
    if n == 0 {
        (0int, hi0)
    } else {
        let prev = elevation_bracket(k, t, hi0, (n - 1) as nat);
        let mid = (prev.0 + prev.1) / 2;
        if cos_nano(mid) - k >= (t * sin_nano(mid)) / (SCALE as int) {
            (mid, prev.1)
        } else {
            (prev.0, mid)
        }
    }
}

/// The maximum ground distance, in meters, at which a satellite `alt_m` meters
/// up is still seen at or above `min_elev_microdeg` of elevation. At or below
/// zero elevation this is exactly the horizon distance; above it, the central
/// angle is found by 60 bisection steps below the horizon angle.
pub open spec fn max_distance_spec(alt_m: int, min_elev_microdeg: int) -> int {
    let k = horizon_ratio(alt_m);
    let psi_h = horizon_angle_spec(alt_m);
    if min_elev_microdeg <= 0 {
        ((EARTH_RADIUS_M as int) * psi_h) / (SCALE as int)
    } else {
        let e = nanorad_of(min_elev_microdeg);
        let se = sin_nano(e);
        let ce = sin_nano((HALF_PI_NANO as int) - e);
        if ce <= 0 {
            0
        } else {
            let t = (se * (SCALE as int)) / ce;
            ((EARTH_RADIUS_M as int) * elevation_bracket(k, t, psi_h, 60).0) / (SCALE as int)
        }
    }
}

/// Computes [`max_distance_spec`]: the elevation-limited visibility radius.
pub fn max_distance_for_elevation_m(alt_m: u64, min_elev_microdeg: i64) -> (d: u64)
    requires
        alt_m <= 1_000_000_000_000,
        -MAX_MICRODEG <= min_elev_microdeg <= 90_000_000,
    ensures
        d as int == max_distance_spec(alt_m as int, min_elev_microdeg as int),
        min_elev_microdeg <= 0 ==> d as int == horizon_distance_spec(alt_m as int),
        d as int <= horizon_distance_spec(alt_m as int),
        d <= 10_007_544,
{
    proof {
        vstd::arithmetic::div_mod::lemma_div_pos_is_pos(
            (EARTH_RADIUS_M as int) * (SCALE as int),
            (EARTH_RADIUS_M as int) + alt_m,
        );
        vstd::arithmetic::div_mod::lemma_div_is_ordered_by_denominator(
            (EARTH_RADIUS_M as int) * (SCALE as int),
            EARTH_RADIUS_M as int,
            (EARTH_RADIUS_M as int) + alt_m,
        );
        vstd::arithmetic::div_mod::lemma_div_multiples_vanish(
            SCALE as int,
            EARTH_RADIUS_M as int,
        );
    }
    let k: i64 = ((EARTH_RADIUS_M as i128) * (SCALE as i128) / ((EARTH_RADIUS_M as i128)
        + (alt_m as i128))) as i64;
    assert(k as int == horizon_ratio(alt_m as int));
    assert(0 <= k <= SCALE);
    let mut lo: i64 = 0;
    let mut hi: i64 = HALF_PI_NANO;
    let mut i: usize = 0;
    while i < 40
        invariant
            0 <= lo <= hi <= HALF_PI_NANO,
            i <= 40,
            lo as int == acos_bracket(k as int, i as nat).0,
            hi as int == acos_bracket(k as int, i as nat).1,
        decreases 40 - i,
    {
        let mid: i64 = (lo + hi) / 2;
        let c: i64 = cos_fixed(mid);
        if c >= k {
            lo = mid;
        } else {
            hi = mid;
        }
        i = i + 1;
        assert(lo as int == acos_bracket(k as int, i as nat).0);
    }
    let psi_h: i64 = lo;
    assert(psi_h as int == horizon_angle_spec(alt_m as int));
    proof {
        crate::trig::lemma_mul_bound(
            EARTH_RADIUS_M as int,
            psi_h as int,
            EARTH_RADIUS_M as int,
            HALF_PI_NANO as int,
        );
        vstd::arithmetic::div_mod::lemma_div_is_ordered(
            (EARTH_RADIUS_M as int) * (psi_h as int),
            (EARTH_RADIUS_M as int) * (HALF_PI_NANO as int),
            SCALE as int,
        );
        vstd::arithmetic::div_mod::lemma_div_pos_is_pos(
            (EARTH_RADIUS_M as int) * (psi_h as int),
            SCALE as int,
        );
    }
    if min_elev_microdeg <= 0 {
        let h: i128 = (EARTH_RADIUS_M as i128) * (psi_h as i128) / (SCALE as i128);
        return h as u64;
    }
    let e: i64 = microdeg_to_nanorad(min_elev_microdeg);
    proof {
        lemma_nanorad_lat_bound(min_elev_microdeg as int);
        vstd::arithmetic::div_mod::lemma_div_pos_is_pos(
            (min_elev_microdeg as int) * (crate::trig::NANORAD_PER_MICRODEG_SCALED as int),
            SCALE as int,
        );
        crate::trig::lemma_mul_bound(
            min_elev_microdeg as int,
            crate::trig::NANORAD_PER_MICRODEG_SCALED as int,
            90_000_000,
            crate::trig::NANORAD_PER_MICRODEG_SCALED as int,
        );
    }
    assert(0 <= e <= 1_570_796_326);
    let se: i64 = sin_fixed(e);
    let ce: i64 = sin_fixed(HALF_PI_NANO - e);
    if ce == 0 {
        return 0;
    }
    proof {
        crate::trig::lemma_mul_bound(se as int, SCALE as int, SCALE as int, SCALE as int);
        vstd::arithmetic::div_mod::lemma_div_pos_is_pos(
            (se as int) * (SCALE as int),
            ce as int,
        );
        vstd::arithmetic::div_mod::lemma_div_is_ordered_by_denominator(
            (se as int) * (SCALE as int),
            1,
            ce as int,
        );
        vstd::arithmetic::div_mod::lemma_div_basics((se as int) * (SCALE as int));
    }
    let t: i128 = (se as i128) * (SCALE as i128) / (ce as i128);
    assert(0 <= t <= 1_000_000_000_000_000_000i128);
    let mut lo2: i64 = 0;
    let mut hi2: i64 = psi_h;
    let mut j: usize = 0;
    while j < 60
        invariant
            0 <= lo2 <= hi2 <= psi_h <= HALF_PI_NANO,
            j <= 60,
            lo2 as int == elevation_bracket(k as int, t as int, psi_h as int, j as nat).0,
            hi2 as int == elevation_bracket(k as int, t as int, psi_h as int, j as nat).1,
            0 <= t <= 1_000_000_000_000_000_000i128,
        decreases 60 - j,
    {
        let mid: i64 = (lo2 + hi2) / 2;
        let c: i64 = cos_fixed(mid);
        let s: i64 = sin_fixed(mid);
        proof {
            crate::trig::lemma_mul_bound(
                t as int,
                s as int,
                1_000_000_000_000_000_000,
                SCALE as int,
            );
            vstd::arithmetic::div_mod::lemma_div_pos_is_pos(
                (t as int) * (s as int),
                SCALE as int,
            );
        }
        let rhs: i128 = t * (s as i128) / (SCALE as i128);
        if (c as i128) - (k as i128) >= rhs {
            lo2 = mid;
        } else {
            hi2 = mid;
        }
        j = j + 1;
        assert(lo2 as int == elevation_bracket(k as int, t as int, psi_h as int, j as nat).0);
    }
    proof {
        crate::trig::lemma_mul_bound(
            EARTH_RADIUS_M as int,
            lo2 as int,
            EARTH_RADIUS_M as int,
            HALF_PI_NANO as int,
        );
        vstd::arithmetic::mul::lemma_mul_inequality(lo2 as int, psi_h as int, EARTH_RADIUS_M as int);
        vstd::arithmetic::div_mod::lemma_div_is_ordered(
            (EARTH_RADIUS_M as int) * (lo2 as int),
            (EARTH_RADIUS_M as int) * (psi_h as int),
            SCALE as int,
        );
        vstd::arithmetic::div_mod::lemma_div_is_ordered(
            (EARTH_RADIUS_M as int) * (lo2 as int),
            (EARTH_RADIUS_M as int) * (HALF_PI_NANO as int),
            SCALE as int,
        );
        vstd::arithmetic::div_mod::lemma_div_pos_is_pos(
            (EARTH_RADIUS_M as int) * (lo2 as int),
            SCALE as int,
        );
    }
    let d: i128 = (EARTH_RADIUS_M as i128) * (lo2 as i128) / (SCALE as i128);
    d as u64
}

/// A latitude of at most 90 degrees converts to at most this many nano-radians,
/// strictly under a quarter turn.
proof fn lemma_nanorad_lat_bound(md: int)
    requires
        -90_000_000 <= md <= 90_000_000,
    ensures
        abs_int(nanorad_of(md)) <= 1_570_796_326,
{
    lemma_nanorad_magnitude(md, 90_000_000, 1_570_796_326);
}

/// A longitude of at most 180 degrees converts to at most half a turn.
proof fn lemma_nanorad_lon_bound(md: int)
    requires
        -180_000_000 <= md <= 180_000_000,
    ensures
        abs_int(nanorad_of(md)) <= 3_141_592_653,
{
    lemma_nanorad_magnitude(md, 180_000_000, 3_141_592_653);
}

proof fn lemma_nanorad_magnitude(md: int, bound: int, rad_bound: int)
    requires
        abs_int(md) <= bound,
        0 <= bound,
        (bound * (crate::trig::NANORAD_PER_MICRODEG_SCALED as int)) / (SCALE as int) <= rad_bound,
    ensures
        abs_int(nanorad_of(md)) <= rad_bound,
{
    let f = crate::trig::NANORAD_PER_MICRODEG_SCALED as int;
    let m = abs_int(md);
    vstd::arithmetic::mul::lemma_mul_inequality(m, bound, f);
    vstd::arithmetic::div_mod::lemma_div_is_ordered(m * f, bound * f, SCALE as int);
    vstd::arithmetic::div_mod::lemma_div_pos_is_pos(m * f, SCALE as int);
}

} // verus!
