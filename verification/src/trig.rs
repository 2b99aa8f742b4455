//! Fixed-point spherical trigonometry.
//!
//! Angles are measured in nano-radians (`10^-9` rad) held in `i64`, and the
//! values of `sin`/`cos` are scaled by [`SCALE`]. The executable functions are
//! proved to return exactly the value of their spec-level mirrors, so every
//! caller can reason about the arithmetic down to the last unit.
use vstd::prelude::*;

verus! {

/// Unit scale: one full unit (1.0) of a trigonometric value, and the number of
/// nano-radians per radian.
pub const SCALE: i64 = 1_000_000_000;

/// Half pi in nano-radians, rounded to the nearest unit.
pub const HALF_PI_NANO: i64 = 1_570_796_327;

/// Pi in nano-radians; chosen as exactly twice [`HALF_PI_NANO`] so that the
/// symmetry reduction `sin(pi - x) = sin(x)` is exact in this representation.
pub const PI_NANO: i64 = 3_141_592_654;

/// Nano-radians per micro-degree, scaled by `10^9`: `(pi / 180) * 10^3 * 10^9`.
pub const NANORAD_PER_MICRODEG_SCALED: i64 = 17_453_292_520;

/// Largest magnitude, in micro-degrees, accepted by the angle conversion.
pub const MAX_MICRODEG: i64 = 360_000_000;

pub open spec fn abs_int(v: int) -> int {
    if v >= 0 {
        v
    } else {
        -v
    }
}

/// Micro-degrees to nano-radians, rounding the magnitude toward zero.
pub open spec fn nanorad_of(microdeg: int) -> int {
    if microdeg >= 0 {
        (microdeg * (NANORAD_PER_MICRODEG_SCALED as int)) / (SCALE as int)
    } else {
        -(((-microdeg) * (NANORAD_PER_MICRODEG_SCALED as int)) / (SCALE as int))
    }
}

/// Degree-nine Taylor polynomial of `sin` on `[0, pi/2]`, in fixed point.
pub open spec fn sin_poly(y: int) -> int {
    let y2 = (y * y) / (SCALE as int);
    let t3 = (y * y2) / (SCALE as int);
    let t5 = (t3 * y2) / (SCALE as int);
    let t7 = (t5 * y2) / (SCALE as int);
    let t9 = (t7 * y2) / (SCALE as int);
    y - t3 / 6 + t5 / 120 - t7 / 5040 + t9 / 362880
}

pub open spec fn clamp_unit(v: int) -> int {
    if v < 0 {
        0
    } else if v > SCALE as int {
        SCALE as int
    } else {
        v
    }
}

/// `sin` of an angle in `[0, pi]` nano-radians, as a value in `[0, SCALE]`.
pub open spec fn sin_nano(x: int) -> int {
    let y = if x > HALF_PI_NANO as int {
        (PI_NANO as int) - x
    } else {
        x
    };
    clamp_unit(sin_poly(y))
}

/// `cos` of an angle in `[0, pi]` nano-radians, as a value in `[-SCALE, SCALE]`.
pub open spec fn cos_nano(x: int) -> int {
    if x <= HALF_PI_NANO as int {
        sin_nano((HALF_PI_NANO as int) - x)
    } else {
        -sin_nano(x - (HALF_PI_NANO as int))
    }
}

pub proof fn lemma_mul_bound(a: int, b: int, am: int, bm: int)
    by (nonlinear_arith)
    requires
        0 <= a <= am,
        0 <= b <= bm,
    ensures
        0 <= a * b <= am * bm,
{
}

/// Converts micro-degrees to nano-radians.
pub fn microdeg_to_nanorad(microdeg: i64) -> (r: i64)
    requires
        -MAX_MICRODEG <= microdeg <= MAX_MICRODEG,
    ensures
        r == nanorad_of(microdeg as int),
{
    let magnitude: i64 = if microdeg >= 0 {
        microdeg
    } else {
        -microdeg
    };
    proof {
        lemma_mul_bound(
            magnitude as int,
            NANORAD_PER_MICRODEG_SCALED as int,
            MAX_MICRODEG as int,
            NANORAD_PER_MICRODEG_SCALED as int,
        );
        lemma_mul_bound(magnitude as int, 18, MAX_MICRODEG as int, 18);
    }
    let scaled: i128 = (magnitude as i128) * (NANORAD_PER_MICRODEG_SCALED as i128);
    let reduced: i128 = scaled / (SCALE as i128);
    assert(0 <= reduced <= magnitude * 18) by {
        assert(reduced == (magnitude * NANORAD_PER_MICRODEG_SCALED) / SCALE as int);
        assert(magnitude * NANORAD_PER_MICRODEG_SCALED <= magnitude * 18 * SCALE) by (nonlinear_arith)
            requires 0 <= magnitude;
        vstd::arithmetic::div_mod::lemma_div_multiples_vanish(magnitude * 18, SCALE as int);
        vstd::arithmetic::div_mod::lemma_div_is_ordered(
            magnitude * NANORAD_PER_MICRODEG_SCALED,
            magnitude * 18 * SCALE,
            SCALE as int,
        );
    };
    let magnitude_rad: i64 = reduced as i64;
    if microdeg >= 0 {
        magnitude_rad
    } else {
        -magnitude_rad
    }
}

/// Fixed-point `sin` on `[0, pi]`, exactly the value of [`sin_nano`].
pub fn sin_fixed(x: i64) -> (r: i64)
    requires
        0 <= x <= PI_NANO,
    ensures
        r == sin_nano(x as int),
        0 <= r <= SCALE,
{
    let y: i64 = if x > HALF_PI_NANO {
        PI_NANO - x
    } else {
        x
    };
    let yw: i128 = y as i128;
    proof {
        lemma_mul_bound(yw as int, yw as int, HALF_PI_NANO as int, HALF_PI_NANO as int);
    }
    let y2: i128 = yw * yw / (SCALE as i128);
    proof {
        lemma_mul_bound(yw as int, y2 as int, HALF_PI_NANO as int, 3_000_000_000);
    }
    let t3: i128 = yw * y2 / (SCALE as i128);
    proof {
        lemma_mul_bound(t3 as int, y2 as int, 5_000_000_000, 3_000_000_000);
    }
    let t5: i128 = t3 * y2 / (SCALE as i128);
    proof {
        lemma_mul_bound(t5 as int, y2 as int, 15_000_000_000, 3_000_000_000);
    }
    let t7: i128 = t5 * y2 / (SCALE as i128);
    proof {
        lemma_mul_bound(t7 as int, y2 as int, 45_000_000_000, 3_000_000_000);
    }
    let t9: i128 = t7 * y2 / (SCALE as i128);
    let v: i128 = yw - t3 / 6 + t5 / 120 - t7 / 5040 + t9 / 362880;
    let c: i128 = if v < 0 {
        0
    } else if v > SCALE as i128 {
        SCALE as i128
    } else {
        v
    };
    c as i64
}

/// Fixed-point `cos` on `[0, pi]`, exactly the value of [`cos_nano`].
pub fn cos_fixed(x: i64) -> (r: i64)
    requires
        0 <= x <= PI_NANO,
    ensures
        r == cos_nano(x as int),
        -SCALE <= r <= SCALE,
{
    if x <= HALF_PI_NANO {
        sin_fixed(HALF_PI_NANO - x)
    } else {
        -sin_fixed(x - HALF_PI_NANO)
    }
}

} // verus!
