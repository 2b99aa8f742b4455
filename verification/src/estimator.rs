//! The two-sample contact-time heuristic.
//!
//! Given the observer's position and two time-separated satellite samples,
//! the estimator reports tenths of minutes until the satellite is next within
//! the elevation-limited contact radius: zero when it already is, a fixed
//! orbital period when no usable velocity signal exists, and otherwise the
//! time to close the geometric gap at the reported orbital ground speed
//! (reinterpreted as time since the last pass when the satellite recedes).
use vstd::prelude::*;
use crate::geo::{
    ground_distance_m, ground_distance_spec, max_distance_for_elevation_m, max_distance_spec,
    GeoPoint,
};

verus! {

/// Minimum elevation, in micro-degrees, considered reliable for contact.
pub const MIN_ELEVATION_MICRODEG: i64 = 10_000_000;

/// The assumed orbital period, in tenths of minutes.
pub const ORBITAL_PERIOD_TENTHS: u64 = 926;

/// The assumed orbital period, in whole seconds: 92.6 minutes.
pub const ORBITAL_PERIOD_SECONDS: u64 = 5556;

/// Speed floor applied before dividing, in meters per hour (0.001 km/s).
pub const SPEED_FLOOR_M_PER_H: u64 = 3600;

/// Below this unfloored speed, in meters per hour (0.0001 km/s), the velocity
/// signal is treated as unusable.
pub const NO_SIGNAL_M_PER_H: u64 = 360;

/// The wait between the two satellite samples, in seconds.
pub const SAMPLE_INTERVAL_SECONDS: u64 = 10;

/// A fresh satellite state sample: subpoint coordinates in micro-degrees,
/// altitude in meters, reported orbital ground speed in meters per hour, and
/// the feed's timestamp.
#[derive(Clone, Copy, Debug, PartialEq, Eq, Structural)]
pub struct SatelliteState {
    pub lat_microdeg: i64,
    pub lon_microdeg: i64,
    pub altitude_m: u64,
    pub velocity_m_per_h: u64,
    pub timestamp: i64,
}

impl SatelliteState {
    /// The satellite's ground subpoint.
    pub open spec fn position(self) -> GeoPoint {
        GeoPoint { lat_microdeg: self.lat_microdeg, lon_microdeg: self.lon_microdeg }
    }

    /// Coordinates in range and altitude below the arithmetic ceiling of the
    /// visibility solver.
    pub open spec fn valid(self) -> bool {
        self.position().valid() && self.altitude_m <= 1_000_000_000_000
    }

    /// The satellite's ground subpoint, as an executable value.
    pub fn subpoint(&self) -> (p: GeoPoint)
        ensures
            p == self.position(),
    {
        GeoPoint { lat_microdeg: self.lat_microdeg, lon_microdeg: self.lon_microdeg }
    }
}

/// Tenths of minutes until contact, from the current ground distance `d0`,
/// the contact radius `d_max`, the later ground distance `d1` and the
/// reported speed. Already in range gives zero; an unusable velocity signal
/// gives one assumed orbital period; otherwise the gap is closed at the
/// floored speed, and a receding satellite is due again one period after its
/// last pass. Seconds are rounded to the nearest tenth of a minute.
pub open spec fn estimate_tenths_spec(d0: int, d_max: int, d1: int, velocity_m_per_h: int) -> int {
    if d0 <= d_max {
        0
    } else if velocity_m_per_h <= NO_SIGNAL_M_PER_H as int {
        ORBITAL_PERIOD_TENTHS as int
    } else {
        let v = if velocity_m_per_h < SPEED_FLOOR_M_PER_H as int {
            SPEED_FLOOR_M_PER_H as int
        } else {
            velocity_m_per_h
        };
        let gap_seconds = ((d0 - d_max) * 3600) / v;
        let seconds = if d1 < d0 {
            gap_seconds
        } else if (ORBITAL_PERIOD_SECONDS as int) >= gap_seconds {
            (ORBITAL_PERIOD_SECONDS as int) - gap_seconds
        } else {
            0
        };
        (seconds + 3) / 6
    }
}

/// Computes [`estimate_tenths_spec`] from already-computed distances.
pub fn contact_estimate_tenths(d0_m: u64, d_max_m: u64, d1_m: u64, velocity_m_per_h: u64) -> (r:
    u64)
    requires
        d0_m <= 21_000_000,
    ensures
        r as int == estimate_tenths_spec(
            d0_m as int,
            d_max_m as int,
            d1_m as int,
            velocity_m_per_h as int,
        ),
        d0_m <= d_max_m ==> r == 0,
{
    if d0_m <= d_max_m {
        return 0;
    }
    if velocity_m_per_h <= NO_SIGNAL_M_PER_H {
        return ORBITAL_PERIOD_TENTHS;
    }
    let v: u64 = if velocity_m_per_h < SPEED_FLOOR_M_PER_H {
        SPEED_FLOOR_M_PER_H
    } else {
        velocity_m_per_h
    };
    let gap_seconds: u64 = (d0_m - d_max_m) * 3600 / v;
    proof {
        vstd::arithmetic::div_mod::lemma_div_pos_is_pos(
            ((d0_m - d_max_m) * 3600) as int,
            v as int,
        );
        vstd::arithmetic::div_mod::lemma_div_is_ordered_by_denominator(
            ((d0_m - d_max_m) * 3600) as int,
            SPEED_FLOOR_M_PER_H as int,
            v as int,
        );
    }
    let seconds: u64 = if d1_m < d0_m {
        gap_seconds
    } else if ORBITAL_PERIOD_SECONDS >= gap_seconds {
        ORBITAL_PERIOD_SECONDS - gap_seconds
    } else {
        0
    };
    (seconds + 3) / 6
}

/// Tenths of minutes until contact from the observer, the first full
/// satellite sample, and the subpoint of the later sample, with distances
/// taken by [`ground_distance_m`] and the radius by
/// [`max_distance_for_elevation_m`] at [`MIN_ELEVATION_MICRODEG`].
pub fn contact_estimate_from_samples(observer: GeoPoint, first: SatelliteState, later: GeoPoint)
    -> (r: u64)
    requires
        observer.valid(),
        first.valid(),
        later.valid(),
    ensures
        r as int == estimate_tenths_spec(
            ground_distance_spec(observer, first.position()),
            max_distance_spec(first.altitude_m as int, MIN_ELEVATION_MICRODEG as int),
            ground_distance_spec(observer, later),
            first.velocity_m_per_h as int,
        ),
        ground_distance_spec(observer, first.position()) <= max_distance_spec(
            first.altitude_m as int,
            MIN_ELEVATION_MICRODEG as int,
        ) ==> r == 0,
{
    let d0: u64 = ground_distance_m(observer, first.subpoint());
    let d_max: u64 = max_distance_for_elevation_m(first.altitude_m, MIN_ELEVATION_MICRODEG);
    let d1: u64 = ground_distance_m(observer, later);
    contact_estimate_tenths(d0, d_max, d1, first.velocity_m_per_h)
}

} // verus!
