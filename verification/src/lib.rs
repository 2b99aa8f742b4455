//! Verified core of an ISS contact estimator.
//!
//! The library models geographic angles as signed micro-degrees and distances
//! as whole meters, so that the spherical geometry, the TLE parsing, the orbit
//! ground-track assembly and the contact-time heuristic can all be verified.
use vstd::prelude::*;

pub mod estimator;
pub mod geo;
pub mod locate;
pub mod orbit;
pub mod tle;
pub mod trig;

verus! {

/// Mean Earth radius in meters, the sphere all ground distances are measured on.
pub const EARTH_RADIUS_M: u64 = 6_371_000;

pub fn earth_radius_m() -> (r: u64)
    ensures
        r == EARTH_RADIUS_M,
{
    EARTH_RADIUS_M
}

/// The failure conditions the estimator surfaces, each with its message.
#[derive(Clone, Copy, Debug, PartialEq, Eq, Structural)]
pub enum TrackError {
    /// A transport-level fetch failed.
    NetworkFailure,
    /// A response parsed in none of the accepted shapes.
    FormatFailure,
    /// An orbit propagation produced no usable sample point.
    GeometryFailure,
    /// Every geolocation provider in the fallback chain failed.
    AllProvidersFailure,
}

impl TrackError {
    /// The human-readable message surfaced to the caller.
    pub fn message(&self) -> String {
        match self {
            TrackError::NetworkFailure => "Network request failed.".to_owned(),
            TrackError::FormatFailure => "Unexpected TLE format.".to_owned(),
            TrackError::GeometryFailure => "No orbit points computed.".to_owned(),
            TrackError::AllProvidersFailure => "All IP geolocation providers failed".to_owned(),
        }
    }
}

} // verus!
