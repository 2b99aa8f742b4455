//! Orbit ground-track sampling and assembly.
//!
//! The propagation of an orbital element set to an inertial position is
//! outside work; what is verified here is the sampling schedule around "now"
//! and the assembly of the per-sample outcomes into a chronological path:
//! failed samples are skipped, and an empty result is an error.
use vstd::prelude::*;
use crate::geo::GeoPoint;
use crate::TrackError;

verus! {

/// Default half-window around now, in minutes.
pub const DEFAULT_SPAN_MINUTES: i64 = 90;

/// Default sampling step, in minutes.
pub const DEFAULT_STEP_MINUTES: i64 = 2;

/// Largest half-window and step accepted, in minutes.
pub const MAX_WINDOW_MINUTES: i64 = 1_000_000_000;

/// A requested half-window and step resolve to their defaults when absent.
pub fn resolved_window(span_minutes: Option<i64>, step_minutes: Option<i64>) -> (r: (i64, i64))
    ensures
        r.0 == if span_minutes is Some { span_minutes->0 } else { DEFAULT_SPAN_MINUTES },
        r.1 == if step_minutes is Some { step_minutes->0 } else { DEFAULT_STEP_MINUTES },
{
    let span = match span_minutes {
        Some(s) => s,
        None => DEFAULT_SPAN_MINUTES,
    };
    let step = match step_minutes {
        Some(s) => s,
        None => DEFAULT_STEP_MINUTES,
    };
    (span, step)
}

/// Minute offsets from now at which the ground track is sampled: from
/// `-span` up through `span` in increments of `step`, both clamped to at
/// least one minute. The sequence is never empty and strictly ascending, and
/// the last offset may fall short of `span` when `step` does not divide the
/// window evenly.
pub fn sample_offsets(span_minutes: i64, step_minutes: i64) -> (r: Vec<i64>)
    requires
        span_minutes <= MAX_WINDOW_MINUTES,
        step_minutes <= MAX_WINDOW_MINUTES,
    ensures
        ({
            let span = if span_minutes < 1 { 1int } else { span_minutes as int };
            let step = if step_minutes < 1 { 1int } else { step_minutes as int };
            &&& r@.len() == (2 * span) / step + 1
            &&& forall|i: int| 0 <= i < r@.len() ==> r@[i] == -span + i * step
            &&& r@.len() > 0
            &&& r@[0] == -span
            &&& forall|i: int| 0 <= i < r@.len() - 1 ==> #[trigger] r@[i] < r@[i + 1]
        }),
{
    let span: i64 = if span_minutes < 1 {
        1
    } else {
        span_minutes
    };
    let step: i64 = if step_minutes < 1 {
        1
    } else {
        step_minutes
    };
    let mut r: Vec<i64> = Vec::new();
    let mut t: i64 = -span;
    while t <= span
        invariant
            1 <= span <= MAX_WINDOW_MINUTES,
            1 <= step <= MAX_WINDOW_MINUTES,
            t == -span + (r@.len() as int) * step,
            forall|i: int| 0 <= i < r@.len() ==> r@[i] == -span + i * step,
            r@.len() == 0 || -span + (r@.len() as int - 1) * step <= span,
        decreases span + step - t,
    {
        r.push(t);
        proof {
            assert((r@.len() as int) * step == (r@.len() - 1) * step + step) by (nonlinear_arith);
        }
        t = t + step;
    }
    proof {
        let len = r@.len() as int;
        let span_i = span as int;
        let step_i = step as int;
        assert(len >= 1) by {
            assert(0int * step_i == 0) by (nonlinear_arith);
        };
        assert(len * step_i == (len - 1) * step_i + step_i) by (nonlinear_arith);
        assert((len - 1) * step_i <= 2 * span_i < len * step_i);
        vstd::arithmetic::div_mod::lemma_fundamental_div_mod_converse(
            2 * span_i,
            step_i,
            len - 1,
            2 * span_i - (len - 1) * step_i,
        );
        assert forall|i: int| 0 <= i < len - 1 implies #[trigger] r@[i] < r@[i + 1] by {
            assert((i + 1) * step_i == i * step_i + step_i) by (nonlinear_arith);
        }
    }
    r
}

/// The points of the successful samples, in sample order.
pub open spec fn present_points(s: Seq<Option<GeoPoint>>) -> Seq<GeoPoint>
    decreases s.len(),
{
    if s.len() == 0 {
        Seq::empty()
    } else {
        present_points(s.drop_last()) + (if s.last() is Some {
            seq![s.last()->0]
        } else {
            Seq::empty()
        })
    }
}

/// A sequence with no successful sample yields no points, and one with a
/// successful sample yields at least that point.
pub proof fn lemma_present_points_empty(s: Seq<Option<GeoPoint>>)
    ensures
        present_points(s).len() == 0 <==> (forall|i: int| 0 <= i < s.len() ==> s[i] is None),
    decreases s.len(),
{
    if s.len() > 0 {
        lemma_present_points_empty(s.drop_last());
        if present_points(s).len() == 0 {
            assert(forall|i: int| 0 <= i < s.len() - 1 ==> s.drop_last()[i] == s[i]);
            assert(s.last() is None);
        } else {
            if !(forall|i: int| 0 <= i < s.len() ==> s[i] is None) {
            }
        }
    }
}

/// Assembles the ordered ground track out of per-sample outcomes, skipping
/// the failed samples; an entirely failed window is a geometry failure.
pub fn assemble_path(samples: &Vec<Option<GeoPoint>>) -> (r: Result<Vec<GeoPoint>, TrackError>)
    ensures
        match r {
            Ok(points) => points@ == present_points(samples@) && points@.len() > 0,
            Err(e) => {
                &&& e == TrackError::GeometryFailure
                &&& present_points(samples@).len() == 0
                &&& forall|i: int| 0 <= i < samples@.len() ==> samples@[i] is None
            },
        },
{
    let mut points: Vec<GeoPoint> = Vec::new();
    let mut i: usize = 0;
    while i < samples.len()
        invariant
            i <= samples.len(),
            points@ == present_points(samples@.take(i as int)),
        decreases samples.len() - i,
    {
        proof {
            assert(samples@.take(i + 1).drop_last() =~= samples@.take(i as int));
            assert(samples@.take(i + 1).last() == samples@[i as int]);
        }
        match samples[i] {
            Some(p) => {
                points.push(p);
            },
            None => {
            },
        }
        i = i + 1;
    }
    proof {
        assert(samples@.take(samples@.len() as int) =~= samples@);
    }
    if points.len() == 0 {
        proof {
            lemma_present_points_empty(samples@);
        }
        Err(TrackError::GeometryFailure)
    } else {
        Ok(points)
    }
}

} // verus!
