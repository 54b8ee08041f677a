//! Cancellation point for in-flight work.
use vstd::prelude::*;

verus! {

/// The highest watermark the coordinator has abandoned, as of one moment.
///
/// There is no clone of a token, since a second one would not follow later
/// cancels. What a session and its backend share is a cell that holds the point,
/// and each of them reads a token out of it.
///
/// Watermarks are opaque and start at 1. A point of `0` means that nothing is
/// cancelled yet, so a fresh token cancels nothing. Which jobs carry a
/// watermark at all is a caller decision: a job without one is never cancelled.
#[derive(Debug)]
pub struct CancelToken {
    /// Every watermark at or below this one is abandoned. `0` abandons none.
    pub point: u64,
}

/// Whether a job carrying `watermark` is abandoned once the point is `point`.
pub open spec fn abandons(point: u64, watermark: Option<u64>) -> bool {
    match watermark {
        Some(w) => point != 0 && w <= point,
        None => false,
    }
}

impl Default for CancelToken {
    fn default() -> (token: Self)
        ensures
            token.point == 0,
    {
        CancelToken { point: 0 }
    }
}

impl CancelToken {
    /// Abandon every watermark at or below `watermark`.
    pub fn cancel_through(&mut self, watermark: u64)
        ensures
            final(self).point == raised(old(self).point, watermark),
    {
        if watermark > self.point {
            self.point = watermark;
        }
    }

    /// The highest watermark abandoned so far. `0` means nothing is abandoned.
    #[must_use]
    pub fn abandoned(&self) -> (point: u64)
        ensures
            point == self.point,
    {
        self.point
    }

    /// True when this job's watermark has been abandoned.
    #[must_use]
    pub fn is_cancelled(&self, watermark: Option<u64>) -> (cancelled: bool)
        ensures
            cancelled == abandons(self.point, watermark),
    {
        match watermark {
            Some(w) => self.point != 0 && w <= self.point,
            None => false,
        }
    }
}

/// The point after a cancel through `watermark`.
pub open spec fn raised(point: u64, watermark: u64) -> u64 {
    if watermark > point {
        watermark
    } else {
        point
    }
}

/// The point never goes down, so what is abandoned stays abandoned.
pub proof fn law_the_point_is_monotonic(point: u64, watermark: u64, job: Option<u64>)
    ensures
        point <= raised(point, watermark),
        abandons(point, job) ==> abandons(raised(point, watermark), job),
{
}

/// Repeating a cancel, or repeating it out of order, changes nothing.
pub proof fn law_cancels_are_idempotent_and_commute(point: u64, a: u64, b: u64)
    ensures
        raised(raised(point, a), a) == raised(point, a),
        raised(raised(point, a), b) == raised(raised(point, b), a),
{
}

/// A cancel through `watermark` abandons exactly the watermarks up to it and
/// those that were abandoned before. Through `0` it abandons nothing.
pub proof fn law_a_cancel_abandons_what_it_names(point: u64, watermark: u64, job: u64)
    ensures
        abandons(raised(point, watermark), Some(job)) <==> (watermark != 0 && job <= watermark)
            || abandons(point, Some(job)),
        !abandons(raised(point, watermark), None),
        !abandons(0, Some(job)),
{
}

} // verus!
