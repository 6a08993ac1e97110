//! Dead reckoning between telemetry samples: a slow stream of samples
//! becomes a sample for any instant that a consumer asks for.

use crate::clock::{millis_since, now};
use crate::telemetry::TargetInfoMessage;
use vstd::prelude::*;

verus! {

/// Keeps the latest telemetry sample with the instant it arrived, and
/// carries it forward in time on request.
pub struct TargetInterpolator {
    last_info: Option<(std::time::Instant, TargetInfoMessage)>,
    interpolated: Option<TargetInfoMessage>,
}

impl TargetInterpolator {
    /// The latest sample received, if any.
    pub closed spec fn last_info(&self) -> Option<TargetInfoMessage> {
        match self.last_info {
            Some(info) => Some(info.1),
            None => None,
        }
    }

    /// The sample last handed out, if any.
    pub closed spec fn interpolated(&self) -> Option<TargetInfoMessage> {
        self.interpolated
    }

    /// An interpolator that has seen no sample yet.
    pub fn new() -> (t: TargetInterpolator)
        ensures
            t.last_info().is_none(),
            t.interpolated().is_none(),
    {
        TargetInterpolator { last_info: None, interpolated: None }
    }

    /// The latest sample received, if any.
    pub fn latest(&self) -> (m: Option<TargetInfoMessage>)
        ensures
            m == self.last_info(),
    {
        match &self.last_info {
            Some(info) => Some(info.1),
            None => None,
        }
    }

    /// The sample last handed out, if any.
    pub fn current(&self) -> (m: Option<TargetInfoMessage>)
        ensures
            m == self.interpolated(),
    {
        self.interpolated
    }

    /// Takes a new sample, as of now, in place of the one before. Returns
    /// what is to be published: the sample itself, not yet carried forward.
    pub fn notify(&mut self, value: &TargetInfoMessage) -> (published: TargetInfoMessage)
        ensures
            final(self).last_info() == Some(*value),
            final(self).interpolated() == Some(*value),
            published == *value,
    {
        self.last_info = Some((now(), *value));
        self.interpolated = Some(*value);
        *value
    }

    /// Carries the latest sample forward to the time of the call and returns
    /// what is to be published: nothing before the first sample, else the
    /// sample after some elapsed time, which the clock decides. The sample
    /// kept is not touched, so calls at any rate do not add up errors.
    pub fn interpolate(&mut self) -> (published: Option<TargetInfoMessage>)
        ensures
            final(self).last_info() == old(self).last_info(),
            match old(self).last_info() {
                None => published.is_none() && final(self).interpolated() == old(
                    self,
                ).interpolated(),
                Some(sample) => final(self).interpolated() == published && exists|dt: int|
                    0 <= dt <= u64::MAX && published == Some(
                        #[trigger] sample.extrapolated_spec(dt),
                    ),
            },
    {
        let ghost mut elapsed: int = 0;
        let carried: Option<TargetInfoMessage> = match &self.last_info {
            Some(info) => {
                let dt: u64 = millis_since(&info.0);
                proof {
                    elapsed = dt as int;
                }
                Some(info.1.extrapolated(dt))
            },
            None => None,
        };
        if carried.is_some() {
            self.interpolated = carried;
        }
        proof {
            match old(self).last_info() {
                Some(sample) => {
                    assert(carried == Some(sample.extrapolated_spec(elapsed)));
                },
                None => {},
            }
        }
        carried
    }
}

} // verus!
