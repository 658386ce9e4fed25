//! Admission control: the per-session gate that enforces single-flight
//! execution and a minimum spacing between accepted backend requests.

use vstd::prelude::*;

verus! {

/// Minimum spacing between two accepted requests, in milliseconds.
pub const MIN_SPACING_MS: u64 = 5000;

/// What admission answers one request.
#[derive(Clone, Copy, PartialEq, Eq, Structural, Debug)]
pub enum AdmitDecision {
    /// The request may start now.
    Admit,
    /// A previously admitted request has not finished yet.
    Busy,
    /// Too little time has passed since the last accepted request; carries
    /// the whole seconds left to wait, rounded up.
    TooSoon(u64),
}

/// Per-session admission state.
#[derive(Clone, Copy, PartialEq, Eq, Structural, Debug)]
pub struct Admission {
    /// Instant, in milliseconds of some monotonic clock, at which the last
    /// admitted request started. A fresh session records its opening instant
    /// here, so the first request is owed only after the spacing has passed.
    pub last_request_ms: u64,
    /// True from the instant a request is admitted until it is released.
    pub in_progress: bool,
}

impl Admission {
    /// Milliseconds elapsed since the last admitted request started. A clock
    /// reading from before that start counts as no time elapsed.
    pub open spec fn spec_elapsed_ms(self, now_ms: u64) -> int {
        if now_ms >= self.last_request_ms {
            now_ms - self.last_request_ms
        } else {
            0
        }
    }

    /// Seconds left before the next request may start, rounded up.
    pub open spec fn spec_remaining_s(self, now_ms: u64) -> int {
        (MIN_SPACING_MS - self.spec_elapsed_ms(now_ms) + 999) / 1000
    }

    /// The verdict owed to a request arriving at `now_ms`.
    pub open spec fn spec_decision(self, now_ms: u64) -> AdmitDecision {
        if self.in_progress {
            AdmitDecision::Busy
        } else if self.spec_elapsed_ms(now_ms) < MIN_SPACING_MS {
            AdmitDecision::TooSoon(self.spec_remaining_s(now_ms) as u64)
        } else {
            AdmitDecision::Admit
        }
    }

    pub fn new(now_ms: u64) -> (a: Admission)
        ensures
            a == (Admission { last_request_ms: now_ms, in_progress: false }),
    {
        Admission { last_request_ms: now_ms, in_progress: false }
    }

    /// Check and set in one step: an admitted request marks the session busy
    /// and records its start instant before anyone can observe the verdict,
    /// so no two callers can both see `Admit`.
    pub fn try_admit(&mut self, now_ms: u64) -> (d: AdmitDecision)
        ensures
            d == old(self).spec_decision(now_ms),
            d is Admit ==> *final(self) == (Admission {
                last_request_ms: now_ms,
                in_progress: true,
            }),
            !(d is Admit) ==> *final(self) == *old(self),
    {
        if self.in_progress {
            AdmitDecision::Busy
        } else {
            let elapsed: u64 = if now_ms >= self.last_request_ms {
                now_ms - self.last_request_ms
            } else {
                0
            };
            if elapsed < MIN_SPACING_MS {
                AdmitDecision::TooSoon((MIN_SPACING_MS - elapsed + 999) / 1000)
            } else {
                self.in_progress = true;
                self.last_request_ms = now_ms;
                AdmitDecision::Admit
            }
        }
    }

    /// Clear the single-flight flag once the backend call has finished,
    /// whether it succeeded or failed. The start instant is kept: spacing is
    /// measured between request starts, not ends.
    pub fn release(&mut self)
        ensures
            *final(self) == (Admission { in_progress: false, ..*old(self) }),
    {
        self.in_progress = false;
    }
}

/// No two backend calls are ever concurrently in flight: a request is
/// admitted only when no earlier request is still marked in progress.
pub proof fn lemma_admit_implies_idle(a: Admission, now_ms: u64)
    ensures
        a.spec_decision(now_ms) is Admit ==> !a.in_progress,
{
}

/// Two admitted requests on one session start at least the minimum spacing
/// apart. `a1` admits a request at `now1_ms`, which stamps `last_request_ms`
/// with `now1_ms`; that stamp survives releases and rejections, so any state
/// `a2` carrying it admits a second request at `now2_ms` only after the full
/// spacing has elapsed.
pub proof fn lemma_admitted_spacing(a1: Admission, now1_ms: u64, a2: Admission, now2_ms: u64)
    requires
        a1.spec_decision(now1_ms) is Admit,
        a2.last_request_ms == now1_ms,
        a2.spec_decision(now2_ms) is Admit,
    ensures
        now2_ms >= now1_ms + MIN_SPACING_MS,
{
}

} // verus!
