//! Scroll trigger: turns the stream of wheel events into requests for
//! capture cycles. Small events are accumulated, a turn of direction starts
//! the sum again, and requests are kept at least the debounce window apart
//! and never overlap a cycle that is still running.
//!
//! Wheel deltas are given in thousandths of a unit, times in milliseconds.

use crate::detector::Sign;
use vstd::prelude::*;

verus! {

/// Smallest size of a delta that counts as movement: a tenth of a unit.
pub const MOVEMENT_FLOOR: i64 = 100;

/// Sum at which discrete wheel steps ask for a capture: one unit.
pub const STEP_THRESHOLD: i64 = 1_000;

/// Sum at which continuous gestures ask for a capture: two and a half units.
pub const CONTINUOUS_THRESHOLD: i64 = 2_500;

/// Least time between two requests, in milliseconds.
pub const DEBOUNCE_MS: u64 = 80;

/// One event of the scroll wheel: the vertical delta in points and in
/// fixed-point lines, both in thousandths, and whether it belongs to a
/// continuous gesture.
#[derive(Clone, Copy, Debug, PartialEq, Eq, Structural)]
pub struct WheelEvent {
    pub point_delta: i32,
    pub fixed_delta: i32,
    pub is_continuous: bool,
}

/// A request for a capture cycle, with the hints for the detector.
#[derive(Clone, Copy, Debug, PartialEq, Eq)]
pub struct CaptureRequest {
    /// Direction in which the detector is to search.
    pub expected_direction: Sign,
    /// Largest offset that the detector is to search.
    pub max_magnitude: u32,
    /// The accumulated delta that led to the request, in thousandths.
    pub accumulated: i64,
}

/// Mathematical model of the trigger.
pub struct TriggerView {
    /// Whether the listener is running.
    pub active: bool,
    /// Whether a requested cycle has not been reported finished.
    pub in_flight: bool,
    /// Sum of the deltas since the last request or turn, in thousandths.
    pub accumulated: int,
    /// Direction of the last movement: 1, -1, or 0 before any.
    pub direction: int,
    /// Time of the last request, if there was one.
    pub last_request: Option<u64>,
}

/// The delta of an event that counts, and whether it is the fixed-point
/// one: the fixed-point delta where it exceeds the movement floor, else the
/// point delta.
pub open spec fn effective_delta(event: WheelEvent) -> (int, bool) {
    if event.fixed_delta > MOVEMENT_FLOOR || event.fixed_delta < -MOVEMENT_FLOOR {
        (event.fixed_delta as int, true)
    } else {
        (event.point_delta as int, false)
    }
}

/// Absolute value.
pub open spec fn abs(x: int) -> int {
    if x < 0 {
        -x
    } else {
        x
    }
}

/// Largest offset to search for an accumulated delta: one and a half pixels
/// for each unit of a fixed-point delta, between 24 and 400; twenty pixels
/// for each unit of a point delta, between 24 and 200. A delta of less than
/// one unit counts as one. Fractions of a pixel are dropped.
pub open spec fn search_bound(accumulated: int, fixed: bool) -> int {
    let scale = if abs(accumulated) < 1_000 {
        1_000
    } else {
        abs(accumulated)
    };
    if fixed {
        let wanted = scale * 3 / 2;
        if wanted < 24_000 {
            24
        } else if wanted > 400_000 {
            400
        } else {
            wanted / 1_000
        }
    } else {
        let wanted = scale * 20;
        if wanted < 24_000 {
            24
        } else if wanted > 200_000 {
            200
        } else {
            wanted / 1_000
        }
    }
}

/// Whether enough time has passed since the last request.
pub open spec fn debounced(last_request: Option<u64>, now: u64) -> bool {
    match last_request {
        None => true,
        Some(last) => now >= last && now - last >= DEBOUNCE_MS,
    }
}

impl TriggerView {
    /// The invariant of the trigger: the sum stays below the larger
    /// threshold, and the direction is one of its three values.
    pub open spec fn wf(self) -> bool {
        &&& -CONTINUOUS_THRESHOLD < self.accumulated < CONTINUOUS_THRESHOLD
        &&& -1 <= self.direction <= 1
    }

    /// What a wheel event does to the trigger, and the request that it
    /// leads to, if any.
    ///
    /// An event is ignored while the listener is not running, and where its
    /// delta does not exceed the movement floor. Else the delta joins the
    /// sum, after the sum was set back to zero if the direction turned. A
    /// sum below the threshold waits for more. A sum that reaches it is set
    /// back to zero, and leads to a request unless the last request is less
    /// than the debounce window ago or its cycle is still running; the
    /// request then marks a cycle as running.
    pub open spec fn wheel(self, event: WheelEvent, now: u64) -> (TriggerView, Option<
        CaptureRequest,
    >) {
        let (delta, fixed) = effective_delta(event);
        if !self.active || abs(delta) <= MOVEMENT_FLOOR {
            (self, None)
        } else {
            let sign = if delta < 0 {
                -1int
            } else {
                1int
            };
            let base = if self.direction != 0 && self.direction != sign {
                0
            } else {
                self.accumulated
            };
            let sum = base + delta;
            let threshold = if event.is_continuous {
                CONTINUOUS_THRESHOLD
            } else {
                STEP_THRESHOLD
            };
            if abs(sum) < threshold {
                (
                    TriggerView {
                        active: self.active,
                        in_flight: self.in_flight,
                        accumulated: sum,
                        direction: sign,
                        last_request: self.last_request,
                    },
                    None,
                )
            } else if !debounced(self.last_request, now) || self.in_flight {
                (
                    TriggerView {
                        active: self.active,
                        in_flight: self.in_flight,
                        accumulated: 0,
                        direction: sign,
                        last_request: self.last_request,
                    },
                    None,
                )
            } else {
                (
                    TriggerView {
                        active: self.active,
                        in_flight: true,
                        accumulated: 0,
                        direction: sign,
                        last_request: Some(now),
                    },
                    Some(
                        CaptureRequest {
                            expected_direction: if delta < 0 {
                                Sign::Positive
                            } else {
                                Sign::Negative
                            },
                            max_magnitude: search_bound(sum, fixed) as u32,
                            accumulated: sum as i64,
                        },
                    ),
                )
            }
        }
    }
}

/// The state of the scroll trigger.
pub struct ScrollTrigger {
    active: bool,
    in_flight: bool,
    accumulated: i64,
    direction: i8,
    last_request: Option<u64>,
}

impl View for ScrollTrigger {
    type V = TriggerView;

    closed spec fn view(&self) -> TriggerView {
        TriggerView {
            active: self.active,
            in_flight: self.in_flight,
            accumulated: self.accumulated as int,
            direction: self.direction as int,
            last_request: self.last_request,
        }
    }
}

/// Computes the largest offset to search for an accumulated delta.
pub fn max_search_delta(accumulated: i64, fixed: bool) -> (bound: u32)
    ensures
        bound == search_bound(accumulated as int, fixed),
        24 <= bound <= 400,
{
    let size: i128 = if accumulated < 0 {
        -(accumulated as i128)
    } else {
        accumulated as i128
    };
    let scale: i128 = if size < 1_000 {
        1_000
    } else {
        size
    };
    if fixed {
        let wanted: i128 = scale * 3 / 2;
        if wanted < 24_000 {
            24
        } else if wanted > 400_000 {
            400
        } else {
            (wanted / 1_000) as u32
        }
    } else {
        let wanted: i128 = scale * 20;
        if wanted < 24_000 {
            24
        } else if wanted > 200_000 {
            200
        } else {
            (wanted / 1_000) as u32
        }
    }
}

impl ScrollTrigger {
    #[verifier::type_invariant]
    spec fn inv(self) -> bool {
        self@.wf()
    }

    /// A trigger whose listener is not running.
    pub fn new() -> (t: Self)
        ensures
            t@ == (TriggerView {
                active: false,
                in_flight: false,
                accumulated: 0,
                direction: 0,
                last_request: None,
            }),
    {
        ScrollTrigger {
            active: false,
            in_flight: false,
            accumulated: 0,
            direction: 0,
            last_request: None,
        }
    }

    /// Starts the listener. Tells whether it was started, which it is not
    /// if it was running already. A start begins with an empty sum and
    /// without a last request.
    pub fn start_scroll_listener(&mut self) -> (started: bool)
        ensures
            started == !old(self)@.active,
            old(self)@.active ==> final(self)@ == old(self)@,
            !old(self)@.active ==> final(self)@ == (TriggerView {
                active: true,
                in_flight: false,
                accumulated: 0,
                direction: 0,
                last_request: None,
            }),
    {
        if self.active {
            return false;
        }
        *self = ScrollTrigger {
            active: true,
            in_flight: false,
            accumulated: 0,
            direction: 0,
            last_request: None,
        };
        true
    }

    /// Stops the listener: wheel events are ignored from now on.
    pub fn stop_scroll_listener(&mut self)
        ensures
            final(self)@ == (TriggerView { active: false, ..old(self)@ }),
    {
        proof {
            use_type_invariant(&*self);
        }
        self.active = false;
    }

    /// Whether the listener is running.
    pub fn is_active(&self) -> (b: bool)
        ensures
            b == self@.active,
    {
        self.active
    }

    /// Reports that the requested capture cycle is over, however it ended.
    pub fn capture_finished(&mut self)
        ensures
            final(self)@ == (TriggerView { in_flight: false, ..old(self)@ }),
    {
        proof {
            use_type_invariant(&*self);
        }
        self.in_flight = false;
    }

    /// Takes a wheel event at the time `now` and tells whether a capture
    /// cycle is to be run, and with which hints.
    pub fn on_wheel(&mut self, event: WheelEvent, now: u64) -> (request: Option<CaptureRequest>)
        ensures
            (final(self)@, request) == old(self)@.wheel(event, now),
            final(self)@.wf(),
    {
        proof {
            use_type_invariant(&*self);
        }
        let fixed: bool = event.fixed_delta as i64 > MOVEMENT_FLOOR || (event.fixed_delta as i64)
            < -MOVEMENT_FLOOR;
        let delta: i64 = if fixed {
            event.fixed_delta as i64
        } else {
            event.point_delta as i64
        };
        if !self.active || (-MOVEMENT_FLOOR <= delta && delta <= MOVEMENT_FLOOR) {
            return None;
        }
        let sign: i8 = if delta < 0 {
            -1
        } else {
            1
        };
        let base: i64 = if self.direction != 0 && self.direction != sign {
            0
        } else {
            self.accumulated
        };
        let sum: i64 = base + delta;
        let threshold: i64 = if event.is_continuous {
            CONTINUOUS_THRESHOLD
        } else {
            STEP_THRESHOLD
        };
        if -threshold < sum && sum < threshold {
            *self = ScrollTrigger {
                active: self.active,
                in_flight: self.in_flight,
                accumulated: sum,
                direction: sign,
                last_request: self.last_request,
            };
            return None;
        }
        let waited: bool = match self.last_request {
            None => true,
            Some(last) => now >= last && now - last >= DEBOUNCE_MS,
        };
        if !waited || self.in_flight {
            *self = ScrollTrigger {
                active: self.active,
                in_flight: self.in_flight,
                accumulated: 0,
                direction: sign,
                last_request: self.last_request,
            };
            return None;
        }
        *self = ScrollTrigger {
            active: self.active,
            in_flight: true,
            accumulated: 0,
            direction: sign,
            last_request: Some(now),
        };
        Some(
            CaptureRequest {
                expected_direction: if delta < 0 {
                    Sign::Positive
                } else {
                    Sign::Negative
                },
                max_magnitude: max_search_delta(sum, fixed),
                accumulated: sum,
            },
        )
    }
}

/// Debounce: two requests are never less than the debounce window apart,
/// and no request comes while a cycle is running.
pub proof fn lemma_requests_are_spaced(t: TriggerView, event: WheelEvent, now: u64)
    requires
        t.wheel(event, now).1 is Some,
    ensures
        t.active,
        !t.in_flight,
        t.last_request matches Some(last) ==> now - last >= DEBOUNCE_MS,
        t.wheel(event, now).0.in_flight,
        t.wheel(event, now).0.last_request == Some(now),
        t.wheel(event, now).0.accumulated == 0,
{
}

/// The hints of a request: the direction is opposite to the sign of the
/// wheel delta, and the bound on the offset lies between 24 and 400 pixels.
pub proof fn lemma_request_hints(t: TriggerView, event: WheelEvent, now: u64)
    requires
        t.wf(),
        t.wheel(event, now).1 is Some,
    ensures
        24 <= t.wheel(event, now).1->0.max_magnitude <= 400,
        (t.wheel(event, now).1->0.expected_direction == Sign::Positive) == (effective_delta(
            event,
        ).0 < 0),
        t.wheel(event, now).0.wf(),
{
}

} // verus!
