//! Sampling-loop decisions: a bounded recognition window over pointer
//! positions, the movement gate, and cooperative cancellation.
//!
//! The loop itself — polling the pointer device and sleeping one sampling
//! period between iterations — runs in the surrounding program, which
//! feeds each iteration's inputs (the cancellation flag and one pointer
//! reading) to [`Sampler::step`] and acts on the outcome.  A terminal
//! outcome (`Recognized`, `Cancelled`, `DeviceError`) ends the phase;
//! `Sampling` asks for another iteration after one sampling period.

use vstd::prelude::*;
use crate::geometry::Point;
use crate::matcher::{all_near_spec, all_points_near, detect_shape, detect_spec, GUESS_THRESHOLD};
use crate::shape::Shape;
use crate::template::{template_views, Template, POINTS_PER_FIGURE};

verus! {

/// One pointer reading: a position in screen space, or a device error.
#[derive(Clone, Copy, Debug, PartialEq, Eq, Structural)]
pub enum PointerSample {
    Position { x: i32, y: i32 },
    Error,
}

/// The reading reported a device error.
pub open spec fn sample_is_error(s: PointerSample) -> bool {
    match s {
        PointerSample::Position { .. } => false,
        PointerSample::Error => true,
    }
}

/// The position a non-error reading carries.
pub open spec fn sample_point(s: PointerSample) -> Point {
    match s {
        PointerSample::Position { x, y } => Point { x, y },
        PointerSample::Error => Point { x: 0, y: 0 },
    }
}

/// The outcome of one sampling-loop iteration.  `Sampling` continues the
/// phase; the other three end it.
#[derive(Clone, Copy, Debug, PartialEq, Eq, Structural)]
pub enum StepOutcome {
    Sampling,
    Recognized(Shape),
    Cancelled,
    DeviceError,
}

/// The recognition window after admitting `p`: once the window is at
/// capacity, the oldest point is evicted to admit the newest.
pub open spec fn next_window(buf: Seq<Point>, p: Point) -> Seq<Point> {
    if buf.len() >= POINTS_PER_FIGURE as int {
        buf.subrange(1, buf.len() as int).push(p)
    } else {
        buf.push(p)
    }
}

/// Classification is eligible only when the window is exactly at capacity
/// and the movement gate passes (the pointer is not stationary).
pub open spec fn gate_open(buf: Seq<Point>) -> bool {
    buf.len() == POINTS_PER_FIGURE as int && !all_near_spec(buf)
}

/// State of one recognition phase: the bounded window of pointer
/// positions, the enrolled template set, and a count of how many times
/// the matcher has been invoked.
pub struct Sampler {
    pub buffer: Vec<Point>,
    pub templates: Vec<Template>,
    pub match_attempts: u64,
}

impl Sampler {
    /// The window never exceeds its capacity.
    pub open spec fn wf(self) -> bool {
        self.buffer@.len() <= POINTS_PER_FIGURE as int
    }

    /// A fresh sampler for one recognition phase over the given template
    /// set.
    pub fn new(templates: Vec<Template>) -> (s: Sampler)
        ensures
            s.wf(),
            s.buffer@ == Seq::<Point>::empty(),
            s.match_attempts == 0,
            s.templates@ == templates@,
    {
        Sampler { buffer: Vec::new(), templates, match_attempts: 0 }
    }

    /// One iteration of the sampling loop.
    ///
    /// The cancellation flag is honoured first, before the reading is
    /// even looked at, so a cancelled phase ends within one sampling
    /// period and touches nothing.  A failed read ends the phase as
    /// `DeviceError`.  A position is admitted to the window (evicting the
    /// oldest point once at capacity); the matcher runs — and the attempt
    /// counter moves — only when the full-window movement gate opens.  A
    /// confident match clears the window and ends the phase; anything
    /// else slides the window forward by one point and continues.
    pub fn step(&mut self, cancelled: bool, sample: PointerSample) -> (r: StepOutcome)
        requires
            old(self).wf(),
            old(self).match_attempts < u64::MAX,
        ensures
            final(self).wf(),
            final(self).templates@ == old(self).templates@,
            cancelled ==> r == StepOutcome::Cancelled && *final(self) == *old(self),
            !cancelled && sample_is_error(sample) ==> r == StepOutcome::DeviceError && *final(self)
                == *old(self),
            !cancelled && !sample_is_error(sample) ==> ({
                let w = next_window(old(self).buffer@, sample_point(sample));
                &&& (gate_open(w) ==> final(self).match_attempts == old(self).match_attempts + 1)
                &&& (!gate_open(w) ==> final(self).match_attempts == old(self).match_attempts
                    && r == StepOutcome::Sampling && final(self).buffer@ == w)
                &&& (gate_open(w) ==> match detect_spec(
                    w,
                    template_views(old(self).templates@),
                    GUESS_THRESHOLD as int,
                ) {
                    Some(sh) => r == StepOutcome::Recognized(sh) && final(self).buffer@
                        == Seq::<Point>::empty(),
                    None => r == StepOutcome::Sampling && final(self).buffer@ == w,
                })
            }),
    {
        if cancelled {
            return StepOutcome::Cancelled;
        }
        let p = match sample {
            PointerSample::Error => {
                return StepOutcome::DeviceError;
            }
            PointerSample::Position { x, y } => Point { x, y },
        };
        if self.buffer.len() == POINTS_PER_FIGURE {
            self.buffer.remove(0);
            proof {
                assert(self.buffer@ =~= old(self).buffer@.subrange(
                    1,
                    old(self).buffer@.len() as int,
                ));
            }
        }
        self.buffer.push(p);
        proof {
            assert(self.buffer@ == next_window(old(self).buffer@, sample_point(sample)));
        }
        if self.buffer.len() == POINTS_PER_FIGURE && !all_points_near(&self.buffer) {
            self.match_attempts = self.match_attempts + 1;
            let detected = detect_shape(&self.buffer, &self.templates, GUESS_THRESHOLD);
            match detected {
                Some(sh) => {
                    self.buffer = Vec::new();
                    StepOutcome::Recognized(sh)
                }
                None => StepOutcome::Sampling,
            }
        } else {
            StepOutcome::Sampling
        }
    }
}

/// Classification requires a full buffer: while the buffer holds fewer
/// than `POINTS_PER_FIGURE` points, `gate_open` is false.
pub proof fn lemma_gate_needs_full_buffer(buf: Seq<Point>)
    ensures
        buf.len() != POINTS_PER_FIGURE as int ==> !gate_open(buf),
{
}

/// A stationary pointer never reaches the matcher: when every point of
/// the window lies within the movement threshold of its first point, the
/// gate stays shut, so `step` leaves the attempt counter untouched.
pub proof fn lemma_stationary_never_matched(buf: Seq<Point>)
    ensures
        all_near_spec(buf) ==> !gate_open(buf),
{
}

} // verus!
