//! Gesture-gated backup triggering: a verified gesture recognition engine.
//!
//! The crate builds canonical stroke templates for a closed set of symbols,
//! scores a captured pointer stroke against a template set with a
//! translation- and scale-invariant matcher, and drives a bounded sampling
//! loop with movement gating and cooperative cancellation.  The surrounding
//! program (pointer polling, windows, files, audio) lives outside the
//! library and talks to it through plain values.

pub mod geometry;
pub mod trig;
pub mod shape;
pub mod template;
pub mod matcher;
pub mod sampler;
pub mod configuration;
pub mod configuration_gui;
pub mod confirmation_gui;
pub mod sounds;
