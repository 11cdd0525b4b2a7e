//! Exact-arithmetic easing curves: smooth, interruptible transitions of a
//! scalar value over time.
//!
//! A transition is described by its boundary conditions (start value, end
//! value, start time, end time, initial velocity). The evaluator rescales the
//! problem to a unit-duration, unit-displacement domain, evaluates either a
//! two-segment constant-acceleration parabola or, for large normalized
//! velocities, a linear-acceleration cubic, and maps the result back.
//! An `InterruptableEaser` composes repeated retargeting so that value and
//! velocity stay continuous across retargeting events.
//!
//! All quantities are exact rational numbers, so every contract is an exact
//! statement about the returned value.

pub mod rat;
pub mod sqrt;
pub mod curve;
pub mod evaluator;
pub mod easer;
