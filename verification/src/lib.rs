//! Room-acoustics simulation in saturating fixed-point arithmetic: geometric
//! primitives with ray intersection and specular reflection, a bounce-limited
//! ray tracer, a Monte Carlo room profiler that builds an impulse-response
//! kernel, and an FFT convolution engine that applies the kernel to a signal.
//!
//! Real-valued quantities are represented as fixed-point numbers (an `i64`
//! raw value carrying an implicit power-of-two denominator), so that every
//! arithmetic step has an exact, machine-checked description.

pub mod fixed;
pub mod geometry;
pub mod trig;
pub mod raytracing;
pub mod convolution;
