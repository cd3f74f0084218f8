//! Piecewise-cubic spline interpolation over exact rational arithmetic.
//!
//! Given an ordered sequence of scalar control values, the solver builds the
//! dense linear system of interpolation, smoothness and clamped-end
//! constraints, solves it by Gaussian elimination, and returns one cubic
//! polynomial per segment. A verified checker guarantees that every returned
//! polynomial sequence satisfies the constraints exactly. The sampler
//! evaluates per-segment polynomial pairs at a fixed number of parameter
//! steps to produce a dense point sequence.

pub mod poly;
pub mod rational;
pub mod sampler;
pub mod solver;
