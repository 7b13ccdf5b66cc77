//! Verified core of a Monte Carlo path tracer: PPM output encoding and
//! scan order, the sphere root and nearest-hit rules, and the
//! integrator's bounce decisions.
pub mod ppm;
pub mod hits;
pub mod integrator;
