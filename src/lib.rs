//! Integer core of a Monte-Carlo path tracer: render settings, the pixel
//! buffer and its assembly from scanlines, per-worker seeds, the bounce budget
//! of the integrator, and the plain-PPM encoding of the finished image.

pub mod image;
pub mod integrator;
pub mod ppm;
pub mod ray;
pub mod schedule;
pub mod settings;
pub mod transform;
