//! Verified core of an escape-time fractal renderer.
//!
//! The crate owns the integer-valued logic of the renderer: classifying an
//! iteration outcome, mapping it to a pixel intensity, laying out the image
//! buffer, and partitioning the rows into disjoint bands for parallel
//! workers. The floating-point evaluation of the escape recurrence and all
//! file output live outside the verified core.

pub mod bands;
pub mod escape;
pub mod raster;
