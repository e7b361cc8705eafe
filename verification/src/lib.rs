//! Strange attractors: orbit bookkeeping, density fields and orbit files.
//!
//! Real numbers travel through this library as IEEE 754 binary64 bit
//! patterns ([`scalar::Scalar`]). The library never does arithmetic on them:
//! every operation on reals (a recurrence formula, the derivation of a
//! bounding box, the mapping of a coordinate to a pixel, a decimal rendering)
//! is a function that the caller hands in, and each contract says how the
//! result is built from what those functions returned.
//!
//! - [`attractor`], [`clifford`], [`dejong`]: the attractors themselves.
//! - [`orbit`]: how a history grows.
//! - [`density`], [`grid`]: from a history to a normalized density field.
//! - [`orbit_text`]: the plain-text orbit file.
//! - [`bookmarks`]: the file of parameter sets worth coming back to.
//! - [`color`]: packed ARGB pixels.
pub mod attractor;
pub mod bookmarks;
pub mod clifford;
pub mod color;
pub mod dejong;
pub mod density;
pub mod grid;
pub mod orbit;
pub mod orbit_text;
pub mod scalar;

pub use attractor::{Attractor, AttractorError};
pub use clifford::CliffordAttractor;
pub use color::{argb_to_u32, u32_to_argb};
pub use dejong::DeJongAttractor;
pub use density::{Density, Histogram};
pub use grid::xy2idx;
pub use scalar::{Interval, Parameters, Point, Scalar};
