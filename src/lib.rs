//! Targeting engine for a shooter that fires colored tokens at a queue of
//! colored tokens travelling along a fixed path.
//!
//! All lengths are fixed-point integers in hundredths of a path unit, so the
//! path's unit spacing, the token radius and every comparison are exact.

pub mod geometry;
pub mod curve;
pub mod curve_file;
pub mod model;
pub mod visibility;
pub mod sequence;
pub mod predict;
pub mod bot;
pub mod decode;
