//! Classification of GPS ski tracks into coloured segments and the
//! bucketing of those segments into a Web-Mercator tile pyramid.
//!
//! All quantities are fixed-point integers: coordinates in units of
//! 1e-7 degree, lengths in millimetres, gradients in parts per million.
//! Whatever needs trigonometry (great-circle distances, the cosine of a
//! latitude, the Mercator projection) is computed by the caller and handed
//! in as such integers.

pub mod geo;
pub mod buckets;
pub mod planar;
pub mod gradient;
pub mod score;
pub mod color;
pub mod segments;
pub mod lift_index;
pub mod densify;
pub mod classify;
pub mod tiles;
