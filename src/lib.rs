//! The parts of a recursive ray tracer that do not depend on floating-point
//! geometry, each proved against its contract:
//!
//! - `hits`: choosing the visible intersection of a ray, ordering the
//!   intersections along it, and the containment walk that tells which media
//!   meet at each surface crossed (the refractive indices n1 and n2);
//! - `grid`: the index bookkeeping of 4x4 and 3x3 matrices (submatrices for
//!   cofactor expansion, the transpose), whatever their entries;
//! - `canvas`: a bounds-checked raster of pixels;
//! - `ppm`: the plain-text PPM layout of a quantised raster;
//! - `tuple_type`: what a homogeneous tuple stands for.
pub mod canvas;
pub mod grid;
pub mod hits;
pub mod ppm;
pub mod tuple_type;
