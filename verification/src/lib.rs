//! The integer side of a ray tracer: the pixel grid that a render fills, the
//! plain-text and compressed encodings of a finished grid, the choice between
//! them, and the rule by which a light path goes on or ends.
//!
//! Everything here works on integers and bytes. The numerical kernel of a
//! renderer (vectors, intersections, scattering) produces the colours and
//! casts the rays; this crate keeps the colours in place, turns quantized
//! colours into output, and bounds the work for each path.

pub mod canvas;
pub mod dimensions;
pub mod output;
pub mod png;
pub mod ppm;
pub mod renderer;
