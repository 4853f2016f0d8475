//! A deterministic light-gathering ray tracer over triangles with exact
//! integer geometry and fixed-point colours.

pub mod vector;
pub mod surface;
pub mod geom;
pub mod tracer;
pub mod shapes;
