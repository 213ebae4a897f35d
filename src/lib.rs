//! Integer and structural core of a Monte-Carlo ray tracer: render settings,
//! an order-preserving encoding of hit distances, the bounding volume
//! hierarchy and flat-list nearest-hit search, Perlin lattice tables,
//! texture lookups and the pixel schedule.
pub mod config;
pub mod hits;
pub mod bvh;
pub mod integrator;
pub mod noise;
pub mod order;
pub mod render;
pub mod texture;
