//! Navigation meshes over triangulated maps: edges and triangles keyed by
//! their corner points, the adjacency graph between triangles, shortest
//! routes through that graph, and the text format that describes a map.

pub mod point;
pub mod edge;
pub mod nested;
pub mod nav_mesh;
pub mod shape_math;
pub mod triangle_stuff;
pub mod fnav;
