[package]
name = "navmesh"
version = "0.1.0"
edition = "2021"
publish = false

[dependencies]
pathfinding = "4"
geo = "0.28"
delaunator = "1"
macroquad = "0.4"
