// Voronoi diagram rendering on an integer grid: nearest-seed classification
// with a cyclic palette, disk-shaped seed markers, random seed placement and
// encoding as a binary pixel map.
pub mod geometry;
pub mod image;
pub mod voronoi;
pub mod ppm;
pub mod seeds;
pub mod config;
