//! Tile and clipmap logic of a 3D OpenStreetMap terrain viewer.
pub mod tile;
pub mod clipmap;
pub mod tile_cache;
pub mod imagery;
pub mod terrain;
pub mod vector_tile;
pub mod mvt_tile;
pub mod mesh;
pub mod camera;
