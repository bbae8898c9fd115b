//! Hex-grid world core: positions, weighted grids with path search, chunked
//! procedural world generation, structure placement and a rule engine.

pub mod area;
pub mod grid;
pub mod map;
pub mod position;
pub mod rng;
mod search;
pub mod structure;
pub mod template;

pub use grid::{HexGrid, TerrainType};
pub use map::{BiomeType, MapGenerator, WorldMap};
pub use position::{Direction, HexPosition};
pub use template::TemplateEngine;
