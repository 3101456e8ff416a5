//! Rule-based autotiling of semantic tile grids and chunk-based map assembly.

pub mod types;
pub mod ldtk;
pub mod autotile;
pub mod grid;
pub mod transformer;
pub mod map_utils;
pub mod chunk;
pub mod builder;
pub mod utils;
