//! Chunks: fixed-size prefabricated blocks of tiles placed on the world grid.
use vstd::prelude::*;

use crate::ldtk::str_eq;
use crate::types::{copy_vec, IntgridType, Tile};

verus! {

/// Side of a chunk, in cells.
pub const CHUNK_SIZE: i64 = 9;

/// Side of a chunk, in pixels.
pub const PIXEL_CHUNK_SIZE: i64 = 144;

#[derive(PartialEq, Eq, Structural, Clone, Copy, Debug, Hash)]
pub enum RoadChunkType {
    Horizontal,
    HorizontalJUp,
    HorizontalJDown,
    Vertical,
    VerticalJLeft,
    VerticalJRight,
    Turn,
}

/// What a chunk holds.
#[derive(PartialEq, Eq, Structural, Clone, Copy, Debug, Hash)]
pub enum ChunkType {
    Road(RoadChunkType),
    House,
    PostOffice,
    Empty,
}

/// A side of a chunk through which it connects to a neighboring chunk.
#[derive(PartialEq, Eq, Structural, Clone, Copy, Debug, Hash)]
pub enum ChunkConnextion {
    Top,
    Right,
    Bottom,
    Left,
}

/// Where a house stands inside its chunk, in pixels.
#[derive(PartialEq, Eq, Structural, Clone, Copy, Debug)]
pub struct House {
    pub x: i64,
    pub y: i64,
}

/// The chunk type a template level's name stands for; unknown names are houses.
pub open spec fn chunk_type_of_name(name: Seq<char>) -> ChunkType {
    if name == "Vertical"@ {
        ChunkType::Road(RoadChunkType::Vertical)
    } else if name == "VerticalJLeft"@ {
        ChunkType::Road(RoadChunkType::VerticalJLeft)
    } else if name == "VerticalJRight"@ {
        ChunkType::Road(RoadChunkType::VerticalJRight)
    } else if name == "Horizontal"@ {
        ChunkType::Road(RoadChunkType::Horizontal)
    } else if name == "HorizontalJUp"@ {
        ChunkType::Road(RoadChunkType::HorizontalJUp)
    } else if name == "HorizontalJDown"@ {
        ChunkType::Road(RoadChunkType::HorizontalJDown)
    } else if name == "Turn"@ {
        ChunkType::Road(RoadChunkType::Turn)
    } else if name == "PostOffice"@ {
        ChunkType::PostOffice
    } else {
        ChunkType::House
    }
}

/// The chunk type a resolved slot value stands for; unknown values are houses.
pub open spec fn chunk_type_of_value(v: i64) -> ChunkType {
    if v == 3 {
        ChunkType::Road(RoadChunkType::Vertical)
    } else if v == 4 {
        ChunkType::Road(RoadChunkType::Horizontal)
    } else if v == 1 || v == 2 || v == 6 || v == 7 {
        ChunkType::Road(RoadChunkType::Turn)
    } else if v == 8 {
        ChunkType::Road(RoadChunkType::VerticalJLeft)
    } else if v == 9 {
        ChunkType::Road(RoadChunkType::HorizontalJUp)
    } else if v == 13 {
        ChunkType::Road(RoadChunkType::VerticalJRight)
    } else if v == 14 {
        ChunkType::Road(RoadChunkType::HorizontalJDown)
    } else if v == 15 {
        ChunkType::PostOffice
    } else {
        ChunkType::House
    }
}

impl ChunkType {
    pub fn from_name(name: &str) -> (r: ChunkType)
        ensures
            r == chunk_type_of_name(name@),
    {
        if str_eq(name, "Vertical") {
            ChunkType::Road(RoadChunkType::Vertical)
        } else if str_eq(name, "VerticalJLeft") {
            ChunkType::Road(RoadChunkType::VerticalJLeft)
        } else if str_eq(name, "VerticalJRight") {
            ChunkType::Road(RoadChunkType::VerticalJRight)
        } else if str_eq(name, "Horizontal") {
            ChunkType::Road(RoadChunkType::Horizontal)
        } else if str_eq(name, "HorizontalJUp") {
            ChunkType::Road(RoadChunkType::HorizontalJUp)
        } else if str_eq(name, "HorizontalJDown") {
            ChunkType::Road(RoadChunkType::HorizontalJDown)
        } else if str_eq(name, "Turn") {
            ChunkType::Road(RoadChunkType::Turn)
        } else if str_eq(name, "PostOffice") {
            ChunkType::PostOffice
        } else {
            ChunkType::House
        }
    }

    pub fn from_value(value: &i64) -> (r: ChunkType)
        ensures
            r == chunk_type_of_value(*value),
    {
        match *value {
            3 => ChunkType::Road(RoadChunkType::Vertical),
            4 => ChunkType::Road(RoadChunkType::Horizontal),
            1 | 2 | 6 | 7 => ChunkType::Road(RoadChunkType::Turn),
            8 => ChunkType::Road(RoadChunkType::VerticalJLeft),
            9 => ChunkType::Road(RoadChunkType::HorizontalJUp),
            13 => ChunkType::Road(RoadChunkType::VerticalJRight),
            14 => ChunkType::Road(RoadChunkType::HorizontalJDown),
            15 => ChunkType::PostOffice,
            _ => ChunkType::House,
        }
    }
}

impl From<&str> for ChunkType {
    fn from(value: &str) -> (r: ChunkType) {
        ChunkType::from_name(value)
    }
}

impl vstd::std_specs::convert::FromSpecImpl<&str> for ChunkType {
    open spec fn obeys_from_spec() -> bool {
        true
    }

    open spec fn from_spec(v: &str) -> ChunkType {
        chunk_type_of_name(v@)
    }
}

impl From<&i64> for ChunkType {
    fn from(value: &i64) -> (r: ChunkType) {
        ChunkType::from_value(value)
    }
}

impl vstd::std_specs::convert::FromSpecImpl<&i64> for ChunkType {
    open spec fn obeys_from_spec() -> bool {
        true
    }

    open spec fn from_spec(v: &i64) -> ChunkType {
        chunk_type_of_value(*v)
    }
}

/// A chunk: its semantic cells and resolved tiles (row-major, `CHUNK_SIZE`
/// per row), where it stands in the world, and how it connects.
#[derive(Debug)]
pub struct Chunk {
    pub intgrid_tiles: Vec<IntgridType>,
    pub tileset_tiles: Vec<Tile>,
    pub position: (i64, i64),
    pub chunk_type: ChunkType,
    pub connextions: Vec<ChunkConnextion>,
    pub house: Option<House>,
    pub trees: Vec<(i64, i64)>,
    pub is_end: bool,
    pub flip_x: bool,
    pub flip_y: bool,
}

/// A chunk as plain values.
pub ghost struct ChunkView {
    pub intgrid_tiles: Seq<IntgridType>,
    pub tileset_tiles: Seq<Tile>,
    pub position: (i64, i64),
    pub chunk_type: ChunkType,
    pub connextions: Seq<ChunkConnextion>,
    pub house: Option<House>,
    pub trees: Seq<(i64, i64)>,
    pub is_end: bool,
    pub flip_x: bool,
    pub flip_y: bool,
}

impl View for Chunk {
    type V = ChunkView;

    open spec fn view(&self) -> ChunkView {
        ChunkView {
            intgrid_tiles: self.intgrid_tiles@,
            tileset_tiles: self.tileset_tiles@,
            position: self.position,
            chunk_type: self.chunk_type,
            connextions: self.connextions@,
            house: self.house,
            trees: self.trees@,
            is_end: self.is_end,
            flip_x: self.flip_x,
            flip_y: self.flip_y,
        }
    }
}

/// The empty chunk.
pub open spec fn empty_chunk() -> ChunkView {
    ChunkView {
        intgrid_tiles: Seq::empty(),
        tileset_tiles: Seq::empty(),
        position: (0, 0),
        chunk_type: ChunkType::Empty,
        connextions: Seq::empty(),
        house: None,
        trees: Seq::empty(),
        is_end: false,
        flip_x: false,
        flip_y: false,
    }
}

/// The position of a cell in a row-major chunk.
pub open spec fn chunk_index(x: int, y: int) -> int {
    y * CHUNK_SIZE + x
}

impl Chunk {
    /// The empty chunk.
    pub fn empty() -> (r: Chunk)
        ensures
            r@ == empty_chunk(),
    {
        Chunk {
            intgrid_tiles: Vec::new(),
            tileset_tiles: Vec::new(),
            position: (0, 0),
            chunk_type: ChunkType::Empty,
            connextions: Vec::new(),
            house: None,
            trees: Vec::new(),
            is_end: false,
            flip_x: false,
            flip_y: false,
        }
    }

    /// A copy of the chunk.
    pub fn duplicate(&self) -> (r: Chunk)
        ensures
            r@ == self@,
    {
        Chunk {
            intgrid_tiles: copy_vec(&self.intgrid_tiles),
            tileset_tiles: copy_vec(&self.tileset_tiles),
            position: self.position,
            chunk_type: self.chunk_type,
            connextions: copy_vec(&self.connextions),
            house: self.house,
            trees: copy_vec(&self.trees),
            is_end: self.is_end,
            flip_x: self.flip_x,
            flip_y: self.flip_y,
        }
    }

    /// The position of cell (`x`, `y`) in the row-major cell lists.
    pub fn xy_idx(&self, x: i32, y: i32) -> (r: usize)
        requires
            0 <= x,
            0 <= y,
            chunk_index(x as int, y as int) <= usize::MAX,
        ensures
            r == chunk_index(x as int, y as int),
    {
        let index: u64 = (y as u64) * 9 + (x as u64);
        index as usize
    }

    /// The semantic cell at (`x`, `y`), if the chunk has one there.
    pub fn intgrid_at(&self, x: i32, y: i32) -> (r: Option<&IntgridType>)
        ensures
            r == (if 0 <= x && 0 <= y && chunk_index(x as int, y as int) < self.intgrid_tiles@.len() {
                Some(&self.intgrid_tiles@[chunk_index(x as int, y as int)])
            } else {
                None
            }),
    {
        if x < 0 || y < 0 {
            return None;
        }
        let index: u64 = (y as u64) * 9 + (x as u64);
        if index < self.intgrid_tiles.len() as u64 {
            Some(&self.intgrid_tiles[index as usize])
        } else {
            None
        }
    }

    /// The resolved tile at (`x`, `y`), if the chunk has one there.
    pub fn tile_at(&self, x: i32, y: i32) -> (r: Option<&Tile>)
        ensures
            r == (if 0 <= x && 0 <= y && chunk_index(x as int, y as int) < self.tileset_tiles@.len() {
                Some(&self.tileset_tiles@[chunk_index(x as int, y as int)])
            } else {
                None
            }),
    {
        if x < 0 || y < 0 {
            return None;
        }
        let index: u64 = (y as u64) * 9 + (x as u64);
        if index < self.tileset_tiles.len() as u64 {
            Some(&self.tileset_tiles[index as usize])
        } else {
            None
        }
    }

    pub fn is_empty(&self) -> (r: bool)
        ensures
            r == (self.chunk_type == ChunkType::Empty),
    {
        self.chunk_type == ChunkType::Empty
    }

    pub fn has_connexion(&self, connexion: ChunkConnextion) -> (r: bool)
        ensures
            r == self.connextions@.contains(connexion),
    {
        let mut i: usize = 0;
        while i < self.connextions.len()
            invariant
                i <= self.connextions@.len(),
                forall|j: int| 0 <= j < i ==> self.connextions@[j] != connexion,
            decreases self.connextions@.len() - i,
        {
            if self.connextions[i] == connexion {
                return true;
            }
            i = i + 1;
        }
        false
    }
}

impl Default for Chunk {
    fn default() -> (r: Chunk)
        ensures
            r@ == empty_chunk(),
    {
        Chunk::empty()
    }
}

} // verus!
