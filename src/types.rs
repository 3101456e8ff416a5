//! Small value types shared by the resolver and the map builder.
use vstd::prelude::*;

verus! {

/// A flat grid of values, addressed as `grid[row][col]`.
pub type MatrixType<T> = Vec<Vec<T>>;

/// The ground type of a semantic cell inside a chunk template.
#[derive(PartialEq, Eq, Structural, Clone, Copy, Debug)]
pub enum IntgridType {
    Road,
    Dirt,
    Fence,
    Empty,
}

/// The semantic value of each ground type.
pub open spec fn intgrid_value(t: IntgridType) -> i64 {
    match t {
        IntgridType::Road => 1,
        IntgridType::Dirt => 2,
        IntgridType::Fence => 3,
        IntgridType::Empty => 0,
    }
}

/// The ground type a semantic value stands for; unknown values are empty ground.
pub open spec fn intgrid_of(v: i64) -> IntgridType {
    if v == 1 {
        IntgridType::Road
    } else if v == 2 {
        IntgridType::Dirt
    } else if v == 3 {
        IntgridType::Fence
    } else {
        IntgridType::Empty
    }
}

impl IntgridType {
    pub fn to_i64(&self) -> (r: i64)
        ensures
            r == intgrid_value(*self),
    {
        match self {
            IntgridType::Road => 1,
            IntgridType::Dirt => 2,
            IntgridType::Fence => 3,
            IntgridType::Empty => 0,
        }
    }

    pub fn from_value(value: &i64) -> (r: IntgridType)
        ensures
            r == intgrid_of(*value),
    {
        match *value {
            1 => IntgridType::Road,
            2 => IntgridType::Dirt,
            3 => IntgridType::Fence,
            _ => IntgridType::Empty,
        }
    }
}

impl From<&i64> for IntgridType {
    fn from(value: &i64) -> (r: IntgridType) {
        IntgridType::from_value(value)
    }
}

impl vstd::std_specs::convert::FromSpecImpl<&i64> for IntgridType {
    open spec fn obeys_from_spec() -> bool {
        true
    }

    open spec fn from_spec(v: &i64) -> IntgridType {
        intgrid_of(*v)
    }
}

/// A resolved tile: a tile identifier (0 is the empty tile) and its mirroring.
#[derive(PartialEq, Eq, Structural, Clone, Copy, Debug)]
pub struct Tile {
    pub value: i64,
    pub flip_x: bool,
    pub flip_y: bool,
}

/// The empty tile.
pub open spec fn empty_tile() -> Tile {
    Tile { value: 0, flip_x: false, flip_y: false }
}

impl Tile {
    /// An unmirrored tile with the given identifier.
    pub fn new(value: i64) -> (r: Tile)
        ensures
            r == (Tile { value, flip_x: false, flip_y: false }),
    {
        Tile { value, flip_x: false, flip_y: false }
    }

    pub fn to_i64(&self) -> (r: i64)
        ensures
            r == self.value,
    {
        self.value
    }

    /// Whether the tile holds no tile identifier.
    pub fn is_empty(&self) -> (r: bool)
        ensures
            r == (self.value == 0),
    {
        self.value == 0
    }
}

impl Default for Tile {
    fn default() -> (r: Tile)
        ensures
            r == empty_tile(),
    {
        Tile::new(0)
    }
}

/// The kind of obstacle placed on a chunk slot.
#[derive(PartialEq, Eq, Structural, Clone, Copy, Debug)]
pub enum ObstacleType {
    RoadWork,
    WatterPuddle,
    Unknown,
}

/// The obstacle kind a value of the obstacle layer stands for.
pub open spec fn obstacle_of(v: i64) -> ObstacleType {
    if v == 1 {
        ObstacleType::RoadWork
    } else if v == 2 {
        ObstacleType::WatterPuddle
    } else {
        ObstacleType::Unknown
    }
}

impl ObstacleType {
    pub fn from_value(value: &i64) -> (r: ObstacleType)
        ensures
            r == obstacle_of(*value),
    {
        match *value {
            1 => ObstacleType::RoadWork,
            2 => ObstacleType::WatterPuddle,
            _ => ObstacleType::Unknown,
        }
    }
}

/// An element-wise copy of a list.
pub(crate) fn copy_vec<T: Copy>(v: &Vec<T>) -> (r: Vec<T>)
    ensures
        r@ == v@,
{
    let mut out: Vec<T> = Vec::new();
    let mut i: usize = 0;
    while i < v.len()
        invariant
            i <= v@.len(),
            out@ == v@.take(i as int),
        decreases v@.len() - i,
    {
        out.push(v[i]);
        assert(out@ =~= v@.take(i as int + 1));
        i = i + 1;
    }
    assert(v@.take(i as int) =~= v@);
    out
}

} // verus!
