//! The map builder: a catalog of chunk templates, and the placement of those
//! templates on the chunk slots of a level.
use vstd::prelude::*;

use crate::autotile::lemma_row_col;
use crate::chunk::{
    chunk_type_of_name, chunk_type_of_value, empty_chunk, Chunk, ChunkConnextion, ChunkType,
    ChunkView, House, PIXEL_CHUNK_SIZE,
};
use crate::grid::{cell_or, grid_view};
use crate::ldtk::{cells_of, first_layer_from, EntityInstance, Level, LayerInstance, Project};
use crate::map_utils::{csv_grid, inline_csv_to_matrix};
use crate::transformer::{
    composite, count_resolved_layers, generate_level, project_is_well_formed, project_wf,
    lemma_resolved_count, lemma_resolved_shape, resolved_count, resolved_layers,
};
use crate::types::{empty_tile, intgrid_of, obstacle_of, IntgridType, MatrixType, ObstacleType, Tile};

verus! {

/// Why a map could not be built from its content.
#[derive(PartialEq, Eq, Structural, Clone, Copy, Debug)]
pub enum BuildError {
    /// A level has no layer of a name the builder reads, or the project
    /// resolves too few layers.
    MissingLayer,
    /// A level's size does not fit its cell lists, or is out of range.
    MalformedLevel,
    /// An entity lacks a usable pixel position.
    MalformedEntity,
    /// A rule's pattern is not an odd square.
    MalformedRule,
    /// The level index is out of range.
    LevelOutOfRange,
    /// A slot asks for a chunk type that has no template.
    MissingChunkTemplate,
}

/// The first layer instance of the level named `name`.
pub open spec fn layer_named(level: Level, name: Seq<char>) -> Option<LayerInstance> {
    match level.layer_instances {
        Some(ls) => match first_layer_from(ls@, name, 0) {
            Some(i) => Some(ls@[i]),
            None => None,
        },
        None => None,
    }
}

/// Whether an entity has a pixel position.
pub open spec fn has_position(e: EntityInstance) -> bool {
    e.px@.len() >= 2
}

/// Whether an entity has a pixel position whose height can be negated.
pub open spec fn has_tree_position(e: EntityInstance) -> bool {
    e.px@.len() >= 2 && e.px@[1] != i64::MIN
}

/// The house of a template: the last house entity, if any.
pub open spec fn house_of(entities: Seq<EntityInstance>) -> Option<House> {
    if entities.len() == 0 {
        None
    } else {
        Some(House { x: entities.last().px@[0], y: entities.last().px@[1] })
    }
}

/// The trees of a template, their height axis pointing up.
pub open spec fn trees_of(entities: Seq<EntityInstance>) -> Seq<(i64, i64)> {
    entities.map_values(|e: EntityInstance| (e.px@[0], (-e.px@[1]) as i64))
}

/// The resolved tiles of a `width` x `height` grid, stacked over all layers.
pub open spec fn stacked_tiles(project: Project, csv: Seq<i64>, width: int, height: int) -> Seq<Seq<Tile>> {
    composite(resolved_layers(project, csv_grid(csv, height, width), None), width, height)
}

/// The template a level of the chunk project describes, or why it cannot be built.
pub open spec fn template_result(level: Level, project: Project) -> Result<ChunkView, BuildError> {
    match (layer_named(level, "Intgrid"@), layer_named(level, "Houses"@), layer_named(level, "Trees"@)) {
        (Some(cells), Some(houses), Some(trees)) => {
            let h = cells_of(level.px_hei);
            let w = cells_of(level.px_wid);
            if !(1 <= h && 0 <= w && h * w <= cells.int_grid_csv@.len()) {
                Err(BuildError::MalformedLevel)
            } else if !(forall|i: int| 0 <= i < houses.entity_instances@.len() ==> has_position(#[trigger] houses.entity_instances@[i]))
                || !(forall|i: int| 0 <= i < trees.entity_instances@.len() ==> has_tree_position(#[trigger] trees.entity_instances@[i])) {
                Err(BuildError::MalformedEntity)
            } else {
                Ok(ChunkView {
                    intgrid_tiles: cells.int_grid_csv@.map_values(|v: i64| intgrid_of(v)),
                    tileset_tiles: stacked_tiles(project, cells.int_grid_csv@, w, h).flatten(),
                    position: (0, 0),
                    chunk_type: chunk_type_of_name(level.identifier@),
                    connextions: Seq::empty(),
                    house: house_of(houses.entity_instances@),
                    trees: trees_of(trees.entity_instances@),
                    is_end: false,
                    flip_x: false,
                    flip_y: false,
                })
            }
        },
        _ => Err(BuildError::MissingLayer),
    }
}

/// The templates of the first `i` levels, keyed by chunk type (a later level
/// replaces an earlier one of the same type), or the first level's error.
pub open spec fn templates_upto(levels: Seq<Level>, project: Project, i: int) -> Result<Map<ChunkType, ChunkView>, BuildError>
    decreases i,
{
    if i <= 0 {
        Ok(Map::empty())
    } else {
        match templates_upto(levels, project, i - 1) {
            Err(e) => Err(e),
            Ok(m) => match template_result(levels[i - 1], project) {
                Err(e) => Err(e),
                Ok(c) => Ok(m.insert(c.chunk_type, c)),
            },
        }
    }
}

/// The templates of a chunk project, or why they cannot be built.
pub open spec fn catalog(project: Project) -> Result<Map<ChunkType, ChunkView>, BuildError> {
    if !project_wf(project) {
        Err(BuildError::MalformedRule)
    } else {
        templates_upto(project.levels@, project, project.levels@.len() as int)
    }
}

proof fn lemma_error_persists(levels: Seq<Level>, project: Project, i: int, j: int)
    requires
        0 <= i <= j,
        templates_upto(levels, project, i) is Err,
    ensures
        templates_upto(levels, project, j) == templates_upto(levels, project, i),
    decreases j - i,
{
    if i < j {
        lemma_error_persists(levels, project, i, j - 1);
    }
}

/// No two chunks of the list have the same type.
pub open spec fn unique_types(v: Seq<Chunk>) -> bool {
    forall|a: int, b: int| 0 <= a < v.len() && 0 <= b < v.len() && a != b ==> v[a].chunk_type != v[b].chunk_type
}

/// A list of chunks with unique types, keyed by type.
pub open spec fn template_map(v: Seq<Chunk>) -> Map<ChunkType, ChunkView> {
    Map::new(
        |t: ChunkType| exists|k: int| 0 <= k < v.len() && v[k].chunk_type == t,
        |t: ChunkType| v[choose|k: int| 0 <= k < v.len() && v[k].chunk_type == t]@,
    )
}

proof fn lemma_template_map_at(v: Seq<Chunk>, k: int)
    requires
        unique_types(v),
        0 <= k < v.len(),
    ensures
        template_map(v).contains_key(v[k].chunk_type),
        template_map(v)[v[k].chunk_type] == v[k]@,
{
    let t = v[k].chunk_type;
    assert(exists|j: int| 0 <= j < v.len() && v[j].chunk_type == t);
    let j = choose|j: int| 0 <= j < v.len() && v[j].chunk_type == t;
    assert(j == k);
}

/// The position of the first chunk of type `t`, if any.
fn find_template(templates: &Vec<Chunk>, t: ChunkType) -> (r: Option<usize>)
    ensures
        match r {
            Some(k) => k < templates@.len() && templates@[k as int].chunk_type == t,
            None => forall|k: int| 0 <= k < templates@.len() ==> templates@[k].chunk_type != t,
        },
{
    let mut i: usize = 0;
    while i < templates.len()
        invariant
            i <= templates@.len(),
            forall|k: int| 0 <= k < i ==> templates@[k].chunk_type != t,
        decreases templates@.len() - i,
    {
        if templates[i].chunk_type == t {
            return Some(i);
        }
        i = i + 1;
    }
    None
}

/// Adds a template, replacing the one of the same type.
fn insert_template(templates: &mut Vec<Chunk>, chunk: Chunk)
    requires
        unique_types(old(templates)@),
    ensures
        unique_types(final(templates)@),
        template_map(final(templates)@) == template_map(old(templates)@).insert(chunk.chunk_type, chunk@),
{
    let ghost before = templates@;
    let t = chunk.chunk_type;
    let ghost cv = chunk@;
    match find_template(templates, t) {
        Some(k) => {
            templates.set(k, chunk);
            proof {
                let after = templates@;
                assert(after == before.update(k as int, chunk));
                assert(unique_types(after));
                assert forall|u: ChunkType| #[trigger] template_map(after).contains_key(u)
                    == template_map(before).insert(t, cv).contains_key(u) by {
                    if template_map(before).contains_key(u) {
                        let j = choose|j: int| 0 <= j < before.len() && before[j].chunk_type == u;
                        assert(after[j].chunk_type == u);
                    }
                    if template_map(after).contains_key(u) {
                        let j = choose|j: int| 0 <= j < after.len() && after[j].chunk_type == u;
                        if j != k {
                            assert(before[j].chunk_type == u);
                        }
                    }
                }
                assert forall|u: ChunkType| #[trigger] template_map(after).contains_key(u)
                    implies template_map(after)[u] == template_map(before).insert(t, cv)[u] by {
                    let j = choose|j: int| 0 <= j < after.len() && after[j].chunk_type == u;
                    lemma_template_map_at(after, j);
                    if j != k {
                        lemma_template_map_at(before, j);
                    }
                }
                assert(template_map(after) =~= template_map(before).insert(t, cv));
            }
        },
        None => {
            templates.push(chunk);
            proof {
                let after = templates@;
                assert(after == before.push(chunk));
                assert(unique_types(after));
                assert forall|u: ChunkType| #[trigger] template_map(after).contains_key(u)
                    == template_map(before).insert(t, cv).contains_key(u) by {
                    if template_map(before).contains_key(u) {
                        let j = choose|j: int| 0 <= j < before.len() && before[j].chunk_type == u;
                        assert(after[j].chunk_type == u);
                    }
                    if u == t {
                        assert(after[before.len() as int].chunk_type == u);
                    }
                    if template_map(after).contains_key(u) {
                        let j = choose|j: int| 0 <= j < after.len() && after[j].chunk_type == u;
                        if j < before.len() {
                            assert(before[j].chunk_type == u);
                        }
                    }
                }
                assert forall|u: ChunkType| #[trigger] template_map(after).contains_key(u)
                    implies template_map(after)[u] == template_map(before).insert(t, cv)[u] by {
                    let j = choose|j: int| 0 <= j < after.len() && after[j].chunk_type == u;
                    lemma_template_map_at(after, j);
                    if j < before.len() {
                        lemma_template_map_at(before, j);
                    }
                }
                assert(template_map(after) =~= template_map(before).insert(t, cv));
            }
        },
    }
}


/// The layer whose tiles choose the chunk of each slot.
pub const BASE_LAYER: usize = 2;

/// The layer whose tiles choose the decor chunk of each slot.
pub const DECOR_LAYER: usize = 0;

/// The slot value that marks the chunk to the right of it as the end.
pub const END_VALUE: i64 = 15;

/// The tiles one resolved layer of a level gives its `width` x `height` slots.
pub open spec fn slot_tiles(project: Project, csv: Seq<i64>, width: int, height: int, layer: usize) -> Seq<Seq<Tile>> {
    resolved_layers(project, csv_grid(csv, height, width), None)[layer as int]
}

/// Whether the slot at column `x`, row `y` exists and is not empty.
pub open spec fn occupied(tiles: Seq<Seq<Tile>>, x: int, y: int) -> bool {
    cell_or(tiles, y, x, empty_tile()).value != 0
}

/// The sides of slot (`x`, `y`) that touch an occupied slot: top, bottom,
/// right, left, in that order.
pub open spec fn connections_spec(tiles: Seq<Seq<Tile>>, x: int, y: int) -> Seq<ChunkConnextion> {
    (if occupied(tiles, x, y - 1) { seq![ChunkConnextion::Top] } else { Seq::empty() })
        + (if occupied(tiles, x, y + 1) { seq![ChunkConnextion::Bottom] } else { Seq::empty() })
        + (if occupied(tiles, x + 1, y) { seq![ChunkConnextion::Right] } else { Seq::empty() })
        + (if occupied(tiles, x - 1, y) { seq![ChunkConnextion::Left] } else { Seq::empty() })
}

/// The world position of slot (`x`, `y`), in pixels; rows go down.
pub open spec fn slot_position(x: int, y: int) -> (i64, i64) {
    ((x * PIXEL_CHUNK_SIZE) as i64, (-(y * PIXEL_CHUNK_SIZE)) as i64)
}

/// The chunk placed on slot (`x`, `y`): the template of the slot's chunk
/// type, moved to the slot, connected to its occupied neighbors, marked as
/// the end when the slot to its left holds the end value, and mirrored as
/// the slot value says.
pub open spec fn placed_chunk(tm: Map<ChunkType, ChunkView>, tiles: Seq<Seq<Tile>>, x: int, y: int) -> ChunkView {
    let v = tiles[y][x].value;
    if v == 0 {
        empty_chunk()
    } else {
        let tpl = tm[chunk_type_of_value(v)];
        ChunkView {
            intgrid_tiles: tpl.intgrid_tiles,
            tileset_tiles: tpl.tileset_tiles,
            position: slot_position(x, y),
            chunk_type: tpl.chunk_type,
            connextions: connections_spec(tiles, x, y),
            house: tpl.house,
            trees: tpl.trees,
            is_end: tpl.is_end || cell_or(tiles, y, x - 1, empty_tile()).value == END_VALUE,
            flip_x: tpl.flip_x || v == 2 || v == 7,
            flip_y: tpl.flip_y || v == 6 || v == 7,
        }
    }
}

/// The decor chunk placed on slot (`x`, `y`): the template moved to the slot.
pub open spec fn decor_chunk(tm: Map<ChunkType, ChunkView>, tiles: Seq<Seq<Tile>>, x: int, y: int) -> ChunkView {
    let v = tiles[y][x].value;
    if v == 0 {
        empty_chunk()
    } else {
        let tpl = tm[chunk_type_of_value(v)];
        ChunkView { position: slot_position(x, y), ..tpl }
    }
}

/// Whether an occupied slot asks for a chunk type without a template.
pub open spec fn template_missing(tm: Map<ChunkType, ChunkView>, tiles: Seq<Seq<Tile>>, width: int, height: int) -> bool {
    exists|x: int, y: int|
        0 <= x < width && 0 <= y < height && (#[trigger] tiles[y][x]).value != 0 && !tm.contains_key(
            chunk_type_of_value(tiles[y][x].value),
        )
}

/// The center of slot (`x`, `y`) where obstacles stand, in pixels.
pub open spec fn obstacle_center(x: int, y: int) -> (i64, i64) {
    ((x * PIXEL_CHUNK_SIZE + PIXEL_CHUNK_SIZE / 2 - 8) as i64, (-(y * PIXEL_CHUNK_SIZE) - PIXEL_CHUNK_SIZE / 2 + 8) as i64)
}

/// The obstacles of the first `k` slots, row-major: one for each occupied
/// slot whose obstacle value is not 0.
pub open spec fn obstacles_upto(
    tm: Map<ChunkType, ChunkView>,
    tiles: Seq<Seq<Tile>>,
    obstacles: Seq<Seq<i64>>,
    width: int,
    k: int,
) -> Seq<ObstacleView>
    decreases k,
{
    if k <= 0 {
        Seq::empty()
    } else {
        let prev = obstacles_upto(tm, tiles, obstacles, width, k - 1);
        let x = (k - 1) % width;
        let y = (k - 1) / width;
        if tiles[y][x].value != 0 && obstacles[y][x] != 0 {
            prev.push(
                ObstacleView {
                    chunk: placed_chunk(tm, tiles, x, y),
                    chunk_center: obstacle_center(x, y),
                    obstacle_type: obstacle_of(obstacles[y][x]),
                },
            )
        } else {
            prev
        }
    }
}

/// Where the player starts after the first `k` slots, row-major: beside the
/// last post office among them, else the origin.
pub open spec fn start_upto(tiles: Seq<Seq<Tile>>, width: int, k: int) -> (i64, i64)
    decreases k,
{
    if k <= 0 {
        (0, 0)
    } else {
        let x = (k - 1) % width;
        let y = (k - 1) / width;
        let v = tiles[y][x].value;
        if v != 0 && chunk_type_of_value(v) == ChunkType::PostOffice {
            (
                (x * PIXEL_CHUNK_SIZE + PIXEL_CHUNK_SIZE + 16) as i64,
                (-(y * PIXEL_CHUNK_SIZE) - PIXEL_CHUNK_SIZE / 2 + 8) as i64,
            )
        } else {
            start_upto(tiles, width, k - 1)
        }
    }
}

/// The obstacles of a list, as plain values.
pub open spec fn obstacle_views(v: Seq<Obstacle>) -> Seq<ObstacleView> {
    v.map_values(|o: Obstacle| o@)
}


/// The base cell list of the `idx`-th level of a project.
pub open spec fn base_csv(maps: Project, idx: int) -> Seq<i64> {
    layer_named(maps.levels@[idx], "Base"@)->0.int_grid_csv@
}

/// The obstacle cell list of the `idx`-th level of a project.
pub open spec fn obstacle_csv(maps: Project, idx: int) -> Seq<i64> {
    layer_named(maps.levels@[idx], "Obstacles"@)->0.int_grid_csv@
}

/// Why the `idx`-th level of `maps` cannot be built with the templates `tm`,
/// if it cannot: checked in this order.
pub open spec fn build_error(maps: Project, tm: Map<ChunkType, ChunkView>, idx: int) -> Option<BuildError> {
    if idx < 0 || idx >= maps.levels@.len() {
        Some(BuildError::LevelOutOfRange)
    } else {
        let level = maps.levels@[idx];
        if layer_named(level, "Base"@) is None || layer_named(level, "Obstacles"@) is None {
            Some(BuildError::MissingLayer)
        } else {
            let h = cells_of(level.px_hei);
            let w = cells_of(level.px_wid);
            if !(1 <= h <= i32::MAX && 0 <= w <= i32::MAX && h * w <= base_csv(maps, idx).len() && h * w
                <= obstacle_csv(maps, idx).len()) {
                Some(BuildError::MalformedLevel)
            } else if !project_wf(maps) {
                Some(BuildError::MalformedRule)
            } else if resolved_count(maps, None) <= BASE_LAYER {
                Some(BuildError::MissingLayer)
            } else if template_missing(tm, slot_tiles(maps, base_csv(maps, idx), w, h, BASE_LAYER), w, h)
                || template_missing(tm, slot_tiles(maps, base_csv(maps, idx), w, h, DECOR_LAYER), w, h) {
                Some(BuildError::MissingChunkTemplate)
            } else {
                None
            }
        }
    }
}

/// Whether `m` is the map of the `idx`-th level of `maps` built with the
/// templates `tm`: its slots, row-major, hold the placed chunks and decor
/// chunks; its obstacles and start position are those of the slots.
pub open spec fn map_of_level(m: WorldMap, maps: Project, tm: Map<ChunkType, ChunkView>, idx: int) -> bool {
    let level = maps.levels@[idx];
    let h = cells_of(level.px_hei);
    let w = cells_of(level.px_wid);
    let tiles = slot_tiles(maps, base_csv(maps, idx), w, h, BASE_LAYER);
    let decor = slot_tiles(maps, base_csv(maps, idx), w, h, DECOR_LAYER);
    let obstacles = csv_grid(obstacle_csv(maps, idx), h, w);
    &&& m.chunk_x == w
    &&& m.chunk_y == h
    &&& m.chunks@.len() == w * h
    &&& forall|k: int| 0 <= k < m.chunks@.len() ==> (#[trigger] m.chunks@[k])@ == placed_chunk(tm, tiles, k % w, k / w)
    &&& m.decor_chunks@.len() == w * h
    &&& forall|k: int| 0 <= k < m.decor_chunks@.len() ==> (#[trigger] m.decor_chunks@[k])@ == decor_chunk(tm, decor, k % w, k / w)
    &&& obstacle_views(m.obstacles@) == obstacles_upto(tm, tiles, obstacles, w, w * h)
    &&& m.start_position == start_upto(tiles, w, w * h)
}

/// Two occupied slots side by side connect: the left one through its right
/// side and the right one through its left side.
pub proof fn lemma_adjacency_symmetric(tiles: Seq<Seq<Tile>>, x: int, y: int)
    requires
        0 <= y < tiles.len(),
        0 <= x,
        x + 1 < tiles[y].len(),
        tiles[y][x].value != 0,
        tiles[y][x + 1].value != 0,
    ensures
        connections_spec(tiles, x, y).contains(ChunkConnextion::Right),
        connections_spec(tiles, x + 1, y).contains(ChunkConnextion::Left),
{
    let a = connections_spec(tiles, x, y);
    let b = connections_spec(tiles, x + 1, y);
    assert(occupied(tiles, x + 1, y));
    assert(occupied(tiles, x, y));
    let pa = (if occupied(tiles, x, y - 1) { seq![ChunkConnextion::Top] } else { Seq::empty() })
        + (if occupied(tiles, x, y + 1) { seq![ChunkConnextion::Bottom] } else { Seq::empty() });
    assert(a == pa + seq![ChunkConnextion::Right] + (if occupied(tiles, x - 1, y) { seq![ChunkConnextion::Left] } else { Seq::empty() }));
    assert(a[pa.len() as int] == ChunkConnextion::Right);
    assert(b[b.len() - 1] == ChunkConnextion::Left);
}

/// In a map built from a level, two occupied slots side by side connect: the
/// chunk on the left records its right side and the chunk on the right
/// records its left side.
pub proof fn lemma_built_neighbors_connect(m: WorldMap, maps: Project, tm: Map<ChunkType, ChunkView>, idx: int, x: int, y: int)
    requires
        build_error(maps, tm, idx) is None,
        map_of_level(m, maps, tm, idx),
        0 <= y < m.chunk_y,
        0 <= x,
        x + 1 < m.chunk_x,
        slot_tiles(maps, base_csv(maps, idx), m.chunk_x as int, m.chunk_y as int, BASE_LAYER)[y][x].value != 0,
        slot_tiles(maps, base_csv(maps, idx), m.chunk_x as int, m.chunk_y as int, BASE_LAYER)[y][x + 1].value != 0,
    ensures
        m.chunks@[y * m.chunk_x + x]@.connextions.contains(ChunkConnextion::Right),
        m.chunks@[y * m.chunk_x + x + 1]@.connextions.contains(ChunkConnextion::Left),
{
    let w = m.chunk_x as int;
    let h = m.chunk_y as int;
    let g = csv_grid(base_csv(maps, idx), h, w);
    let layers = maps.defs.layers@;
    let tiles = slot_tiles(maps, base_csv(maps, idx), w, h, BASE_LAYER);
    lemma_resolved_count(layers, g, None, layers.len() as int);
    lemma_resolved_shape(layers, g, None, layers.len() as int);
    assert(tiles[y].len() == w);
    let k = y * w + x;
    lemma_row_col(k, w, y, x);
    lemma_row_col(k + 1, w, y, x + 1);
    assert(k + 1 < w * h) by (nonlinear_arith)
        requires 0 <= y < h, 0 <= x, x + 1 < w, k == y * w + x;
    assert(m.chunks@[k]@ == placed_chunk(tm, tiles, x, y));
    assert(m.chunks@[k + 1]@ == placed_chunk(tm, tiles, x + 1, y));
    lemma_adjacency_symmetric(tiles, x, y);
}

/// The pixel position of each entity, checked.
fn entities_have_positions(entities: &Vec<EntityInstance>, trees: bool) -> (r: bool)
    ensures
        r == (forall|i: int| 0 <= i < entities@.len() ==> if trees {
            has_tree_position(#[trigger] entities@[i])
        } else {
            has_position(#[trigger] entities@[i])
        }),
{
    let mut i: usize = 0;
    while i < entities.len()
        invariant
            i <= entities@.len(),
            forall|j: int| 0 <= j < i ==> if trees {
                has_tree_position(#[trigger] entities@[j])
            } else {
                has_position(#[trigger] entities@[j])
            },
        decreases entities@.len() - i,
    {
        let px = &entities[i].px;
        if px.len() < 2 || (trees && px[1] == i64::MIN) {
            return false;
        }
        i = i + 1;
    }
    true
}

/// The tiles of a grid, row after row.
fn flatten_tiles(tiles: &MatrixType<Tile>) -> (r: Vec<Tile>)
    ensures
        r@ == grid_view(tiles@).flatten(),
{
    let ghost g = grid_view(tiles@);
    let mut flat: Vec<Tile> = Vec::new();
    let mut y: usize = 0;
    while y < tiles.len()
        invariant
            g == grid_view(tiles@),
            y <= tiles@.len(),
            flat@ == g.take(y as int).flatten(),
        decreases tiles@.len() - y,
    {
        let row = &tiles[y];
        let mut x: usize = 0;
        while x < row.len()
            invariant
                g == grid_view(tiles@),
                y < tiles@.len(),
                *row == tiles@[y as int],
                x <= row@.len(),
                flat@ == g.take(y as int).flatten() + row@.take(x as int),
            decreases row@.len() - x,
        {
            flat.push(row[x]);
            assert(row@.take(x as int + 1) =~= row@.take(x as int).push(row@[x as int]));
            x = x + 1;
        }
        proof {
            assert(g.take(y as int + 1) =~= g.take(y as int).push(g[y as int]));
            g.take(y as int).lemma_flatten_push(g[y as int]);
            assert(row@.take(x as int) =~= row@);
        }
        y = y + 1;
    }
    assert(g.take(y as int) =~= g);
    flat
}

/// Builds the template a level of the chunk project describes.
fn chunk_template(level: &Level, project: &Project) -> (r: Result<Chunk, BuildError>)
    requires
        project_wf(*project),
    ensures
        match r {
            Ok(c) => template_result(*level, *project) == Ok::<ChunkView, BuildError>(c@),
            Err(e) => template_result(*level, *project) == Err::<ChunkView, BuildError>(e),
        },
{
    let cells = match level.get_layer("Intgrid") {
        Some(l) => l,
        None => return Err(BuildError::MissingLayer),
    };
    let houses = match level.get_layer("Houses") {
        Some(l) => l,
        None => return Err(BuildError::MissingLayer),
    };
    let trees = match level.get_layer("Trees") {
        Some(l) => l,
        None => return Err(BuildError::MissingLayer),
    };
    let height = level.tile_y();
    let width = level.tile_x();
    let csv = &cells.int_grid_csv;
    proof {
        assert(-0x4000_0000_0000_0000_0000_0000_0000_0000 <= (height as int) * (width as int) <= 0x4000_0000_0000_0000_0000_0000_0000_0000) by (nonlinear_arith)
            requires i64::MIN <= height <= i64::MAX, i64::MIN <= width <= i64::MAX;
    }
    if height < 1 || width < 0 || (height as i128) * (width as i128) > csv.len() as i128 {
        return Err(BuildError::MalformedLevel);
    }
    if !entities_have_positions(&houses.entity_instances, false) || !entities_have_positions(&trees.entity_instances, true) {
        return Err(BuildError::MalformedEntity);
    }
    let matrix = inline_csv_to_matrix(crate::types::copy_vec(csv), height, width);
    assert(matrix@[0]@ == csv_grid(csv@, height as int, width as int)[0]);
    let tiles = generate_level(matrix, project, None, None);
    let tileset_tiles = flatten_tiles(&tiles);

    let mut intgrid_tiles: Vec<IntgridType> = Vec::new();
    let mut i: usize = 0;
    while i < csv.len()
        invariant
            i <= csv@.len(),
            intgrid_tiles@ == csv@.take(i as int).map_values(|v: i64| intgrid_of(v)),
        decreases csv@.len() - i,
    {
        intgrid_tiles.push(IntgridType::from_value(&csv[i]));
        assert(intgrid_tiles@ =~= csv@.take(i as int + 1).map_values(|v: i64| intgrid_of(v)));
        i = i + 1;
    }
    assert(csv@.take(i as int) =~= csv@);

    let entities = &houses.entity_instances;
    let house = if entities.len() == 0 {
        None
    } else {
        let px = &entities[entities.len() - 1].px;
        Some(House { x: px[0], y: px[1] })
    };

    let planted = &trees.entity_instances;
    let mut tree_positions: Vec<(i64, i64)> = Vec::new();
    let mut j: usize = 0;
    while j < planted.len()
        invariant
            j <= planted@.len(),
            forall|k: int| 0 <= k < planted@.len() ==> has_tree_position(#[trigger] planted@[k]),
            tree_positions@ == trees_of(planted@.take(j as int)),
        decreases planted@.len() - j,
    {
        let px = &planted[j].px;
        assert(has_tree_position(planted@[j as int]));
        tree_positions.push((px[0], -px[1]));
        assert(tree_positions@ =~= trees_of(planted@.take(j as int + 1)));
        j = j + 1;
    }
    assert(planted@.take(j as int) =~= planted@);

    Ok(Chunk {
        intgrid_tiles,
        tileset_tiles,
        position: (0, 0),
        chunk_type: ChunkType::from_name(level.identifier.as_str()),
        connextions: Vec::new(),
        house,
        trees: tree_positions,
        is_end: false,
        flip_x: false,
        flip_y: false,
    })
}

/// Whether a grid has `height` rows of `width` cells.
pub open spec fn shaped<T>(g: Seq<Seq<T>>, width: int, height: int) -> bool {
    g.len() == height && forall|y: int| 0 <= y < height ==> (#[trigger] g[y]).len() == width
}

/// The sides of slot (`x`, `y`) that touch an occupied slot.
pub fn connections_at(tiles: &MatrixType<Tile>, x: usize, y: usize) -> (r: Vec<ChunkConnextion>)
    ensures
        r@ == connections_spec(grid_view(tiles@), x as int, y as int),
{
    let ghost g = grid_view(tiles@);
    assert(forall|i: int| 0 <= i < tiles@.len() ==> g[i] == (#[trigger] tiles@[i])@);
    let mut connexions: Vec<ChunkConnextion> = Vec::new();
    if y > 0 && y - 1 < tiles.len() && x < tiles[y - 1].len() && tiles[y - 1][x].value != 0 {
        connexions.push(ChunkConnextion::Top);
    }
    let ghost c1 = connexions@;
    assert(c1 =~= (if occupied(g, x as int, y - 1) { seq![ChunkConnextion::Top] } else { Seq::empty() }));
    if tiles.len() > 0 && y < tiles.len() - 1 && x < tiles[y + 1].len() && tiles[y + 1][x].value != 0 {
        connexions.push(ChunkConnextion::Bottom);
    }
    let ghost c2 = connexions@;
    assert(c2 =~= c1 + (if occupied(g, x as int, y + 1) { seq![ChunkConnextion::Bottom] } else { Seq::empty() }));
    if y < tiles.len() && tiles[y].len() > 0 && x < tiles[y].len() - 1 && tiles[y][x + 1].value != 0 {
        connexions.push(ChunkConnextion::Right);
    }
    let ghost c3 = connexions@;
    assert(c3 =~= c2 + (if occupied(g, x + 1, y as int) { seq![ChunkConnextion::Right] } else { Seq::empty() }));
    if y < tiles.len() && x > 0 && x - 1 < tiles[y].len() && tiles[y][x - 1].value != 0 {
        connexions.push(ChunkConnextion::Left);
    }
    assert(connexions@ =~= c3 + (if occupied(g, x - 1, y as int) { seq![ChunkConnextion::Left] } else { Seq::empty() }));
    connexions
}

/// Places the templates on the occupied slots of a `width` x `height` grid.
fn place_chunks(templates: &Vec<Chunk>, tiles: &MatrixType<Tile>, obstacles: &MatrixType<i64>, width: usize, height: usize)
    -> (r: Result<(Vec<Chunk>, Vec<Obstacle>, (i64, i64)), BuildError>)
    requires
        unique_types(templates@),
        shaped(grid_view(tiles@), width as int, height as int),
        shaped(grid_view(obstacles@), width as int, height as int),
        width <= i32::MAX,
        height <= i32::MAX,
    ensures
        match r {
            Ok((chunks, obs, start)) => {
                let tm = template_map(templates@);
                let g = grid_view(tiles@);
                &&& !template_missing(tm, g, width as int, height as int)
                &&& chunks@.len() == width * height
                &&& forall|k: int| 0 <= k < chunks@.len() ==> (#[trigger] chunks@[k])@ == placed_chunk(tm, g, k % width as int, k / width as int)
                &&& obstacle_views(obs@) == obstacles_upto(tm, g, grid_view(obstacles@), width as int, width * height)
                &&& start == start_upto(g, width as int, width * height)
            },
            Err(e) => e == BuildError::MissingChunkTemplate && template_missing(
                template_map(templates@),
                grid_view(tiles@),
                width as int,
                height as int,
            ),
        },
{
    let ghost tm = template_map(templates@);
    let ghost g = grid_view(tiles@);
    let ghost og = grid_view(obstacles@);
    let ghost w = width as int;
    let mut chunks: Vec<Chunk> = Vec::new();
    let mut obs: Vec<Obstacle> = Vec::new();
    let mut start: (i64, i64) = (0, 0);
    let mut y: usize = 0;
    while y < height
        invariant
            tm == template_map(templates@),
            g == grid_view(tiles@),
            og == grid_view(obstacles@),
            w == width,
            unique_types(templates@),
            shaped(g, w, height as int),
            shaped(og, w, height as int),
            width <= i32::MAX,
            height <= i32::MAX,
            y <= height,
            chunks@.len() == y * w,
            forall|k: int| 0 <= k < chunks@.len() ==> (#[trigger] chunks@[k])@ == placed_chunk(tm, g, k % w, k / w),
            obstacle_views(obs@) == obstacles_upto(tm, g, og, w, y * w),
            start == start_upto(g, w, y * w),
            forall|a: int, b: int| 0 <= a < w && 0 <= b < y ==> !((#[trigger] g[b][a]).value != 0 && !tm.contains_key(chunk_type_of_value(g[b][a].value))),
        decreases height - y,
    {
        let row = &tiles[y];
        assert(row@ == g[y as int]);
        let mut x: usize = 0;
        while x < width
            invariant
                tm == template_map(templates@),
                g == grid_view(tiles@),
                og == grid_view(obstacles@),
                w == width,
                unique_types(templates@),
                shaped(g, w, height as int),
                shaped(og, w, height as int),
                width <= i32::MAX,
                height <= i32::MAX,
                y < height,
                *row == tiles@[y as int],
                row@ == g[y as int],
                x <= width,
                chunks@.len() == y * w + x,
                forall|k: int| 0 <= k < chunks@.len() ==> (#[trigger] chunks@[k])@ == placed_chunk(tm, g, k % w, k / w),
                obstacle_views(obs@) == obstacles_upto(tm, g, og, w, y * w + x),
                start == start_upto(g, w, y * w + x),
                forall|a: int, b: int| 0 <= a < w && 0 <= b < y ==> !((#[trigger] g[b][a]).value != 0 && !tm.contains_key(chunk_type_of_value(g[b][a].value))),
                forall|a: int| 0 <= a < x ==> !((#[trigger] g[y as int][a]).value != 0 && !tm.contains_key(chunk_type_of_value(g[y as int][a].value))),
            decreases width - x,
        {
            let ghost k = y * w + x;
            proof {
                lemma_row_col(k, w, y as int, x as int);
            }
            let tile = row[x];
            let px: i64 = (x as i64) * PIXEL_CHUNK_SIZE;
            let py: i64 = (y as i64) * PIXEL_CHUNK_SIZE;
            if tile.value == 0 {
                chunks.push(Chunk::empty());
                proof {
                    assert(obstacle_views(obs@) == obstacles_upto(tm, g, og, w, k + 1));
                }
            } else {
                let chunk_type = ChunkType::from_value(&tile.value);
                let index = match find_template(templates, chunk_type) {
                    Some(index) => index,
                    None => {
                        assert(g[y as int][x as int].value != 0);
                        return Err(BuildError::MissingChunkTemplate);
                    },
                };
                proof {
                    lemma_template_map_at(templates@, index as int);
                }
                let mut chunk = templates[index].duplicate();
                chunk.position = (px, -py);
                chunk.connextions = connections_at(tiles, x, y);
                if x > 0 && row[x - 1].value == END_VALUE {
                    chunk.is_end = true;
                }
                if tile.value == 2 || tile.value == 7 {
                    chunk.flip_x = true;
                }
                if tile.value == 6 || tile.value == 7 {
                    chunk.flip_y = true;
                }
                assert(chunk@ == placed_chunk(tm, g, x as int, y as int));
                if chunk_type == ChunkType::PostOffice {
                    start = (px + PIXEL_CHUNK_SIZE + 16, -py - PIXEL_CHUNK_SIZE / 2 + 8);
                }
                assert(obstacles@[y as int]@ == og[y as int]);
                let obstacle_value = obstacles[y][x];
                if obstacle_value != 0 {
                    let ghost before = obs@;
                    obs.push(Obstacle {
                        chunk: chunk.duplicate(),
                        chunk_center: (px + PIXEL_CHUNK_SIZE / 2 - 8, -py - PIXEL_CHUNK_SIZE / 2 + 8),
                        obstacle_type: ObstacleType::from_value(&obstacle_value),
                    });
                    assert(obstacle_views(obs@) =~= obstacle_views(before).push(obs@.last()@));
                } else {
                    assert(obstacle_views(obs@) == obstacles_upto(tm, g, og, w, k + 1));
                }
                chunks.push(chunk);
            }
            x = x + 1;
        }
        proof {
            assert((y + 1) * w == y * w + w) by (nonlinear_arith);
        }
        y = y + 1;
    }
    assert(y * w == width * height) by (nonlinear_arith)
        requires y == height, w == width;
    Ok((chunks, obs, start))
}

/// Places the decor templates on the occupied slots of a `width` x `height` grid.
fn place_decor(templates: &Vec<Chunk>, tiles: &MatrixType<Tile>, width: usize, height: usize) -> (r: Result<Vec<Chunk>, BuildError>)
    requires
        unique_types(templates@),
        shaped(grid_view(tiles@), width as int, height as int),
        width <= i32::MAX,
        height <= i32::MAX,
    ensures
        match r {
            Ok(chunks) => {
                let tm = template_map(templates@);
                let g = grid_view(tiles@);
                &&& !template_missing(tm, g, width as int, height as int)
                &&& chunks@.len() == width * height
                &&& forall|k: int| 0 <= k < chunks@.len() ==> (#[trigger] chunks@[k])@ == decor_chunk(tm, g, k % width as int, k / width as int)
            },
            Err(e) => e == BuildError::MissingChunkTemplate && template_missing(
                template_map(templates@),
                grid_view(tiles@),
                width as int,
                height as int,
            ),
        },
{
    let ghost tm = template_map(templates@);
    let ghost g = grid_view(tiles@);
    let ghost w = width as int;
    let mut chunks: Vec<Chunk> = Vec::new();
    let mut y: usize = 0;
    while y < height
        invariant
            tm == template_map(templates@),
            g == grid_view(tiles@),
            w == width,
            unique_types(templates@),
            shaped(g, w, height as int),
            width <= i32::MAX,
            height <= i32::MAX,
            y <= height,
            chunks@.len() == y * w,
            forall|k: int| 0 <= k < chunks@.len() ==> (#[trigger] chunks@[k])@ == decor_chunk(tm, g, k % w, k / w),
            forall|a: int, b: int| 0 <= a < w && 0 <= b < y ==> !((#[trigger] g[b][a]).value != 0 && !tm.contains_key(chunk_type_of_value(g[b][a].value))),
        decreases height - y,
    {
        let row = &tiles[y];
        assert(row@ == g[y as int]);
        let mut x: usize = 0;
        while x < width
            invariant
                tm == template_map(templates@),
                g == grid_view(tiles@),
                w == width,
                unique_types(templates@),
                shaped(g, w, height as int),
                width <= i32::MAX,
                height <= i32::MAX,
                y < height,
                row@ == g[y as int],
                x <= width,
                chunks@.len() == y * w + x,
                forall|k: int| 0 <= k < chunks@.len() ==> (#[trigger] chunks@[k])@ == decor_chunk(tm, g, k % w, k / w),
                forall|a: int, b: int| 0 <= a < w && 0 <= b < y ==> !((#[trigger] g[b][a]).value != 0 && !tm.contains_key(chunk_type_of_value(g[b][a].value))),
                forall|a: int| 0 <= a < x ==> !((#[trigger] g[y as int][a]).value != 0 && !tm.contains_key(chunk_type_of_value(g[y as int][a].value))),
            decreases width - x,
        {
            proof {
                lemma_row_col(y * w + x, w, y as int, x as int);
            }
            let tile = row[x];
            if tile.value == 0 {
                chunks.push(Chunk::empty());
            } else {
                let index = match find_template(templates, ChunkType::from_value(&tile.value)) {
                    Some(index) => index,
                    None => {
                        assert(g[y as int][x as int].value != 0);
                        return Err(BuildError::MissingChunkTemplate);
                    },
                };
                proof {
                    lemma_template_map_at(templates@, index as int);
                }
                let mut chunk = templates[index].duplicate();
                chunk.position = ((x as i64) * PIXEL_CHUNK_SIZE, -((y as i64) * PIXEL_CHUNK_SIZE));
                chunks.push(chunk);
            }
            x = x + 1;
        }
        proof {
            assert((y + 1) * w == y * w + w) by (nonlinear_arith);
        }
        y = y + 1;
    }
    assert(y * w == width * height) by (nonlinear_arith)
        requires y == height, w == width;
    Ok(chunks)
}

/// A map as placed on its chunk slots: `chunk_x` by `chunk_y` slots, row-major.
pub struct WorldMap {
    pub chunk_x: i32,
    pub chunk_y: i32,
    pub chunks: Vec<Chunk>,
    pub decor_chunks: Vec<Chunk>,
    pub start_position: (i64, i64),
    pub obstacles: Vec<Obstacle>,
}

/// An obstacle on a slot: the slot's chunk, the slot's center in pixels and
/// the kind of obstacle.
pub struct Obstacle {
    pub chunk: Chunk,
    pub chunk_center: (i64, i64),
    pub obstacle_type: ObstacleType,
}

/// An obstacle as plain values.
pub ghost struct ObstacleView {
    pub chunk: ChunkView,
    pub chunk_center: (i64, i64),
    pub obstacle_type: ObstacleType,
}

impl View for Obstacle {
    type V = ObstacleView;

    open spec fn view(&self) -> ObstacleView {
        ObstacleView { chunk: self.chunk@, chunk_center: self.chunk_center, obstacle_type: self.obstacle_type }
    }
}

impl WorldMap {
    /// A map with no slots.
    pub fn empty() -> (r: WorldMap)
        ensures
            r.chunk_x == 0,
            r.chunk_y == 0,
            r.chunks@.len() == 0,
            r.decor_chunks@.len() == 0,
            r.start_position == (0i64, 0i64),
            r.obstacles@.len() == 0,
    {
        WorldMap {
            chunk_x: 0,
            chunk_y: 0,
            chunks: Vec::new(),
            decor_chunks: Vec::new(),
            start_position: (0, 0),
            obstacles: Vec::new(),
        }
    }
}

/// Builds maps of the levels of a project from the templates of a chunk project.
pub struct MapBuilder {
    maps: Project,
    chunks: Vec<Chunk>,
    map: WorldMap,
}

impl MapBuilder {
    /// The project whose levels are built.
    pub closed spec fn maps(&self) -> Project {
        self.maps
    }

    /// The chunk templates, keyed by chunk type.
    pub closed spec fn templates(&self) -> Map<ChunkType, ChunkView> {
        template_map(self.chunks@)
    }

    /// The map built last.
    pub closed spec fn built(&self) -> WorldMap {
        self.map
    }

    pub closed spec fn wf(&self) -> bool {
        unique_types(self.chunks@)
    }

    /// Builds the template catalog from the levels of `chunks_project`, one
    /// template per level keyed by the chunk type its name stands for.
    pub fn new(maps: Project, chunks_project: Project) -> (r: Result<MapBuilder, BuildError>)
        ensures
            match r {
                Ok(b) => b.wf() && b.maps() == maps && catalog(chunks_project) == Ok::<Map<ChunkType, ChunkView>, BuildError>(b.templates())
                    && b.built().chunks@.len() == 0 && b.built().decor_chunks@.len() == 0 && b.built().obstacles@.len() == 0,
                Err(e) => catalog(chunks_project) == Err::<Map<ChunkType, ChunkView>, BuildError>(e),
            },
    {
        if !project_is_well_formed(&chunks_project) {
            return Err(BuildError::MalformedRule);
        }
        let levels = &chunks_project.levels;
        let mut chunks: Vec<Chunk> = Vec::new();
        assert(template_map(chunks@) =~= Map::empty());
        let mut i: usize = 0;
        while i < levels.len()
            invariant
                *levels == chunks_project.levels,
                project_wf(chunks_project),
                i <= levels@.len(),
                unique_types(chunks@),
                templates_upto(levels@, chunks_project, i as int) == Ok::<Map<ChunkType, ChunkView>, BuildError>(template_map(chunks@)),
            decreases levels@.len() - i,
        {
            match chunk_template(&levels[i], &chunks_project) {
                Ok(chunk) => {
                    insert_template(&mut chunks, chunk);
                },
                Err(e) => {
                    proof {
                        lemma_error_persists(levels@, chunks_project, i as int + 1, levels@.len() as int);
                    }
                    return Err(e);
                },
            }
            i = i + 1;
        }
        Ok(MapBuilder { maps, chunks, map: WorldMap::empty() })
    }

    /// Builds the map of the `level_indice`-th level of the project: its
    /// base layer gives each slot its chunk, its decor layer each slot its
    /// decor chunk, its obstacle layer the obstacles. On an error the builder
    /// is left as it was.
    pub fn build(&mut self, level_indice: &i32) -> (r: Result<(), BuildError>)
        requires
            old(self).wf(),
        ensures
            final(self).wf(),
            final(self).maps() == old(self).maps(),
            final(self).templates() == old(self).templates(),
            match r {
                Ok(()) => build_error(old(self).maps(), old(self).templates(), *level_indice as int) is None
                    && map_of_level(final(self).built(), old(self).maps(), old(self).templates(), *level_indice as int),
                Err(e) => build_error(old(self).maps(), old(self).templates(), *level_indice as int) == Some(e)
                    && final(self).built() == old(self).built(),
            },
    {
        let idx = *level_indice;
        if idx < 0 || idx as usize >= self.maps.levels.len() {
            return Err(BuildError::LevelOutOfRange);
        }
        let level = &self.maps.levels[idx as usize];
        let base = match level.get_layer("Base") {
            Some(l) => l,
            None => return Err(BuildError::MissingLayer),
        };
        let obstacle_layer = match level.get_layer("Obstacles") {
            Some(l) => l,
            None => return Err(BuildError::MissingLayer),
        };
        let height = level.tile_y();
        let width = level.tile_x();
        if height < 1 || height > i32::MAX as i64 || width < 0 || width > i32::MAX as i64 {
            return Err(BuildError::MalformedLevel);
        }
        proof {
            assert(0 <= (height as int) * (width as int) <= 0x4000_0000_0000_0000) by (nonlinear_arith)
                requires 1 <= height <= i32::MAX, 0 <= width <= i32::MAX;
        }
        let cells: i64 = height * width;
        if cells as u64 > base.int_grid_csv.len() as u64 || cells as u64 > obstacle_layer.int_grid_csv.len() as u64 {
            return Err(BuildError::MalformedLevel);
        }
        if !project_is_well_formed(&self.maps) {
            return Err(BuildError::MalformedRule);
        }
        let no_hidden: Option<Vec<usize>> = None;
        if count_resolved_layers(&self.maps, &no_hidden) <= BASE_LAYER {
            return Err(BuildError::MissingLayer);
        }
        let base_matrix = inline_csv_to_matrix(crate::types::copy_vec(&base.int_grid_csv), height, width);
        let decor_matrix = inline_csv_to_matrix(crate::types::copy_vec(&base.int_grid_csv), height, width);
        let obstacles = inline_csv_to_matrix(crate::types::copy_vec(&obstacle_layer.int_grid_csv), height, width);
        assert(base_matrix@[0]@ == csv_grid(base.int_grid_csv@, height as int, width as int)[0]);
        assert(decor_matrix@[0]@ == csv_grid(base.int_grid_csv@, height as int, width as int)[0]);
        let tiles = generate_level(base_matrix, &self.maps, Some(BASE_LAYER), None);
        let decor_tiles = generate_level(decor_matrix, &self.maps, Some(DECOR_LAYER), None);
        let w = width as usize;
        let h = height as usize;
        proof {
            let g = csv_grid(base.int_grid_csv@, height as int, width as int);
            let layers = self.maps.defs.layers@;
            lemma_resolved_count(layers, g, None, layers.len() as int);
            lemma_resolved_shape(layers, g, None, layers.len() as int);
            assert(shaped(grid_view(tiles@), w as int, h as int));
            assert(shaped(grid_view(decor_tiles@), w as int, h as int));
        }
        let placed = place_chunks(&self.chunks, &tiles, &obstacles, w, h);
        let (chunks, obstacle_list, start_position) = match placed {
            Ok(p) => p,
            Err(e) => return Err(e),
        };
        let decor_chunks = match place_decor(&self.chunks, &decor_tiles, w, h) {
            Ok(d) => d,
            Err(e) => return Err(e),
        };
        self.map = WorldMap {
            chunk_x: width as i32,
            chunk_y: height as i32,
            chunks,
            decor_chunks,
            start_position,
            obstacles: obstacle_list,
        };
        Ok(())
    }

    /// A copy of the map built last.
    pub fn get_map(&self) -> (r: WorldMap)
        ensures
            same_map(r, self.built()),
    {
        self.map.duplicate()
    }
}

/// How many chunks of the list are not empty.
pub open spec fn count_not_empty(v: Seq<Chunk>) -> nat
    decreases v.len(),
{
    if v.len() == 0 {
        0
    } else {
        count_not_empty(v.drop_last()) + if v.last().chunk_type != ChunkType::Empty { 1nat } else { 0nat }
    }
}

/// How many chunks of the list have type `t`.
pub open spec fn count_of_type(v: Seq<Chunk>, t: ChunkType) -> nat
    decreases v.len(),
{
    if v.len() == 0 {
        0
    } else {
        count_of_type(v.drop_last(), t) + if v.last().chunk_type == t { 1nat } else { 0nat }
    }
}

/// The chunks of a list, as plain values.
pub open spec fn chunk_views(v: Seq<Chunk>) -> Seq<ChunkView> {
    v.map_values(|c: Chunk| c@)
}

/// Whether two maps hold the same values.
pub open spec fn same_map(a: WorldMap, b: WorldMap) -> bool {
    &&& a.chunk_x == b.chunk_x
    &&& a.chunk_y == b.chunk_y
    &&& chunk_views(a.chunks@) == chunk_views(b.chunks@)
    &&& chunk_views(a.decor_chunks@) == chunk_views(b.decor_chunks@)
    &&& a.start_position == b.start_position
    &&& obstacle_views(a.obstacles@) == obstacle_views(b.obstacles@)
}

fn copy_chunks(v: &Vec<Chunk>) -> (r: Vec<Chunk>)
    ensures
        chunk_views(r@) == chunk_views(v@),
{
    let mut out: Vec<Chunk> = Vec::new();
    let mut i: usize = 0;
    while i < v.len()
        invariant
            i <= v@.len(),
            chunk_views(out@) == chunk_views(v@.take(i as int)),
        decreases v@.len() - i,
    {
        let ghost before = out@;
        out.push(v[i].duplicate());
        assert(chunk_views(out@) =~= chunk_views(before).push(v@[i as int]@));
        assert(chunk_views(v@.take(i as int + 1)) =~= chunk_views(v@.take(i as int)).push(v@[i as int]@));
        i = i + 1;
    }
    assert(v@.take(i as int) =~= v@);
    out
}

impl WorldMap {
    /// A copy of the map.
    pub fn duplicate(&self) -> (r: WorldMap)
        ensures
            same_map(r, *self),
    {
        let mut obstacles: Vec<Obstacle> = Vec::new();
        let mut i: usize = 0;
        while i < self.obstacles.len()
            invariant
                i <= self.obstacles@.len(),
                obstacle_views(obstacles@) == obstacle_views(self.obstacles@.take(i as int)),
            decreases self.obstacles@.len() - i,
        {
            let o = &self.obstacles[i];
            let ghost before = obstacles@;
            obstacles.push(Obstacle { chunk: o.chunk.duplicate(), chunk_center: o.chunk_center, obstacle_type: o.obstacle_type });
            assert(obstacle_views(obstacles@) =~= obstacle_views(before).push(self.obstacles@[i as int]@));
            assert(obstacle_views(self.obstacles@.take(i as int + 1)) =~= obstacle_views(self.obstacles@.take(i as int)).push(self.obstacles@[i as int]@));
            i = i + 1;
        }
        assert(self.obstacles@.take(i as int) =~= self.obstacles@);
        WorldMap {
            chunk_x: self.chunk_x,
            chunk_y: self.chunk_y,
            chunks: copy_chunks(&self.chunks),
            decor_chunks: copy_chunks(&self.decor_chunks),
            start_position: self.start_position,
            obstacles,
        }
    }

    /// The chunk on slot (`x`, `y`).
    pub fn get_chunk(&self, x: i32, y: i32) -> (r: &Chunk)
        requires
            0 <= x < self.chunk_x,
            0 <= y < self.chunk_y,
            self.chunks@.len() == self.chunk_x * self.chunk_y,
        ensures
            *r == self.chunks@[y * self.chunk_x + x],
    {
        proof {
            assert(0 <= y * self.chunk_x + x < self.chunk_x * self.chunk_y <= 0x4000_0000_0000_0000) by (nonlinear_arith)
                requires 0 <= x < self.chunk_x <= i32::MAX, 0 <= y < self.chunk_y <= i32::MAX;
        }
        let slots = self.chunks.len();
        let index: i64 = (y as i64) * (self.chunk_x as i64) + (x as i64);
        assert(index < slots);
        &self.chunks[index as usize]
    }

    /// How many slots hold a chunk.
    pub fn not_empty_chunks(&self) -> (r: usize)
        ensures
            r == count_not_empty(self.chunks@),
    {
        let mut count: usize = 0;
        let mut i: usize = 0;
        while i < self.chunks.len()
            invariant
                i <= self.chunks@.len(),
                count == count_not_empty(self.chunks@.take(i as int)),
                count <= i,
            decreases self.chunks@.len() - i,
        {
            assert(self.chunks@.take(i as int + 1).drop_last() =~= self.chunks@.take(i as int));
            if !self.chunks[i].is_empty() {
                count = count + 1;
            }
            i = i + 1;
        }
        assert(self.chunks@.take(i as int) =~= self.chunks@);
        count
    }

    /// How many slots hold a chunk of type `chunk_type`.
    pub fn count_chunk(&self, chunk_type: ChunkType) -> (r: i32)
        requires
            self.chunks@.len() <= i32::MAX,
        ensures
            r == count_of_type(self.chunks@, chunk_type),
    {
        let mut count: i32 = 0;
        let mut i: usize = 0;
        while i < self.chunks.len()
            invariant
                self.chunks@.len() <= i32::MAX,
                i <= self.chunks@.len(),
                count == count_of_type(self.chunks@.take(i as int), chunk_type),
                count <= i,
            decreases self.chunks@.len() - i,
        {
            assert(self.chunks@.take(i as int + 1).drop_last() =~= self.chunks@.take(i as int));
            if self.chunks[i].chunk_type == chunk_type {
                count = count + 1;
            }
            i = i + 1;
        }
        assert(self.chunks@.take(i as int) =~= self.chunks@);
        count
    }
}

} // verus!
