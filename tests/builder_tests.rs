use autotile::builder::{connections_at, BuildError, MapBuilder};
use autotile::chunk::{Chunk, ChunkConnextion, ChunkType, RoadChunkType};
use autotile::ldtk::{
    AutoLayerRuleDefinition, AutoLayerRuleGroup, Definitions, EntityInstance, FieldInstance, LayerDefinition,
    LayerInstance, Level, Project, Type,
};
use autotile::types::{IntgridType, ObstacleType, Tile};

fn layer_instance(name: &str, csv: Vec<i64>, entities: Vec<Vec<i64>>) -> LayerInstance {
    LayerInstance {
        identifier: name.to_string(),
        int_grid_csv: csv,
        entity_instances: entities
            .into_iter()
            .map(|px| EntityInstance { identifier: "Thing".to_string(), px })
            .collect(),
    }
}

fn level(name: &str, width: i64, height: i64, layers: Vec<LayerInstance>) -> Level {
    Level {
        identifier: name.to_string(),
        px_wid: width * 16,
        px_hei: height * 16,
        field_instances: vec![FieldInstance { identifier: "Name".to_string(), value: Some("\"First\"".to_string()) }],
        layer_instances: Some(layers),
    }
}

fn def(kind: Type, groups: Vec<AutoLayerRuleGroup>) -> LayerDefinition {
    LayerDefinition { identifier: "L".to_string(), purple_type: kind, int_grid_values: vec![], auto_rule_groups: groups }
}

fn template(name: &str, value: i64) -> Level {
    level(
        name,
        1,
        1,
        vec![
            layer_instance("Intgrid", vec![value], vec![]),
            layer_instance("Houses", vec![], vec![vec![3, 4], vec![5, 6]]),
            layer_instance("Trees", vec![], vec![vec![1, 2]]),
        ],
    )
}

fn chunk_project() -> Project {
    Project {
        levels: vec![template("PostOffice", 1), template("Horizontal", 2), template("Vertical", 3)],
        defs: Definitions { layers: vec![def(Type::IntGrid, vec![])] },
    }
}

fn maps_project(base: Vec<i64>, obstacles: Vec<i64>, width: i64) -> Project {
    Project {
        levels: vec![level(
            "Level_0",
            width,
            1,
            vec![layer_instance("Base", base, vec![]), layer_instance("Obstacles", obstacles, vec![])],
        )],
        defs: Definitions { layers: vec![def(Type::AutoLayer, vec![]), def(Type::IntGrid, vec![]), def(Type::IntGrid, vec![])] },
    }
}

#[test]
fn builds_templates_and_places_chunks() {
    let mut builder = MapBuilder::new(maps_project(vec![15, 4, 3], vec![0, 1, 0], 3), chunk_project()).unwrap();
    assert_eq!(builder.build(&0), Ok(()));
    let map = builder.get_map();
    assert_eq!((map.chunk_x, map.chunk_y), (3, 1));
    assert_eq!(map.chunks.len(), 3);

    let post = &map.chunks[0];
    assert_eq!(post.chunk_type, ChunkType::PostOffice);
    assert_eq!(post.position, (0, 0));
    assert_eq!(post.connextions, vec![ChunkConnextion::Right]);
    assert_eq!(post.intgrid_tiles, vec![IntgridType::Road]);
    assert_eq!(post.tileset_tiles, vec![Tile::new(1)]);
    assert_eq!(post.house.map(|h| (h.x, h.y)), Some((5, 6)));
    assert_eq!(post.trees, vec![(1, -2)]);
    assert!(!post.is_end);

    let road = &map.chunks[1];
    assert_eq!(road.chunk_type, ChunkType::Road(RoadChunkType::Horizontal));
    assert_eq!(road.position, (144, 0));
    assert_eq!(road.connextions, vec![ChunkConnextion::Right, ChunkConnextion::Left]);
    assert!(road.is_end);

    let last = &map.chunks[2];
    assert_eq!(last.chunk_type, ChunkType::Road(RoadChunkType::Vertical));
    assert_eq!(last.position, (288, 0));
    assert_eq!(last.connextions, vec![ChunkConnextion::Left]);
    assert!(!last.flip_x && !last.flip_y);

    assert_eq!(map.start_position, (160, -64));
    assert_eq!(map.obstacles.len(), 1);
    assert_eq!(map.obstacles[0].chunk_center, (208, -64));
    assert_eq!(map.obstacles[0].obstacle_type, ObstacleType::RoadWork);
    assert_eq!(map.decor_chunks.len(), 3);
    assert!(map.decor_chunks.iter().all(|c| c.is_empty()));

    assert_eq!(map.get_chunk(1, 0).position, (144, 0));
    assert_eq!(map.not_empty_chunks(), 3);
    assert_eq!(map.count_chunk(ChunkType::PostOffice), 1);
    assert_eq!(map.count_chunk(ChunkType::House), 0);
}

#[test]
fn neighbors_connect_both_ways() {
    let mut builder = MapBuilder::new(maps_project(vec![3, 3], vec![0, 0], 2), chunk_project()).unwrap();
    builder.build(&0).unwrap();
    let map = builder.get_map();
    assert!(map.chunks[0].has_connexion(ChunkConnextion::Right));
    assert!(map.chunks[1].has_connexion(ChunkConnextion::Left));
    assert!(!map.chunks[0].has_connexion(ChunkConnextion::Left));
}

#[test]
fn connections_of_a_slot() {
    let t = |v: i64| Tile::new(v);
    let tiles = vec![vec![t(0), t(1), t(0)], vec![t(1), t(1), t(1)], vec![t(0), t(0), t(0)]];
    assert_eq!(
        connections_at(&tiles, 1, 1),
        vec![ChunkConnextion::Top, ChunkConnextion::Right, ChunkConnextion::Left]
    );
    assert_eq!(connections_at(&tiles, 0, 1), vec![ChunkConnextion::Right]);
}

#[test]
fn turn_values_mirror_the_chunk() {
    let mut chunks = chunk_project();
    chunks.levels.push(template("Turn", 4));
    let mut builder = MapBuilder::new(maps_project(vec![2, 6, 7, 1], vec![0, 0, 0, 0], 4), chunks).unwrap();
    builder.build(&0).unwrap();
    let map = builder.get_map();
    let flips: Vec<(bool, bool)> = map.chunks.iter().map(|c| (c.flip_x, c.flip_y)).collect();
    assert_eq!(flips, vec![(true, false), (false, true), (true, true), (false, false)]);
}

#[test]
fn out_of_range_level_is_an_error() {
    let mut builder = MapBuilder::new(maps_project(vec![3], vec![0], 1), chunk_project()).unwrap();
    assert_eq!(builder.build(&1), Err(BuildError::LevelOutOfRange));
    assert_eq!(builder.build(&-1), Err(BuildError::LevelOutOfRange));
}

#[test]
fn missing_template_is_an_error() {
    let mut builder = MapBuilder::new(maps_project(vec![16], vec![0], 1), chunk_project()).unwrap();
    assert_eq!(builder.build(&0), Err(BuildError::MissingChunkTemplate));
}

#[test]
fn short_level_is_an_error() {
    let mut builder = MapBuilder::new(maps_project(vec![3], vec![0], 2), chunk_project()).unwrap();
    assert_eq!(builder.build(&0), Err(BuildError::MalformedLevel));
}

#[test]
fn missing_layers_are_errors() {
    let mut maps = maps_project(vec![3], vec![0], 1);
    maps.defs.layers.pop();
    let mut builder = MapBuilder::new(maps, chunk_project()).unwrap();
    assert_eq!(builder.build(&0), Err(BuildError::MissingLayer));

    let mut chunks = chunk_project();
    chunks.levels[0].layer_instances.as_mut().unwrap().pop();
    assert!(matches!(MapBuilder::new(maps_project(vec![3], vec![0], 1), chunks), Err(BuildError::MissingLayer)));
}

#[test]
fn malformed_rule_is_an_error() {
    let mut chunks = chunk_project();
    chunks.defs.layers.push(def(
        Type::AutoLayer,
        vec![AutoLayerRuleGroup {
            name: "Bad".to_string(),
            rules: vec![AutoLayerRuleDefinition { size: 3, pattern: vec![0; 4], tile_rects_ids: vec![], flip_x: false, flip_y: false }],
        }],
    ));
    assert!(matches!(MapBuilder::new(maps_project(vec![3], vec![0], 1), chunks), Err(BuildError::MalformedRule)));
}

#[test]
fn entity_without_position_is_an_error() {
    let mut chunks = chunk_project();
    chunks.levels[1].layer_instances.as_mut().unwrap()[1].entity_instances[0].px = vec![1];
    assert!(matches!(MapBuilder::new(maps_project(vec![3], vec![0], 1), chunks), Err(BuildError::MalformedEntity)));
}

#[test]
fn chunk_cells_and_names() {
    let mut chunk = Chunk::default();
    assert!(chunk.is_empty());
    chunk.intgrid_tiles = vec![IntgridType::Dirt; 81];
    chunk.tileset_tiles = (0..81).map(Tile::new).collect();
    assert_eq!(chunk.xy_idx(2, 1), 11);
    assert_eq!(chunk.intgrid_at(2, 1), Some(&IntgridType::Dirt));
    assert_eq!(chunk.tile_at(2, 1), Some(&Tile::new(11)));
    assert_eq!(chunk.tile_at(0, 9), None);
    assert_eq!(chunk.tile_at(-1, 0), None);
    assert_eq!(ChunkType::from("VerticalJLeft"), ChunkType::Road(RoadChunkType::VerticalJLeft));
    assert_eq!(ChunkType::from("PostOffice"), ChunkType::PostOffice);
    assert_eq!(ChunkType::from("Whatever"), ChunkType::House);
    assert_eq!(ChunkType::from(&14), ChunkType::Road(RoadChunkType::HorizontalJDown));
    assert_eq!(ChunkType::from(&15), ChunkType::PostOffice);
    assert_eq!(ChunkType::from(&99), ChunkType::House);
}
