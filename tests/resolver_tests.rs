use autotile::ldtk::{
    AutoLayerRuleDefinition, AutoLayerRuleGroup, Definitions, IntGridValueDefinition, LayerDefinition, Project, Type,
};
use autotile::transformer::{
    composite_layers, count_resolved_layers, generate_level, project_is_well_formed, resolve_layer,
};
use autotile::grid::Matrix;
use autotile::types::Tile;

fn rule(size: i64, pattern: Vec<i64>, id: i64, flip_x: bool, flip_y: bool) -> AutoLayerRuleDefinition {
    AutoLayerRuleDefinition { size, pattern, tile_rects_ids: vec![vec![id]], flip_x, flip_y }
}

fn group(name: &str, rules: Vec<AutoLayerRuleDefinition>) -> AutoLayerRuleGroup {
    AutoLayerRuleGroup { name: name.to_string(), rules }
}

fn auto_layer(groups: Vec<AutoLayerRuleGroup>) -> LayerDefinition {
    LayerDefinition {
        identifier: "Auto".to_string(),
        purple_type: Type::AutoLayer,
        int_grid_values: vec![],
        auto_rule_groups: groups,
    }
}

fn intgrid_layer(values: Vec<(i64, Option<&str>)>, groups: Vec<AutoLayerRuleGroup>) -> LayerDefinition {
    LayerDefinition {
        identifier: "Cells".to_string(),
        purple_type: Type::IntGrid,
        int_grid_values: values
            .into_iter()
            .map(|(value, name)| IntGridValueDefinition { value, identifier: name.map(|n| n.to_string()) })
            .collect(),
        auto_rule_groups: groups,
    }
}

fn project(layers: Vec<LayerDefinition>) -> Project {
    Project { levels: vec![], defs: Definitions { layers } }
}

fn values(grid: &Vec<Vec<Tile>>) -> Vec<Vec<i64>> {
    grid.iter().map(|r| r.iter().map(|t| t.value).collect()).collect()
}

#[test]
fn catch_all_rule_fills_the_grid() {
    let p = project(vec![auto_layer(vec![group("All", vec![rule(1, vec![1000001], 7, false, false)])])]);
    let out = generate_level(vec![vec![1, 1, 1], vec![1, 1, 1], vec![1, 1, 1]], &p, None, None);
    assert_eq!(out.len(), 3);
    for row in &out {
        assert_eq!(row.len(), 3);
        for t in row {
            assert_eq!(*t, Tile { value: 7, flip_x: false, flip_y: false });
        }
    }
}

#[test]
fn first_declared_rule_wins() {
    let ignore = vec![0; 9];
    let p = project(vec![auto_layer(vec![group(
        "All",
        vec![rule(3, ignore.clone(), 10, false, false), rule(3, ignore, 20, false, false)],
    )])]);
    let out = generate_level(vec![vec![1, 2], vec![3, 4]], &p, None, None);
    assert_eq!(values(&out), vec![vec![10, 10], vec![10, 10]]);
}

#[test]
fn first_declared_layer_wins() {
    let a = vec![vec![Tile::new(5), Tile::new(0)]];
    let b = vec![vec![Tile::new(9), Tile::new(8)]];
    let out = composite_layers(&vec![a, b], 2, 1);
    assert_eq!(values(&out), vec![vec![5, 8]]);
}

#[test]
fn first_declared_layer_wins_through_the_resolver() {
    let p = project(vec![
        auto_layer(vec![group("A", vec![rule(1, vec![0], 3, false, false)])]),
        auto_layer(vec![group("B", vec![rule(1, vec![0], 4, false, false)])]),
    ]);
    let out = generate_level(vec![vec![1]], &p, None, None);
    assert_eq!(values(&out), vec![vec![3]]);
}

#[test]
fn unmatched_cell_is_empty() {
    let p = project(vec![auto_layer(vec![group("All", vec![rule(1, vec![5], 7, false, false)])])]);
    let out = generate_level(vec![vec![5, 6]], &p, None, None);
    assert_eq!(values(&out), vec![vec![7, 0]]);
    assert_eq!(out[0][1], Tile::default());
}

#[test]
fn empty_values_are_observed_as_nothing() {
    let p = project(vec![auto_layer(vec![group("All", vec![rule(1, vec![-1000001], 7, false, false)])])]);
    let out = generate_level(vec![vec![0, -1, 3]], &p, None, None);
    assert_eq!(values(&out), vec![vec![7, 7, 0]]);
}

#[test]
fn mirrored_rule_sets_flip_x() {
    let pattern = vec![0, 0, 0, 0, 1000001, 2, 0, 0, 0];
    let p = project(vec![auto_layer(vec![group("All", vec![rule(3, pattern, 11, true, false)])])]);
    let out = generate_level(vec![vec![2, 1, 5]], &p, None, None);
    assert_eq!(out[0][1], Tile { value: 11, flip_x: true, flip_y: false });
}

#[test]
fn rule_without_flip_permission_does_not_mirror() {
    let pattern = vec![0, 0, 0, 0, 1000001, 2, 0, 0, 0];
    let p = project(vec![auto_layer(vec![group("All", vec![rule(3, pattern, 11, false, true)])])]);
    let out = generate_level(vec![vec![2, 1, 5]], &p, None, None);
    assert_eq!(out[0][1], Tile::default());
}

#[test]
fn vertical_mirror_sets_flip_y() {
    let pattern = vec![0, 2, 0, 0, 1000001, 0, 0, 0, 0];
    let p = project(vec![auto_layer(vec![group("All", vec![rule(3, pattern, 12, true, true)])])]);
    let out = generate_level(vec![vec![1], vec![1], vec![2]], &p, None, None);
    assert_eq!(out[1][0], Tile { value: 12, flip_x: false, flip_y: true });
}

#[test]
fn both_mirrors_need_both_permissions() {
    let pattern = vec![2, 0, 0, 0, 1000001, 0, 0, 0, 0];
    let grid = vec![vec![1, 1, 1], vec![1, 1, 1], vec![1, 1, 2]];
    let both = project(vec![auto_layer(vec![group("All", vec![rule(3, pattern.clone(), 13, true, true)])])]);
    assert_eq!(generate_level(grid.clone(), &both, None, None)[1][1], Tile { value: 13, flip_x: true, flip_y: true });
    let only_x = project(vec![auto_layer(vec![group("All", vec![rule(3, pattern, 13, true, false)])])]);
    assert_eq!(generate_level(grid, &only_x, None, None)[1][1], Tile::default());
}

#[test]
fn semantic_value_without_group_passes_through() {
    let p = project(vec![intgrid_layer(vec![(1, Some("Road")), (2, None)], vec![])]);
    let out = generate_level(vec![vec![1, 2, 3]], &p, None, None);
    assert_eq!(values(&out), vec![vec![1, 2, 3]]);
}

#[test]
fn semantic_value_uses_its_named_group() {
    let groups = vec![
        group("Dirt", vec![rule(1, vec![0], 50, false, false)]),
        group("Road", vec![rule(1, vec![1], 60, false, false)]),
    ];
    let p = project(vec![intgrid_layer(vec![(1, Some("Road")), (2, Some("Dirt"))], groups)]);
    let out = generate_level(vec![vec![1, 2, 4]], &p, None, None);
    assert_eq!(values(&out), vec![vec![60, 50, 4]]);
}

#[test]
fn semantic_edges_default_to_the_value() {
    let groups = vec![group("Road", vec![rule(3, vec![1; 9], 70, false, false)])];
    let p = project(vec![intgrid_layer(vec![(1, Some("Road"))], groups)]);
    let out = generate_level(vec![vec![1]], &p, None, None);
    assert_eq!(values(&out), vec![vec![70]]);
}

#[test]
fn single_layer_and_hidden_layers() {
    let p = project(vec![
        auto_layer(vec![group("A", vec![rule(1, vec![0], 3, false, false)])]),
        LayerDefinition {
            identifier: "Things".to_string(),
            purple_type: Type::Entities,
            int_grid_values: vec![],
            auto_rule_groups: vec![],
        },
        auto_layer(vec![group("B", vec![rule(1, vec![0], 4, false, false)])]),
    ]);
    assert_eq!(count_resolved_layers(&p, &None), 2);
    assert_eq!(count_resolved_layers(&p, &Some(vec![0])), 1);
    assert_eq!(values(&generate_level(vec![vec![1]], &p, Some(1), None)), vec![vec![4]]);
    assert_eq!(values(&generate_level(vec![vec![1]], &p, None, Some(vec![0]))), vec![vec![4]]);
    assert_eq!(values(&generate_level(vec![vec![1]], &p, Some(0), Some(vec![0]))), vec![vec![4]]);
}

#[test]
fn resolves_one_layer() {
    let layer = auto_layer(vec![group("All", vec![rule(1, vec![2], 9, false, false)])]);
    let out = resolve_layer(&layer, &Matrix::new(vec![vec![2, 3]]));
    assert_eq!(values(&out), vec![vec![9, 0]]);
}

#[test]
fn malformed_rules_are_detected() {
    let even = project(vec![auto_layer(vec![group("All", vec![rule(2, vec![0; 4], 1, false, false)])])]);
    let short = project(vec![auto_layer(vec![group("All", vec![rule(3, vec![0; 8], 1, false, false)])])]);
    let good = project(vec![auto_layer(vec![group("All", vec![rule(3, vec![0; 9], 1, false, false)])])]);
    assert!(!project_is_well_formed(&even));
    assert!(!project_is_well_formed(&short));
    assert!(project_is_well_formed(&good));
}

#[test]
fn single_layer_keeps_flags_of_tile_zero() {
    let pattern = vec![0, 0, 0, 2, 0, 0, 0, 0, 0];
    let p = project(vec![auto_layer(vec![group("All", vec![rule(3, pattern, 0, true, false)])])]);
    let single = generate_level(vec![vec![1, 1, 2]], &p, Some(0), None);
    assert_eq!(single[0][1], Tile { value: 0, flip_x: true, flip_y: false });
    let stacked = generate_level(vec![vec![1, 1, 2]], &p, None, None);
    assert_eq!(stacked[0][1], Tile::default());
}
