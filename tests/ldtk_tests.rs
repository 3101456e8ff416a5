use autotile::ldtk::{
    str_eq, AutoLayerRuleDefinition, AutoLayerRuleGroup, Definitions, FieldInstance, IntGridValueDefinition,
    LayerDefinition, LayerInstance, Level, Project, Type,
};
use autotile::utils::{format_name, get_file_name};

fn rule(id: Vec<Vec<i64>>) -> AutoLayerRuleDefinition {
    AutoLayerRuleDefinition { size: 1, pattern: vec![0], tile_rects_ids: id, flip_x: false, flip_y: false }
}

fn layer() -> LayerDefinition {
    LayerDefinition {
        identifier: "Cells".to_string(),
        purple_type: Type::IntGrid,
        int_grid_values: vec![
            IntGridValueDefinition { value: 1, identifier: Some("Road".to_string()) },
            IntGridValueDefinition { value: 2, identifier: None },
            IntGridValueDefinition { value: 1, identifier: Some("Other".to_string()) },
        ],
        auto_rule_groups: vec![
            AutoLayerRuleGroup { name: "Road".to_string(), rules: vec![rule(vec![vec![4]]), rule(vec![])] },
            AutoLayerRuleGroup { name: "Dirt".to_string(), rules: vec![rule(vec![vec![6], vec![7]])] },
        ],
    }
}

fn level() -> Level {
    Level {
        identifier: "Level_0".to_string(),
        px_wid: 160,
        px_hei: -40,
        field_instances: vec![FieldInstance { identifier: "Name".to_string(), value: Some("\"Town\"".to_string()) }],
        layer_instances: Some(vec![
            LayerInstance { identifier: "Base".to_string(), int_grid_csv: vec![1], entity_instances: vec![] },
            LayerInstance { identifier: "Base".to_string(), int_grid_csv: vec![2], entity_instances: vec![] },
        ]),
    }
}

#[test]
fn finds_value_definitions() {
    let l = layer();
    assert_eq!(l.get_intgrid_value_definition_position(&1), Some(0));
    assert_eq!(l.get_intgrid_value_definition_position(&2), Some(1));
    assert_eq!(l.get_intgrid_value_definition_position(&3), None);
    let d = l.get_intgrid_value_definition(&1).unwrap();
    assert_eq!(d.identifier.as_deref(), Some("Road"));
    assert!(l.get_intgrid_value_definition(&3).is_none());
}

#[test]
fn finds_rule_groups_by_name() {
    let l = layer();
    let road = l.int_grid_values[0].get_auto_rule_group(&l.auto_rule_groups).unwrap();
    assert_eq!(road.name, "Road");
    assert!(l.int_grid_values[1].get_auto_rule_group(&l.auto_rule_groups).is_none());
    assert!(l.int_grid_values[2].get_auto_rule_group(&l.auto_rule_groups).is_none());
}

#[test]
fn lists_all_rules_and_values() {
    let l = layer();
    let rules = l.all_rules();
    assert_eq!(rules.len(), 3);
    assert_eq!(rules[2].tile_rects_ids, vec![vec![6], vec![7]]);
    let p = Project { levels: vec![level()], defs: Definitions { layers: vec![layer(), layer()] } };
    assert_eq!(p.all_intgrid_values().len(), 6);
    assert_eq!(p.count_level(), 1);
}

#[test]
fn single_tile_id_needs_exactly_one_id() {
    assert_eq!(rule(vec![vec![4]]).get_single_tile_id(), 4);
    assert_eq!(rule(vec![]).get_single_tile_id(), 0);
    assert_eq!(rule(vec![vec![6], vec![7]]).get_single_tile_id(), 0);
}

#[test]
fn finds_layers_and_fields() {
    let lv = level();
    assert_eq!(lv.get_layer("Base").unwrap().int_grid_csv, vec![1]);
    assert!(lv.get_layer("Trees").is_none());
    assert_eq!(lv.get_field("Name").unwrap().value.as_deref(), Some("\"Town\""));
    assert!(lv.get_field("Other").is_none());
    assert_eq!(lv.tile_x(), 10);
    assert_eq!(lv.tile_y(), -2);
    assert!(str_eq("abc", "abc"));
    assert!(!str_eq("abc", "abd"));
}

#[test]
fn file_names_lose_their_extensions() {
    assert_eq!(get_file_name("assets/maps/chunks.ldtk"), Some("chunks".to_string()));
    assert_eq!(get_file_name("particles/dash.particle.ron"), Some("dash".to_string()));
    assert_eq!(get_file_name("noext"), Some("noext".to_string()));
    assert_eq!(get_file_name("a/.."), None);
}

#[test]
fn names_are_formatted_for_display() {
    assert_eq!(format_name("my-first-level".to_string()), "My first level");
    assert_eq!(format_name("-x".to_string()), " x");
    assert_eq!(format_name(String::new()), "");
    assert_eq!(format_name("é-b".to_string()), "É b");
}
