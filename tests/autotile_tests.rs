use autotile::autotile::{FlipAxis, TileLayout, TileMatcher, TileStatus};
use autotile::ldtk::AutoLayerRuleDefinition;

fn rule(size: i64, pattern: Vec<i64>) -> AutoLayerRuleDefinition {
    AutoLayerRuleDefinition { size, pattern, tile_rects_ids: vec![vec![1]], flip_x: false, flip_y: false }
}

#[test]
fn ignore_accepts_everything() {
    assert!(TileStatus::Ignore.accepts(&None));
    assert!(TileStatus::Ignore.accepts(&Some(0)));
    assert!(TileStatus::Ignore.accepts(&Some(42)));
}

#[test]
fn nothing_accepts_only_empty() {
    assert!(TileStatus::Nothing.accepts(&None));
    assert!(!TileStatus::Nothing.accepts(&Some(3)));
}

#[test]
fn anything_accepts_only_present() {
    assert!(TileStatus::Anything.accepts(&Some(3)));
    assert!(!TileStatus::Anything.accepts(&None));
}

#[test]
fn is_accepts_the_same_value() {
    assert!(TileStatus::Is(5).accepts(&Some(5)));
    assert!(!TileStatus::Is(5).accepts(&Some(6)));
    assert!(!TileStatus::Is(5).accepts(&None));
}

#[test]
fn is_not_accepts_other_present_values() {
    assert!(TileStatus::IsNot(5).accepts(&Some(6)));
    assert!(!TileStatus::IsNot(5).accepts(&Some(5)));
    assert!(!TileStatus::IsNot(5).accepts(&None));
}

#[test]
fn default_status_is_ignore() {
    assert_eq!(TileStatus::default(), TileStatus::Ignore);
}

#[test]
fn encodes_each_slot() {
    assert_eq!(TileStatus::Ignore.to_ldtk_value(), 0);
    assert_eq!(TileStatus::Nothing.to_ldtk_value(), -1000001);
    assert_eq!(TileStatus::Anything.to_ldtk_value(), 1000001);
    assert_eq!(TileStatus::Is(7).to_ldtk_value(), 7);
    assert_eq!(TileStatus::IsNot(7).to_ldtk_value(), -7);
}

#[test]
fn decodes_each_value() {
    assert_eq!(TileStatus::from_ldtk_value(0), TileStatus::Ignore);
    assert_eq!(TileStatus::from_ldtk_value(1000001), TileStatus::Anything);
    assert_eq!(TileStatus::from_ldtk_value(-1000001), TileStatus::Nothing);
    assert_eq!(TileStatus::from_ldtk_value(12), TileStatus::Is(12));
    assert_eq!(TileStatus::from_ldtk_value(-12), TileStatus::IsNot(12));
    assert_eq!(TileStatus::from_ldtk_value(i64::MIN), TileStatus::IsNot(1usize << 63));
}

#[test]
fn encoding_round_trips() {
    let statuses = vec![
        TileStatus::Ignore,
        TileStatus::Nothing,
        TileStatus::Anything,
        TileStatus::Is(1),
        TileStatus::Is(999),
        TileStatus::IsNot(1),
        TileStatus::IsNot(1000002),
        TileStatus::Is(i64::MAX as usize),
    ];
    for s in statuses {
        assert_eq!(TileStatus::from_ldtk_value(s.to_ldtk_value()), s);
    }
}

#[test]
fn zero_value_does_not_round_trip() {
    assert_eq!(TileStatus::from_ldtk_value(TileStatus::Is(0).to_ldtk_value()), TileStatus::Ignore);
}

#[test]
fn decodes_a_rule_pattern() {
    let m = TileMatcher::from_rule(&rule(3, vec![0, 1, 2, -3, 1000001, -1000001, 4, 5, 6]));
    assert_eq!(m.size, 3);
    assert_eq!(
        m.matcher,
        vec![
            TileStatus::Ignore,
            TileStatus::Is(1),
            TileStatus::Is(2),
            TileStatus::IsNot(3),
            TileStatus::Anything,
            TileStatus::Nothing,
            TileStatus::Is(4),
            TileStatus::Is(5),
            TileStatus::Is(6),
        ]
    );
}

#[test]
fn flips_reverse_columns_and_rows() {
    let m = TileMatcher::from_rule(&rule(3, vec![1, 2, 3, 4, 5, 6, 7, 8, 9]));
    let is = |v: Vec<usize>| v.into_iter().map(TileStatus::Is).collect::<Vec<_>>();
    assert_eq!(m.flip_x().matcher, is(vec![3, 2, 1, 6, 5, 4, 9, 8, 7]));
    assert_eq!(m.flip_y().matcher, is(vec![7, 8, 9, 4, 5, 6, 1, 2, 3]));
    assert_eq!(m.flip_x().flip_y().matcher, is(vec![9, 8, 7, 6, 5, 4, 3, 2, 1]));
    let rows = m.to_matrix();
    assert_eq!(rows.len(), 3);
    assert_eq!(rows[1], is(vec![4, 5, 6]));
}

#[test]
fn matches_checks_every_slot() {
    let m = TileMatcher::from_rule(&rule(3, vec![0, 0, 0, 0, 1000001, 2, 0, 0, 0]));
    let hit = TileLayout(vec![None, None, None, None, Some(1), Some(2), None, None, None]);
    let miss = TileLayout(vec![None, None, None, None, Some(1), Some(3), None, None, None]);
    assert!(m.matches(&hit));
    assert!(!m.matches(&miss));
}

#[test]
fn mirrored_layout_matches_only_flipped_pattern() {
    let p = TileMatcher::from_rule(&rule(3, vec![1, 2, 3, 4, 5, 6, 7, 8, 9]));
    let layout = TileLayout(vec![
        Some(3), Some(2), Some(1),
        Some(6), Some(5), Some(4),
        Some(9), Some(8), Some(7),
    ]);
    assert!(p.matches_flip(FlipAxis::X, &layout));
    assert!(!p.matches(&layout));
    assert!(!p.matches_flip(FlipAxis::Y, &layout));
    assert!(!p.matches_flip(FlipAxis::XY, &layout));
}

#[test]
fn layout_from_matrix_marks_empty_values() {
    let layout = TileLayout::from_matrix(vec![vec![0, 1], vec![-1, 7]], vec![0, -1]);
    assert_eq!(layout.0, vec![None, Some(1), None, Some(7)]);
}
