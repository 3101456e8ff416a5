//! The decoded level-design project: levels, layer instances and the layer
//! definitions that carry the autotiling rules.
use vstd::prelude::*;

verus! {

/// The kind of a layer definition; only semantic and derived layers are resolved.
#[derive(PartialEq, Eq, Structural, Clone, Copy, Debug)]
pub enum Type {
    IntGrid,
    AutoLayer,
    Entities,
    Tiles,
}

/// A whole project: its levels and the definitions shared by them.
pub struct Project {
    pub levels: Vec<Level>,
    pub defs: Definitions,
}

pub struct Definitions {
    pub layers: Vec<LayerDefinition>,
}

/// A layer definition, in declaration order (topmost first).
pub struct LayerDefinition {
    pub identifier: String,
    pub purple_type: Type,
    pub int_grid_values: Vec<IntGridValueDefinition>,
    pub auto_rule_groups: Vec<AutoLayerRuleGroup>,
}

/// A semantic value, optionally named after the rule group that tiles it.
pub struct IntGridValueDefinition {
    pub value: i64,
    pub identifier: Option<String>,
}

/// A named, ordered list of rules.
pub struct AutoLayerRuleGroup {
    pub name: String,
    pub rules: Vec<AutoLayerRuleDefinition>,
}

/// One rule: a `size` x `size` pattern of flat-encoded slots, row-major, the
/// tile it produces and the mirrorings it may be matched with.
pub struct AutoLayerRuleDefinition {
    pub size: i64,
    pub pattern: Vec<i64>,
    pub tile_rects_ids: Vec<Vec<i64>>,
    pub flip_x: bool,
    pub flip_y: bool,
}

pub struct Level {
    pub identifier: String,
    pub px_wid: i64,
    pub px_hei: i64,
    pub field_instances: Vec<FieldInstance>,
    pub layer_instances: Option<Vec<LayerInstance>>,
}

/// A custom field of a level; `value` holds the field's value as JSON text.
pub struct FieldInstance {
    pub identifier: String,
    pub value: Option<String>,
}

/// The content of one layer in one level.
pub struct LayerInstance {
    pub identifier: String,
    pub int_grid_csv: Vec<i64>,
    pub entity_instances: Vec<EntityInstance>,
}

/// A point entity; `px` is its pixel position `[x, y]` inside the level.
pub struct EntityInstance {
    pub identifier: String,
    pub px: Vec<i64>,
}

/// Side of a cell in pixels.
pub const TILE_PIXELS: i64 = 16;

/// The number of whole cells in a pixel length, rounded toward zero.
pub open spec fn cells_of(px: i64) -> int {
    if px >= 0 {
        px as int / TILE_PIXELS as int
    } else {
        -((-(px as int)) / TILE_PIXELS as int)
    }
}

/// Character-wise equality of two strings.
pub fn str_eq(a: &str, b: &str) -> (r: bool)
    ensures
        r == (a@ == b@),
{
    let n = a.unicode_len();
    let m = b.unicode_len();
    if n != m {
        return false;
    }
    let mut i: usize = 0;
    while i < n
        invariant
            n == a@.len(),
            m == b@.len(),
            n == m,
            i <= n,
            forall|j: int| 0 <= j < i ==> a@[j] == b@[j],
        decreases n - i,
    {
        if a.get_char(i) != b.get_char(i) {
            return false;
        }
        i = i + 1;
    }
    assert(a@ =~= b@);
    true
}

/// The index of the first field named `name`, searching from `i`.
pub open spec fn first_field_from(fields: Seq<FieldInstance>, name: Seq<char>, i: int) -> Option<int>
    decreases fields.len() - i,
{
    if i < 0 || i >= fields.len() {
        None
    } else if fields[i].identifier@ == name {
        Some(i)
    } else {
        first_field_from(fields, name, i + 1)
    }
}

/// The index of the first layer instance named `name`, searching from `i`.
pub open spec fn first_layer_from(layers: Seq<LayerInstance>, name: Seq<char>, i: int) -> Option<int>
    decreases layers.len() - i,
{
    if i < 0 || i >= layers.len() {
        None
    } else if layers[i].identifier@ == name {
        Some(i)
    } else {
        first_layer_from(layers, name, i + 1)
    }
}

/// The index of the first definition of the semantic value `v`, searching from `i`.
pub open spec fn first_value_from(defs: Seq<IntGridValueDefinition>, v: i64, i: int) -> Option<int>
    decreases defs.len() - i,
{
    if i < 0 || i >= defs.len() {
        None
    } else if defs[i].value == v {
        Some(i)
    } else {
        first_value_from(defs, v, i + 1)
    }
}

/// The index of the first rule group named `name`, searching from `i`.
pub open spec fn first_group_from(groups: Seq<AutoLayerRuleGroup>, name: Seq<char>, i: int) -> Option<int>
    decreases groups.len() - i,
{
    if i < 0 || i >= groups.len() {
        None
    } else if groups[i].name@ == name {
        Some(i)
    } else {
        first_group_from(groups, name, i + 1)
    }
}

/// The definition that governs the semantic value `v` in a layer, if any.
pub open spec fn value_definition(layer: LayerDefinition, v: i64) -> Option<IntGridValueDefinition> {
    match first_value_from(layer.int_grid_values@, v, 0) {
        Some(i) => Some(layer.int_grid_values@[i]),
        None => None,
    }
}

/// The rule group a value definition is tiled by: the first group named after it.
pub open spec fn rule_group_of(def: IntGridValueDefinition, groups: Seq<AutoLayerRuleGroup>) -> Option<AutoLayerRuleGroup> {
    match def.identifier {
        Some(name) => match first_group_from(groups, name@, 0) {
            Some(i) => Some(groups[i]),
            None => None,
        },
        None => None,
    }
}

/// The rules of a sequence of groups, group after group.
pub open spec fn rules_of_groups(groups: Seq<AutoLayerRuleGroup>) -> Seq<AutoLayerRuleDefinition> {
    groups.map_values(|g: AutoLayerRuleGroup| g.rules@).flatten()
}

/// The value definitions of a sequence of layers, layer after layer.
pub open spec fn values_of_layers(layers: Seq<LayerDefinition>) -> Seq<IntGridValueDefinition> {
    layers.map_values(|l: LayerDefinition| l.int_grid_values@).flatten()
}

/// The tile a rule produces: its identifier when exactly one is listed, else 0.
pub open spec fn single_tile_id(rule: AutoLayerRuleDefinition) -> i64 {
    if rule.tile_rects_ids@.len() == 1 && rule.tile_rects_ids@[0]@.len() >= 1 {
        rule.tile_rects_ids@[0]@[0]
    } else {
        0
    }
}

impl Project {
    pub fn count_level(&self) -> (r: i32)
        requires
            self.levels@.len() <= i32::MAX,
        ensures
            r == self.levels@.len(),
    {
        self.levels.len() as i32
    }

    /// All semantic value definitions of all layers, in declaration order.
    pub fn all_intgrid_values(&self) -> (r: Vec<&IntGridValueDefinition>)
        ensures
            r@.len() == values_of_layers(self.defs.layers@).len(),
            forall|k: int| 0 <= k < r@.len() ==> *r@[k] == values_of_layers(self.defs.layers@)[k],
    {
        let layers = &self.defs.layers;
        let mut values: Vec<&IntGridValueDefinition> = Vec::new();
        let mut i: usize = 0;
        while i < layers.len()
            invariant
                i <= layers@.len(),
                values@.len() == values_of_layers(layers@.take(i as int)).len(),
                forall|k: int| 0 <= k < values@.len() ==> *values@[k] == values_of_layers(layers@.take(i as int))[k],
            decreases layers@.len() - i,
        {
            let layer = &layers[i];
            let mut j: usize = 0;
            while j < layer.int_grid_values.len()
                invariant
                    i < layers@.len(),
                    *layer == layers@[i as int],
                    j <= layer.int_grid_values@.len(),
                    values@.len() == (values_of_layers(layers@.take(i as int)) + layer.int_grid_values@.take(j as int)).len(),
                    forall|k: int| 0 <= k < values@.len() ==> *values@[k] == (values_of_layers(layers@.take(i as int)) + layer.int_grid_values@.take(j as int))[k],
                decreases layer.int_grid_values@.len() - j,
            {
                values.push(&layer.int_grid_values[j]);
                assert(layer.int_grid_values@.take(j as int + 1) =~= layer.int_grid_values@.take(j as int).push(layer.int_grid_values@[j as int]));
                j = j + 1;
            }
            proof {
                let f = |l: LayerDefinition| l.int_grid_values@;
                assert(layers@.take(i as int + 1) =~= layers@.take(i as int).push(layers@[i as int]));
                assert(layers@.take(i as int + 1).map_values(f) =~= layers@.take(i as int).map_values(f).push(f(layers@[i as int])));
                layers@.take(i as int).map_values(f).lemma_flatten_push(f(layers@[i as int]));
                assert(layer.int_grid_values@.take(j as int) =~= layer.int_grid_values@);
            }
            i = i + 1;
        }
        assert(layers@.take(i as int) =~= layers@);
        values
    }
}

impl Level {
    /// The first custom field named `field_name`, if any.
    pub fn get_field(&self, field_name: &str) -> (r: Option<&FieldInstance>)
        ensures
            match first_field_from(self.field_instances@, field_name@, 0) {
                Some(i) => r == Some(&self.field_instances@[i]),
                None => r.is_none(),
            },
    {
        let fields = &self.field_instances;
        let mut i: usize = 0;
        assert(fields@ == self.field_instances@);
        while i < fields.len()
            invariant
                i <= fields@.len(),
                *fields == self.field_instances,
                first_field_from(fields@, field_name@, 0) == first_field_from(fields@, field_name@, i as int),
            decreases fields@.len() - i,
        {
            if str_eq(fields[i].identifier.as_str(), field_name) {
                return Some(&fields[i]);
            }
            i = i + 1;
        }
        None
    }

    /// The first layer instance named `layer_name`, if the level has layers and one is so named.
    pub fn get_layer(&self, layer_name: &str) -> (r: Option<&LayerInstance>)
        ensures
            match self.layer_instances {
                Some(layers) => match first_layer_from(layers@, layer_name@, 0) {
                    Some(i) => r == Some(&layers@[i]),
                    None => r.is_none(),
                },
                None => r.is_none(),
            },
    {
        match &self.layer_instances {
            None => None,
            Some(layers) => {
                let mut i: usize = 0;
                while i < layers.len()
                    invariant
                        i <= layers@.len(),
                        self.layer_instances == Some(*layers),
                        first_layer_from(layers@, layer_name@, 0) == first_layer_from(layers@, layer_name@, i as int),
                    decreases layers@.len() - i,
                {
                    if str_eq(layers[i].identifier.as_str(), layer_name) {
                        return Some(&layers[i]);
                    }
                    i = i + 1;
                }
                None
            },
        }
    }

    /// Width of the level in cells.
    pub fn tile_x(&self) -> (r: i64)
        ensures
            r == cells_of(self.px_wid),
    {
        self.px_wid / TILE_PIXELS
    }

    /// Height of the level in cells.
    pub fn tile_y(&self) -> (r: i64)
        ensures
            r == cells_of(self.px_hei),
    {
        self.px_hei / TILE_PIXELS
    }
}

impl LayerDefinition {
    /// The first definition of the semantic value `value`, if any.
    pub fn get_intgrid_value_definition(&self, value: &i64) -> (r: Option<&IntGridValueDefinition>)
        ensures
            match value_definition(*self, *value) {
                Some(d) => r == Some(&d),
                None => r.is_none(),
            },
    {
        match self.get_intgrid_value_definition_position(value) {
            Some(i) => Some(&self.int_grid_values[i]),
            None => None,
        }
    }

    /// The position of the first definition of the semantic value `value`, if any.
    pub fn get_intgrid_value_definition_position(&self, value: &i64) -> (r: Option<usize>)
        ensures
            match first_value_from(self.int_grid_values@, *value, 0) {
                Some(i) => r.is_some() && r.unwrap() as int == i && i < self.int_grid_values@.len(),
                None => r.is_none(),
            },
    {
        let defs = &self.int_grid_values;
        let mut i: usize = 0;
        while i < defs.len()
            invariant
                i <= defs@.len(),
                *defs == self.int_grid_values,
                first_value_from(defs@, *value, 0) == first_value_from(defs@, *value, i as int),
            decreases defs@.len() - i,
        {
            if defs[i].value == *value {
                return Some(i);
            }
            i = i + 1;
        }
        None
    }

    /// The rules of all groups of the layer, group after group.
    pub fn all_rules(&self) -> (r: Vec<&AutoLayerRuleDefinition>)
        ensures
            r@.len() == rules_of_groups(self.auto_rule_groups@).len(),
            forall|k: int| 0 <= k < r@.len() ==> *r@[k] == rules_of_groups(self.auto_rule_groups@)[k],
    {
        let groups = &self.auto_rule_groups;
        let mut rules: Vec<&AutoLayerRuleDefinition> = Vec::new();
        let mut i: usize = 0;
        while i < groups.len()
            invariant
                i <= groups@.len(),
                rules@.len() == rules_of_groups(groups@.take(i as int)).len(),
                forall|k: int| 0 <= k < rules@.len() ==> *rules@[k] == rules_of_groups(groups@.take(i as int))[k],
            decreases groups@.len() - i,
        {
            let group = &groups[i];
            let mut j: usize = 0;
            while j < group.rules.len()
                invariant
                    i < groups@.len(),
                    *group == groups@[i as int],
                    j <= group.rules@.len(),
                    rules@.len() == (rules_of_groups(groups@.take(i as int)) + group.rules@.take(j as int)).len(),
                    forall|k: int| 0 <= k < rules@.len() ==> *rules@[k] == (rules_of_groups(groups@.take(i as int)) + group.rules@.take(j as int))[k],
                decreases group.rules@.len() - j,
            {
                rules.push(&group.rules[j]);
                assert(group.rules@.take(j as int + 1) =~= group.rules@.take(j as int).push(group.rules@[j as int]));
                j = j + 1;
            }
            proof {
                let f = |g: AutoLayerRuleGroup| g.rules@;
                assert(groups@.take(i as int + 1) =~= groups@.take(i as int).push(groups@[i as int]));
                assert(groups@.take(i as int + 1).map_values(f) =~= groups@.take(i as int).map_values(f).push(f(groups@[i as int])));
                groups@.take(i as int).map_values(f).lemma_flatten_push(f(groups@[i as int]));
                assert(group.rules@.take(j as int) =~= group.rules@);
            }
            i = i + 1;
        }
        assert(groups@.take(i as int) =~= groups@);
        rules
    }
}

impl IntGridValueDefinition {
    /// The first group of `groups` named after this value, if it is named.
    pub fn get_auto_rule_group<'a>(&'a self, groups: &'a Vec<AutoLayerRuleGroup>) -> (r: Option<&'a AutoLayerRuleGroup>)
        ensures
            match rule_group_of(*self, groups@) {
                Some(g) => r == Some(&g),
                None => r.is_none(),
            },
    {
        match &self.identifier {
            None => None,
            Some(name) => {
                let mut i: usize = 0;
                while i < groups.len()
                    invariant
                        i <= groups@.len(),
                        self.identifier == Some(*name),
                        first_group_from(groups@, name@, 0) == first_group_from(groups@, name@, i as int),
                    decreases groups@.len() - i,
                {
                    if str_eq(groups[i].name.as_str(), name.as_str()) {
                        return Some(&groups[i]);
                    }
                    i = i + 1;
                }
                None
            },
        }
    }
}

impl AutoLayerRuleDefinition {
    /// The tile identifier the rule produces.
    pub fn get_single_tile_id(&self) -> (r: i64)
        ensures
            r == single_tile_id(*self),
    {
        if self.tile_rects_ids.len() == 1 && self.tile_rects_ids[0].len() >= 1 {
            self.tile_rects_ids[0][0]
        } else {
            0
        }
    }
}


/// A found group lies in the searched range.
pub proof fn lemma_first_group_in_range(groups: Seq<AutoLayerRuleGroup>, name: Seq<char>, i: int)
    requires
        0 <= i,
        first_group_from(groups, name, i) is Some,
    ensures
        i <= first_group_from(groups, name, i)->0 < groups.len(),
        groups[first_group_from(groups, name, i)->0].name@ == name,
    decreases groups.len() - i,
{
    if i < groups.len() && groups[i].name@ != name {
        lemma_first_group_in_range(groups, name, i + 1);
    }
}

} // verus!
