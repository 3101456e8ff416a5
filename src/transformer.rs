//! The layer resolver: every cell of a semantic grid is given the tile of the
//! first rule that matches its neighborhood, layer by layer, and the layers
//! are then stacked into one grid.
use vstd::prelude::*;

use crate::autotile::{
    flip_x_seq, flip_y_seq, layout_of, matches_spec, pattern_of, rule_wf, FlipAxis, TileLayout,
    TileMatcher,
};
use crate::grid::{cell_or, grid_view, neighborhood, rows_have_len, Matrix};
use crate::ldtk::{
    lemma_first_group_in_range, rule_group_of, rules_of_groups, value_definition,
    AutoLayerRuleDefinition, AutoLayerRuleGroup, LayerDefinition, Project, Type,
};
use crate::types::{empty_tile, MatrixType, Tile};

verus! {

/// The raw values that are observed as empty cells.
pub open spec fn empty_values() -> Seq<i64> {
    seq![0i64, -1i64]
}

/// The neighborhood a rule is tested against at column `x`, row `y`, with `d`
/// standing for the cells outside the grid.
pub open spec fn rule_layout(rule: AutoLayerRuleDefinition, g: Seq<Seq<i64>>, x: int, y: int, d: i64) -> Seq<Option<usize>> {
    layout_of(neighborhood(g, x, y, rule.size as int / 2, d), empty_values())
}

/// The tile a rule gives for a layout: the pattern as declared first, then its
/// mirror along X if the rule allows it, then along Y if allowed, then along
/// both only if both are allowed; `None` when none of these matches.
pub open spec fn rule_outcome(rule: AutoLayerRuleDefinition, layout: Seq<Option<usize>>) -> Option<Tile> {
    let p = pattern_of(rule);
    let n = rule.size as int;
    let id = crate::ldtk::single_tile_id(rule);
    if matches_spec(p, layout) {
        Some(Tile { value: id, flip_x: false, flip_y: false })
    } else if rule.flip_x && matches_spec(flip_x_seq(p, n), layout) {
        Some(Tile { value: id, flip_x: true, flip_y: false })
    } else if rule.flip_y && matches_spec(flip_y_seq(p, n), layout) {
        Some(Tile { value: id, flip_x: false, flip_y: true })
    } else if rule.flip_x && rule.flip_y && matches_spec(flip_y_seq(flip_x_seq(p, n), n), layout) {
        Some(Tile { value: id, flip_x: true, flip_y: true })
    } else {
        None
    }
}

/// The tile of the first rule, from the `i`-th on, that matches at column `x`,
/// row `y`; the empty tile when none does.
pub open spec fn first_match_from(rules: Seq<AutoLayerRuleDefinition>, g: Seq<Seq<i64>>, x: int, y: int, d: i64, i: int) -> Tile
    decreases rules.len() - i,
{
    if i < 0 || i >= rules.len() {
        empty_tile()
    } else {
        match rule_outcome(rules[i], rule_layout(rules[i], g, x, y, d)) {
            Some(t) => t,
            None => first_match_from(rules, g, x, y, d, i + 1),
        }
    }
}

/// The tile of the first matching rule at column `x`, row `y`.
pub open spec fn first_match(rules: Seq<AutoLayerRuleDefinition>, g: Seq<Seq<i64>>, x: int, y: int, d: i64) -> Tile {
    first_match_from(rules, g, x, y, d, 0)
}

/// The cell of a semantic layer: a value without a rule group stands for
/// itself; one with a group takes the first matching rule of that group.
pub open spec fn intgrid_cell(layer: LayerDefinition, g: Seq<Seq<i64>>, x: int, y: int) -> Tile {
    let v = g[y][x];
    match value_definition(layer, v) {
        None => Tile { value: v, flip_x: false, flip_y: false },
        Some(def) => match rule_group_of(def, layer.auto_rule_groups@) {
            None => Tile { value: v, flip_x: false, flip_y: false },
            Some(group) => first_match(group.rules@, g, x, y, def.value),
        },
    }
}

/// The cell of a derived layer: the first matching rule of all its groups.
pub open spec fn auto_cell(layer: LayerDefinition, g: Seq<Seq<i64>>, x: int, y: int) -> Tile {
    first_match(rules_of_groups(layer.auto_rule_groups@), g, x, y, g[y][x])
}

/// Whether layers of this kind are resolved.
pub open spec fn resolvable(t: Type) -> bool {
    t == Type::IntGrid || t == Type::AutoLayer
}

/// A resolved layer: one tile for each cell of the semantic grid.
pub open spec fn resolve_layer_spec(layer: LayerDefinition, g: Seq<Seq<i64>>) -> Seq<Seq<Tile>> {
    Seq::new(
        g.len(),
        |y: int|
            Seq::new(
                g[y].len(),
                |x: int|
                    if layer.purple_type == Type::IntGrid {
                        intgrid_cell(layer, g, x, y)
                    } else {
                        auto_cell(layer, g, x, y)
                    },
            ),
    )
}

/// Every rule of every group of the layer is well formed.
pub open spec fn layer_wf(layer: LayerDefinition) -> bool {
    forall|i: int, j: int|
        0 <= i < layer.auto_rule_groups@.len() && 0 <= j < layer.auto_rule_groups@[i].rules@.len()
            ==> rule_wf(#[trigger] layer.auto_rule_groups@[i].rules@[j])
}

/// Every rule of the project is well formed.
pub open spec fn project_wf(project: Project) -> bool {
    forall|l: int| 0 <= l < project.defs.layers@.len() ==> layer_wf(#[trigger] project.defs.layers@[l])
}

/// Whether layer `i` is among the hidden ones.
pub open spec fn is_hidden(hide: Option<Seq<usize>>, i: int) -> bool {
    match hide {
        Some(h) => h.contains(i as usize),
        None => false,
    }
}

/// The resolved grids of the first `i` layers that are neither hidden nor of
/// an unresolved kind, in declaration order.
pub open spec fn resolved_upto(layers: Seq<LayerDefinition>, g: Seq<Seq<i64>>, hide: Option<Seq<usize>>, i: int) -> Seq<Seq<Seq<Tile>>>
    decreases i,
{
    if i <= 0 {
        Seq::empty()
    } else {
        let prev = resolved_upto(layers, g, hide, i - 1);
        if !is_hidden(hide, i - 1) && resolvable(layers[i - 1].purple_type) {
            prev.push(resolve_layer_spec(layers[i - 1], g))
        } else {
            prev
        }
    }
}

/// How many of the first `i` layers are resolved.
pub open spec fn resolved_count_upto(layers: Seq<LayerDefinition>, hide: Option<Seq<usize>>, i: int) -> nat
    decreases i,
{
    if i <= 0 {
        0
    } else {
        let prev = resolved_count_upto(layers, hide, i - 1);
        if !is_hidden(hide, i - 1) && resolvable(layers[i - 1].purple_type) {
            prev + 1
        } else {
            prev
        }
    }
}

/// The resolved grids of all layers of the project that are resolved.
pub open spec fn resolved_layers(project: Project, g: Seq<Seq<i64>>, hide: Option<Seq<usize>>) -> Seq<Seq<Seq<Tile>>> {
    resolved_upto(project.defs.layers@, g, hide, project.defs.layers@.len() as int)
}

/// The tile of the first grid, from the `k`-th on, that is not empty at
/// column `x`, row `y`; the empty tile when all are.
pub open spec fn first_nonempty_from(ls: Seq<Seq<Seq<Tile>>>, k: int, y: int, x: int) -> Tile
    decreases ls.len() - k,
{
    if k < 0 || k >= ls.len() {
        empty_tile()
    } else if ls[k][y][x].value != 0 {
        ls[k][y][x]
    } else {
        first_nonempty_from(ls, k + 1, y, x)
    }
}

/// The grids from the `k`-th on stacked: at each cell, the first of them
/// that is not empty there.
pub open spec fn composite_from(ls: Seq<Seq<Seq<Tile>>>, k: int, width: int, height: int) -> Seq<Seq<Tile>> {
    Seq::new(height as nat, |y: int| Seq::new(width as nat, |x: int| first_nonempty_from(ls, k, y, x)))
}

/// Grids stacked in declaration order: the first declared grid that is not
/// empty at a cell gives that cell.
pub open spec fn composite(ls: Seq<Seq<Seq<Tile>>>, width: int, height: int) -> Seq<Seq<Tile>> {
    composite_from(ls, 0, width, height)
}

/// The grids of a stack, as sequences.
pub open spec fn stack_view(v: Seq<MatrixType<Tile>>) -> Seq<Seq<Seq<Tile>>> {
    v.map_values(|m: MatrixType<Tile>| grid_view(m@))
}

/// Whether every grid of the stack covers `height` rows of `width` cells.
pub open spec fn covers(ls: Seq<Seq<Seq<Tile>>>, width: int, height: int) -> bool {
    forall|k: int| 0 <= k < ls.len() ==> #[trigger] ls[k].len() >= height && forall|y: int|
        0 <= y < height ==> #[trigger] ls[k][y].len() >= width
}

/// The references of a rule list, dereferenced.
pub open spec fn deref_rules(rules: Seq<&AutoLayerRuleDefinition>) -> Seq<AutoLayerRuleDefinition> {
    rules.map_values(|r: &AutoLayerRuleDefinition| *r)
}

proof fn lemma_flatten_square<A>(s: Seq<Seq<A>>, n: int)
    requires
        0 <= n,
        forall|i: int| 0 <= i < s.len() ==> (#[trigger] s[i]).len() == n,
    ensures
        s.flatten().len() == s.len() * n,
    decreases s.len(),
{
    if s.len() > 0 {
        lemma_flatten_square(s.drop_first(), n);
        assert(s.len() * n == (s.len() - 1) * n + n) by (nonlinear_arith);
    }
}

proof fn lemma_flatten_all<A>(s: Seq<Seq<A>>, p: spec_fn(A) -> bool)
    requires
        forall|i: int, j: int| 0 <= i < s.len() && 0 <= j < s[i].len() ==> p(#[trigger] s[i][j]),
    ensures
        forall|k: int| 0 <= k < s.flatten().len() ==> p(#[trigger] s.flatten()[k]),
    decreases s.len(),
{
    if s.len() > 0 {
        lemma_flatten_all(s.drop_first(), p);
        assert forall|k: int| 0 <= k < s.flatten().len() implies p(#[trigger] s.flatten()[k]) by {
            assert(s.flatten() == s[0] + s.drop_first().flatten());
            if k < s[0].len() {
                assert(p(s[0][k]));
            } else {
                assert(s.drop_first()[0] == s[1]);
                assert(p(s.drop_first().flatten()[k - s[0].len()]));
            }
        }
    }
}

/// References to each rule of a list, in order.
fn rule_refs(rules: &Vec<AutoLayerRuleDefinition>) -> (r: Vec<&AutoLayerRuleDefinition>)
    ensures
        deref_rules(r@) == rules@,
{
    let mut refs: Vec<&AutoLayerRuleDefinition> = Vec::new();
    let mut i: usize = 0;
    while i < rules.len()
        invariant
            i <= rules@.len(),
            deref_rules(refs@) == rules@.take(i as int),
        decreases rules@.len() - i,
    {
        let ghost before = refs@;
        refs.push(&rules[i]);
        assert(refs@ == before.push(&rules@[i as int]));
        assert(deref_rules(refs@) =~= deref_rules(before).push(rules@[i as int]));
        assert(rules@.take(i as int + 1) =~= rules@.take(i as int).push(rules@[i as int]));
        i = i + 1;
    }
    assert(rules@.take(i as int) =~= rules@);
    refs
}

/// The tile a rule gives at column `x`, row `y` of the grid, if it matches there.
fn rule_tile(rule: &AutoLayerRuleDefinition, map: &Matrix<i64>, x: usize, y: usize, default_value: i64) -> (r: Option<Tile>)
    requires
        rule_wf(*rule),
    ensures
        r == rule_outcome(*rule, rule_layout(*rule, grid_view(map.0@), x as int, y as int, default_value)),
{
    let scope = rule.size / 2;
    let surrounding = map.window(x as i128, y as i128, scope as i128, default_value);
    let mut empty: Vec<i64> = Vec::new();
    empty.push(0);
    empty.push(-1);
    assert(empty@ =~= empty_values());
    let ghost window = surrounding@.map_values(|row: Vec<i64>| row@);
    let layout = TileLayout::from_matrix(surrounding, empty);
    let matcher = TileMatcher::from_rule(rule);
    proof {
        let n = rule.size as int;
        assert(2 * (n / 2) + 1 == n);
        let rowmap = |row: Seq<i64>| row.map_values(|v: i64| crate::autotile::observe(v, empty_values()));
        assert(window == neighborhood(grid_view(map.0@), x as int, y as int, scope as int, default_value));
        lemma_flatten_square(window.map_values(rowmap), n);
        assert(n * n == rule.size * rule.size);
    }
    let id = rule.get_single_tile_id();
    if matcher.matches(&layout) {
        return Some(Tile { value: id, flip_x: false, flip_y: false });
    }
    if rule.flip_x && matcher.matches_flip(FlipAxis::X, &layout) {
        return Some(Tile { value: id, flip_x: true, flip_y: false });
    }
    if rule.flip_y && matcher.matches_flip(FlipAxis::Y, &layout) {
        return Some(Tile { value: id, flip_x: false, flip_y: true });
    }
    if rule.flip_x && rule.flip_y && matcher.matches_flip(FlipAxis::XY, &layout) {
        return Some(Tile { value: id, flip_x: true, flip_y: true });
    }
    None
}

/// The tile of the first rule that matches at column `x`, row `y`, or the empty tile.
fn first_matching_tile(rules: &Vec<&AutoLayerRuleDefinition>, map: &Matrix<i64>, x: usize, y: usize, default_value: i64) -> (r: Tile)
    requires
        forall|k: int| 0 <= k < rules@.len() ==> rule_wf(*#[trigger] rules@[k]),
    ensures
        r == first_match(deref_rules(rules@), grid_view(map.0@), x as int, y as int, default_value),
{
    let ghost rs = deref_rules(rules@);
    let ghost g = grid_view(map.0@);
    let mut i: usize = 0;
    while i < rules.len()
        invariant
            rs == deref_rules(rules@),
            g == grid_view(map.0@),
            forall|k: int| 0 <= k < rules@.len() ==> rule_wf(*#[trigger] rules@[k]),
            i <= rules@.len(),
            first_match(rs, g, x as int, y as int, default_value) == first_match_from(rs, g, x as int, y as int, default_value, i as int),
        decreases rules@.len() - i,
    {
        let rule: &AutoLayerRuleDefinition = rules[i];
        assert(rs[i as int] == *rule);
        match rule_tile(rule, map, x, y, default_value) {
            Some(tile) => {
                return tile;
            },
            None => {},
        }
        i = i + 1;
    }
    Tile::new(0)
}

/// The tile of one cell of a semantic layer.
fn resolve_intgrid_cell(layer: &LayerDefinition, map: &Matrix<i64>, x: usize, y: usize) -> (r: Tile)
    requires
        layer_wf(*layer),
        y < map.0@.len(),
        x < map.0@[y as int]@.len(),
    ensures
        r == intgrid_cell(*layer, grid_view(map.0@), x as int, y as int),
{
    let value = map.0[y][x];
    match layer.get_intgrid_value_definition(&value) {
        None => Tile::new(value),
        Some(def) => match def.get_auto_rule_group(&layer.auto_rule_groups) {
            None => Tile::new(value),
            Some(group) => {
                proof {
                    let name = def.identifier->0@;
                    lemma_first_group_in_range(layer.auto_rule_groups@, name, 0);
                    let gi = crate::ldtk::first_group_from(layer.auto_rule_groups@, name, 0)->0;
                    assert(*group == layer.auto_rule_groups@[gi]);
                    assert forall|k: int| 0 <= k < group.rules@.len() implies rule_wf(#[trigger] group.rules@[k]) by {
                        assert(rule_wf(layer.auto_rule_groups@[gi].rules@[k]));
                    }
                }
                let refs = rule_refs(&group.rules);
                assert forall|k: int| 0 <= k < refs@.len() implies rule_wf(*#[trigger] refs@[k]) by {
                    assert(deref_rules(refs@)[k] == *refs@[k]);
                }
                first_matching_tile(&refs, map, x, y, def.value)
            },
        },
    }
}

/// Resolves one semantic or derived layer over the whole grid.
pub fn resolve_layer(layer: &LayerDefinition, map: &Matrix<i64>) -> (r: MatrixType<Tile>)
    requires
        layer_wf(*layer),
        resolvable(layer.purple_type),
    ensures
        grid_view(r@) == resolve_layer_spec(*layer, grid_view(map.0@)),
{
    let ghost g = grid_view(map.0@);
    let rules = layer.all_rules();
    let ghost flat = rules_of_groups(layer.auto_rule_groups@);
    proof {
        assert(deref_rules(rules@) =~= flat);
        let groups = layer.auto_rule_groups@;
        let s = groups.map_values(|gr: AutoLayerRuleGroup| gr.rules@);
        assert forall|i: int, j: int| 0 <= i < s.len() && 0 <= j < s[i].len() implies rule_wf(#[trigger] s[i][j]) by {
            assert(rule_wf(groups[i].rules@[j]));
        }
        lemma_flatten_all(s, |rule: AutoLayerRuleDefinition| rule_wf(rule));
        assert forall|k: int| 0 <= k < rules@.len() implies rule_wf(*#[trigger] rules@[k]) by {
            assert(rule_wf(flat[k]));
        }
    }
    let mut gen_map: MatrixType<Tile> = Vec::new();
    let mut y: usize = 0;
    while y < map.0.len()
        invariant
            g == grid_view(map.0@),
            layer_wf(*layer),
            resolvable(layer.purple_type),
            deref_rules(rules@) == rules_of_groups(layer.auto_rule_groups@),
            forall|k: int| 0 <= k < rules@.len() ==> rule_wf(*#[trigger] rules@[k]),
            y <= map.0@.len(),
            gen_map@.len() == y,
            forall|k: int| 0 <= k < y ==> (#[trigger] gen_map@[k])@ == resolve_layer_spec(*layer, g)[k],
        decreases map.0@.len() - y,
    {
        let row = &map.0[y];
        let mut gen_row: Vec<Tile> = Vec::new();
        let mut x: usize = 0;
        while x < row.len()
            invariant
                g == grid_view(map.0@),
                layer_wf(*layer),
                resolvable(layer.purple_type),
                deref_rules(rules@) == rules_of_groups(layer.auto_rule_groups@),
                forall|k: int| 0 <= k < rules@.len() ==> rule_wf(*#[trigger] rules@[k]),
                y < map.0@.len(),
                *row == map.0@[y as int],
                x <= row@.len(),
                gen_row@.len() == x,
                forall|k: int| 0 <= k < x ==> gen_row@[k] == resolve_layer_spec(*layer, g)[y as int][k],
            decreases row@.len() - x,
        {
            let tile = match layer.purple_type {
                Type::IntGrid => resolve_intgrid_cell(layer, map, x, y),
                _ => first_matching_tile(&rules, map, x, y, row[x]),
            };
            gen_row.push(tile);
            x = x + 1;
        }
        assert(gen_row@ =~= resolve_layer_spec(*layer, g)[y as int]);
        gen_map.push(gen_row);
        y = y + 1;
    }
    assert(grid_view(gen_map@) =~= resolve_layer_spec(*layer, g));
    gen_map
}

/// Stacks grids in declaration order: each cell takes the tile of the first
/// grid that is not empty there, or the empty tile.
pub fn composite_layers(layers: &Vec<MatrixType<Tile>>, width: usize, height: usize) -> (r: MatrixType<Tile>)
    requires
        covers(stack_view(layers@), width as int, height as int),
    ensures
        grid_view(r@) == composite(stack_view(layers@), width as int, height as int),
{
    let ghost ls = stack_view(layers@);
    let mut acc = crate::grid::filled_grid(width, height, Tile::new(0));
    proof {
        let c = composite_from(ls, layers@.len() as int, width as int, height as int);
        assert forall|i: int| 0 <= i < height implies (#[trigger] grid_view(acc@)[i]) =~= c[i] by {
            assert(grid_view(acc@)[i] == crate::grid::filled(width as nat, height as nat, empty_tile())[i]);
        }
        assert(grid_view(acc@) =~= c);
    }
    let mut k: usize = layers.len();
    while k > 0
        invariant
            ls == stack_view(layers@),
            covers(ls, width as int, height as int),
            k <= layers@.len(),
            grid_view(acc@) == composite_from(ls, k as int, width as int, height as int),
        decreases k,
    {
        let layer = &layers[k - 1];
        assert(grid_view(layer@) == ls[k - 1]);
        let mut next: MatrixType<Tile> = Vec::new();
        let mut y: usize = 0;
        while y < height
            invariant
                ls == stack_view(layers@),
                covers(ls, width as int, height as int),
                0 < k <= layers@.len(),
                *layer == layers@[k - 1],
                grid_view(acc@) == composite_from(ls, k as int, width as int, height as int),
                y <= height,
                next@.len() == y,
                forall|i: int| 0 <= i < y ==> (#[trigger] next@[i])@ == composite_from(ls, k - 1, width as int, height as int)[i],
            decreases height - y,
        {
            let mut row: Vec<Tile> = Vec::new();
            let mut x: usize = 0;
            proof {
                assert(grid_view(acc@).len() == height);
                assert(acc@.len() == height);
                assert(grid_view(acc@)[y as int] == acc@[y as int]@);
                assert(grid_view(acc@)[y as int].len() == width);
                assert(ls[k - 1] == grid_view(layer@));
                assert(ls[k - 1].len() >= height);
                assert(layer@.len() >= height);
                assert(ls[k - 1][y as int] == layer@[y as int]@);
                assert(ls[k - 1][y as int].len() >= width);
            }
            while x < width
                invariant
                    ls == stack_view(layers@),
                    covers(ls, width as int, height as int),
                    0 < k <= layers@.len(),
                    *layer == layers@[k - 1],
                    grid_view(acc@) == composite_from(ls, k as int, width as int, height as int),
                    ls[k - 1][y as int] == layer@[y as int]@,
                    grid_view(acc@)[y as int] == acc@[y as int]@,
                    y < height,
                    layer@.len() >= height,
                    layer@[y as int]@.len() >= width,
                    acc@.len() == height,
                    acc@[y as int]@.len() == width,
                    x <= width,
                    row@.len() == x,
                    forall|j: int| 0 <= j < x ==> row@[j] == first_nonempty_from(ls, k - 1, y as int, j),
                decreases width - x,
            {
                let tile = layer[y][x];
                let cell = if tile.value != 0 {
                    tile
                } else {
                    acc[y][x]
                };
                row.push(cell);
                x = x + 1;
            }
            assert(row@ =~= composite_from(ls, k - 1, width as int, height as int)[y as int]);
            next.push(row);
            y = y + 1;
        }
        assert(grid_view(next@) =~= composite_from(ls, k - 1, width as int, height as int));
        acc = next;
        k = k - 1;
    }
    acc
}

/// Whether `ids` holds `id`.
fn contains_index(ids: &Vec<usize>, id: usize) -> (r: bool)
    ensures
        r == ids@.contains(id),
{
    let mut i: usize = 0;
    while i < ids.len()
        invariant
            i <= ids@.len(),
            forall|j: int| 0 <= j < i ==> ids@[j] != id,
        decreases ids@.len() - i,
    {
        if ids[i] == id {
            return true;
        }
        i = i + 1;
    }
    false
}

/// Whether layer `id` is hidden.
fn hidden(hide_layers: &Option<Vec<usize>>, id: usize) -> (r: bool)
    ensures
        r == is_hidden(
            match hide_layers {
                Some(h) => Some(h@),
                None => None,
            },
            id as int,
        ),
{
    match hide_layers {
        Some(ids) => contains_index(ids, id),
        None => false,
    }
}

/// The hidden layer indices, as a sequence.
pub open spec fn hide_view(hide_layers: Option<Vec<usize>>) -> Option<Seq<usize>> {
    match hide_layers {
        Some(h) => Some(h@),
        None => None,
    }
}

/// How many layers of the project are resolved.
pub open spec fn resolved_count(project: Project, hide: Option<Seq<usize>>) -> nat {
    resolved_count_upto(project.defs.layers@, hide, project.defs.layers@.len() as int)
}

pub proof fn lemma_resolved_count(layers: Seq<LayerDefinition>, g: Seq<Seq<i64>>, hide: Option<Seq<usize>>, i: int)
    ensures
        resolved_upto(layers, g, hide, i).len() == resolved_count_upto(layers, hide, i),
    decreases i,
{
    if i > 0 {
        lemma_resolved_count(layers, g, hide, i - 1);
    }
}

/// How many layers of the project are resolved when `hide_layers` are hidden:
/// the bound on the layer index `generate_level` accepts.
pub fn count_resolved_layers(project: &Project, hide_layers: &Option<Vec<usize>>) -> (r: usize)
    ensures
        r == resolved_count(*project, hide_view(*hide_layers)),
{
    let layers = &project.defs.layers;
    let ghost hv = hide_view(*hide_layers);
    let mut count: usize = 0;
    let mut id: usize = 0;
    while id < layers.len()
        invariant
            *layers == project.defs.layers,
            hv == hide_view(*hide_layers),
            id <= layers@.len(),
            count == resolved_count_upto(layers@, hv, id as int),
            count <= id,
        decreases layers@.len() - id,
    {
        let kind = layers[id].purple_type;
        if !hidden(hide_layers, id) && (kind == Type::IntGrid || kind == Type::AutoLayer) {
            count = count + 1;
        }
        id = id + 1;
    }
    count
}

/// Resolves every layer of the project that is neither hidden nor of another
/// kind, then stacks them; with a `layer_index`, the grid of that resolved
/// layer is returned as it is, without stacking.
pub fn generate_level(
    matrix: MatrixType<i64>,
    project: &Project,
    layer_index: Option<usize>,
    hide_layers: Option<Vec<usize>>,
) -> (r: MatrixType<Tile>)
    requires
        matrix@.len() >= 1,
        rows_have_len(grid_view(matrix@), matrix@[0]@.len() as int),
        project_wf(*project),
        layer_index matches Some(i) ==> i < resolved_count(*project, hide_view(hide_layers)),
    ensures
        match layer_index {
            Some(i) => grid_view(r@) == resolved_layers(*project, grid_view(matrix@), hide_view(hide_layers))[i as int],
            None => grid_view(r@) == composite(
                resolved_layers(*project, grid_view(matrix@), hide_view(hide_layers)),
                matrix@[0]@.len() as int,
                matrix@.len() as int,
            ),
        },
{
    let height = matrix.len();
    let width = matrix[0].len();
    let ghost g = grid_view(matrix@);
    let ghost hv = hide_view(hide_layers);
    let map = Matrix::new(matrix);
    let defs = &project.defs.layers;
    let mut layers: Vec<MatrixType<Tile>> = Vec::new();
    let mut id: usize = 0;
    while id < defs.len()
        invariant
            *defs == project.defs.layers,
            g == grid_view(map.0@),
            hv == hide_view(hide_layers),
            g.len() == height,
            height >= 1,
            rows_have_len(g, width as int),
            project_wf(*project),
            id <= defs@.len(),
            stack_view(layers@) == resolved_upto(defs@, g, hv, id as int),
            covers(stack_view(layers@), width as int, height as int),
        decreases defs@.len() - id,
    {
        let layer = &defs[id];
        let kind = layer.purple_type;
        if !hidden(&hide_layers, id) && (kind == Type::IntGrid || kind == Type::AutoLayer) {
            assert(layer_wf(defs@[id as int]));
            let resolved = resolve_layer(layer, &map);
            let ghost before = layers@;
            layers.push(resolved);
            assert(stack_view(layers@) =~= stack_view(before).push(grid_view(resolved@)));
            assert forall|k: int| 0 <= k < stack_view(layers@).len() implies #[trigger] stack_view(layers@)[k].len() >= height
                && forall|y: int| 0 <= y < height ==> #[trigger] stack_view(layers@)[k][y].len() >= width by {
                if k < before.len() {
                    assert(stack_view(layers@)[k] == stack_view(before)[k]);
                } else {
                    assert(stack_view(layers@)[k] == resolve_layer_spec(*layer, g));
                }
            }
        }
        id = id + 1;
    }
    proof {
        lemma_resolved_count(defs@, g, hv, defs@.len() as int);
    }
    match layer_index {
        Some(i) => {
            let ghost all = stack_view(layers@);
            let single = layers.remove(i);
            assert(grid_view(single@) == all[i as int]);
            single
        },
        None => composite_layers(&layers, width, height),
    }
}

/// Every resolved layer has the shape of the semantic grid: as many rows, and
/// as many cells in each row.
pub proof fn lemma_resolved_shape(layers: Seq<LayerDefinition>, g: Seq<Seq<i64>>, hide: Option<Seq<usize>>, i: int)
    ensures
        forall|k: int|
            0 <= k < resolved_upto(layers, g, hide, i).len() ==> (#[trigger] resolved_upto(layers, g, hide, i)[k]).len()
                == g.len() && forall|y: int|
                0 <= y < g.len() ==> (#[trigger] resolved_upto(layers, g, hide, i)[k][y]).len() == g[y].len(),
    decreases i,
{
    if i > 0 {
        lemma_resolved_shape(layers, g, hide, i - 1);
        let prev = resolved_upto(layers, g, hide, i - 1);
        let cur = resolved_upto(layers, g, hide, i);
        assert forall|k: int| 0 <= k < cur.len() implies (#[trigger] cur[k]).len() == g.len() && forall|y: int|
            0 <= y < g.len() ==> (#[trigger] cur[k][y]).len() == g[y].len() by {
            if k < prev.len() {
                assert(cur[k] == prev[k]);
            }
        }
    }
}

/// Whether a rule is well formed.
pub fn rule_is_well_formed(rule: &AutoLayerRuleDefinition) -> (r: bool)
    ensures
        r == rule_wf(*rule),
{
    let size = rule.size;
    if size < 1 || size % 2 != 1 {
        return false;
    }
    let wide: i128 = size as i128;
    proof {
        assert(0 < wide * wide <= 0x4000_0000_0000_0000_0000_0000_0000_0000) by (nonlinear_arith)
            requires 1 <= wide <= i64::MAX;
    }
    wide * wide == rule.pattern.len() as i128
}

/// Whether every rule of every layer of the project is well formed.
pub fn project_is_well_formed(project: &Project) -> (r: bool)
    ensures
        r == project_wf(*project),
{
    let layers = &project.defs.layers;
    let mut l: usize = 0;
    while l < layers.len()
        invariant
            *layers == project.defs.layers,
            l <= layers@.len(),
            forall|k: int| 0 <= k < l ==> layer_wf(#[trigger] layers@[k]),
        decreases layers@.len() - l,
    {
        let groups = &layers[l].auto_rule_groups;
        let mut i: usize = 0;
        while i < groups.len()
            invariant
                *groups == layers@[l as int].auto_rule_groups,
                *layers == project.defs.layers,
                l < layers@.len(),
                forall|k: int| 0 <= k < l ==> layer_wf(#[trigger] layers@[k]),
                i <= groups@.len(),
                forall|a: int, b: int| 0 <= a < i && 0 <= b < groups@[a].rules@.len() ==> rule_wf(#[trigger] groups@[a].rules@[b]),
            decreases groups@.len() - i,
        {
            let rules = &groups[i].rules;
            let mut j: usize = 0;
            while j < rules.len()
                invariant
                    *rules == groups@[i as int].rules,
                    *groups == layers@[l as int].auto_rule_groups,
                    *layers == project.defs.layers,
                    l < layers@.len(),
                    i < groups@.len(),
                    j <= rules@.len(),
                    forall|a: int, b: int| 0 <= a < i && 0 <= b < groups@[a].rules@.len() ==> rule_wf(#[trigger] groups@[a].rules@[b]),
                    forall|b: int| 0 <= b < j ==> rule_wf(#[trigger] rules@[b]),
                    forall|k: int| 0 <= k < l ==> layer_wf(#[trigger] layers@[k]),
                decreases rules@.len() - j,
            {
                if !rule_is_well_formed(&rules[j]) {
                    assert(!rule_wf(layers@[l as int].auto_rule_groups@[i as int].rules@[j as int]));
                    assert(!layer_wf(layers@[l as int]));
                    return false;
                }
                j = j + 1;
            }
            i = i + 1;
        }
        l = l + 1;
    }
    true
}

/// The first matching rule wins: when the `i`-th rule matches at a cell and
/// none before it does, the cell takes the `i`-th rule's tile, whatever the
/// rules after it would give.
pub proof fn lemma_first_match_wins(rules: Seq<AutoLayerRuleDefinition>, g: Seq<Seq<i64>>, x: int, y: int, d: i64, i: int)
    requires
        0 <= i < rules.len(),
        rule_outcome(rules[i], rule_layout(rules[i], g, x, y, d)) is Some,
        forall|j: int| 0 <= j < i ==> (#[trigger] rule_outcome(rules[j], rule_layout(rules[j], g, x, y, d))) is None,
    ensures
        first_match(rules, g, x, y, d) == rule_outcome(rules[i], rule_layout(rules[i], g, x, y, d))->0,
{
    lemma_no_match_before(rules, g, x, y, d, 0, i);
}

proof fn lemma_no_match_before(rules: Seq<AutoLayerRuleDefinition>, g: Seq<Seq<i64>>, x: int, y: int, d: i64, j: int, i: int)
    requires
        0 <= j <= i <= rules.len(),
        forall|k: int| 0 <= k < i ==> (#[trigger] rule_outcome(rules[k], rule_layout(rules[k], g, x, y, d))) is None,
    ensures
        first_match_from(rules, g, x, y, d, j) == first_match_from(rules, g, x, y, d, i),
    decreases i - j,
{
    if j < i {
        assert(rule_outcome(rules[j], rule_layout(rules[j], g, x, y, d)) is None);
        lemma_no_match_before(rules, g, x, y, d, j + 1, i);
    }
}

/// The first declared grid wins: where the `k`-th grid is not empty and no
/// grid before it has a tile, the stack shows the `k`-th grid's tile,
/// whatever the later grids hold there.
pub proof fn lemma_first_declared_layer_wins(ls: Seq<Seq<Seq<Tile>>>, width: int, height: int, k: int, y: int, x: int)
    requires
        0 <= k < ls.len(),
        0 <= y < height,
        0 <= x < width,
        ls[k][y][x].value != 0,
        forall|j: int| 0 <= j < k ==> (#[trigger] ls[j][y][x]).value == 0,
    ensures
        composite(ls, width, height)[y][x] == ls[k][y][x],
{
    lemma_empty_before(ls, y, x, 0, k);
}

proof fn lemma_empty_before(ls: Seq<Seq<Seq<Tile>>>, y: int, x: int, j: int, k: int)
    requires
        0 <= j <= k < ls.len(),
        forall|i: int| 0 <= i < k ==> (#[trigger] ls[i][y][x]).value == 0,
    ensures
        first_nonempty_from(ls, j, y, x) == first_nonempty_from(ls, k, y, x),
    decreases k - j,
{
    if j < k {
        assert(ls[j][y][x].value == 0);
        lemma_empty_before(ls, y, x, j + 1, k);
    }
}

} // verus!
