use vstd::prelude::*;

use crate::grid::{GridModel, HexGrid, TerrainType};
use crate::position::HexPosition;

verus! {

// Fractional parameters of the schema (slopes, densities, exposures,
// probabilities, noise settings) are held as the bit patterns of their
// single-precision values.

#[derive(Debug)]
pub enum StructureModification {
    AddFloor { level: i32, terrain: TerrainType },
    AddWall { position: HexOffset, height: i32 },
    AddRoof { style: RoofStyle, height: i32 },
    AddDecoration { decoration_type: String, position: HexOffset },
    ModifyTerrain { position: HexOffset, terrain: TerrainType },
}

#[derive(Debug)]
pub enum RoofStyle {
    Flat,
    Peaked { slope: u32 },
    Domed { radius: i32 },
    Tiered { levels: i32 },
}

/// A named, ordered list of rules.
#[derive(Debug)]
pub struct Template {
    pub name: String,
    pub description: String,
    pub rules: Vec<Rule>,
    pub tags: Vec<String>,
}

/// When every condition holds, the actions apply. Higher priority is tried
/// first.
#[derive(Debug)]
pub struct Rule {
    pub name: String,
    pub conditions: Vec<Condition>,
    pub actions: Vec<Action>,
    pub priority: i32,
}

#[derive(Debug)]
#[allow(inconsistent_fields)]
pub enum Condition {
    TerrainType { terrain: TerrainType },
    ElevationRange { min: i32, max: i32 },
    AdjacentTo { structure_type: String },
    MinDistanceFrom { structure_type: String, distance: i32 },
    MaxDistanceFrom { structure_type: String, distance: i32 },
    BiomeType { biome: String },
    NearWater { distance: i32 },
    HasTag { tag: String },
    PopulationDensity { min: u32, max: u32 },
    ResourceAvailable { resource: String, amount: i32 },
    RoadAccess { distance: i32 },
    SlopeRange { min_degrees: u32, max_degrees: u32 },
    ViewDistance { min: i32 },
    WindExposure { min: u32, max: u32 },
    SunExposure { min: u32, max: u32 },
    TemplateExists { template_name: String },
    And { conditions: Vec<Condition> },
    Or { conditions: Vec<Condition> },
    Not { condition: Box<Condition> },
}

#[derive(Debug)]
pub enum Action {
    PlaceStructure { structure: StructureTemplate },
    SetTerrain { terrain: TerrainType },
    SetElevation { elevation: i32 },
    AddTag { tag: String },
    GenerateWall { height: i32, material: TerrainType },
    ApplyTemplate { template_name: String },
    GenerateRoad { width: i32, material: TerrainType, to: HexPosition, style: RoadStyle },
    PlaceStructureCluster { structure: StructureTemplate, count: i32, spacing: i32, variation: bool },
    ModifyTerrain { radius: i32, operation: TerrainOperation },
    SpawnResource { resource_type: String, amount: i32, spread: i32 },
    SetBiome { biome: String },
    CreateWaterFeature { feature_type: WaterFeatureType, size: i32 },
    ApplyNoise { noise_type: NoiseType, amplitude: u32, frequency: u32 },
}

/// A structure's footprint and placement requirements.
#[derive(Debug)]
pub struct StructureTemplate {
    pub name: String,
    pub structure_type: String,
    pub footprint: Vec<HexOffset>,
    pub required_terrain: Option<TerrainType>,
    pub elevation_requirements: Option<ElevationRequirement>,
    pub tags: Vec<String>,
    pub parent_template: Option<String>,
    pub variants: Vec<StructureVariant>,
    pub generation_rules: GenerationRules,
    pub connections: Vec<ConnectionPoint>,
    pub interior_layout: Option<InteriorLayout>,
}

#[derive(Debug)]
pub struct StructureVariant {
    pub name: String,
    pub probability: u32,
    pub modifications: Vec<StructureModification>,
}

#[derive(Debug)]
pub struct GenerationRules {
    pub min_spacing: i32,
    pub max_count: i32,
    pub alignment: AlignmentRule,
    pub growth_pattern: GrowthPattern,
}

#[derive(Debug)]
pub struct ConnectionPoint {
    pub position: HexOffset,
    pub connection_type: ConnectionType,
    pub required: bool,
}

#[derive(Debug)]
pub struct InteriorLayout {
    pub rooms: Vec<Room>,
    pub corridors: Vec<Corridor>,
    pub entrances: Vec<HexOffset>,
}

#[derive(Debug, Clone, Copy, PartialEq, Eq, Structural)]
pub enum ConnectionType {
    Road,
    Wall,
    Bridge,
    Door,
    Path,
}

#[derive(Debug, Clone, Copy, PartialEq, Eq, Structural)]
pub enum AlignmentRule {
    Grid { spacing: i32 },
    Radial { center: HexOffset, rings: i32 },
    Organic { min_spacing: i32 },
    Linear { direction: i32, spacing: i32 },
}

#[derive(Debug, Clone, Copy, PartialEq, Eq, Structural)]
pub enum GrowthPattern {
    Outward,
    Inward,
    Linear { direction: i32 },
    Clustered { cluster_size: i32 },
}

#[derive(Debug)]
pub struct Room {
    pub size: (i32, i32),
    pub purpose: String,
    pub required_connections: Vec<String>,
}

#[derive(Debug, Clone, Copy, PartialEq, Eq, Structural)]
pub struct Corridor {
    pub start: HexOffset,
    pub end: HexOffset,
    pub width: i32,
}

#[derive(Debug, Clone, Copy, PartialEq, Eq, Structural)]
pub enum RoadStyle {
    Straight,
    Winding { variation: u32 },
    Organic { roughness: u32 },
}

#[derive(Debug, Clone, Copy, PartialEq, Eq, Structural)]
pub enum TerrainOperation {
    Smooth,
    Roughen { intensity: u32 },
    Raise { amount: i32 },
    Lower { amount: i32 },
    Flatten { target: i32 },
}

#[derive(Debug, Clone, Copy, PartialEq, Eq, Structural)]
pub enum WaterFeatureType {
    Lake,
    River { width: i32 },
    Ocean,
    Pond,
    Canal { width: i32 },
}

#[derive(Debug, Clone, Copy, PartialEq, Eq, Structural)]
pub enum NoiseType {
    Perlin,
    Simplex,
    Worley,
    Ridged,
}

/// A footprint entry: an offset from the base position and the terrain laid
/// there.
#[derive(Debug, Clone, Copy, PartialEq, Eq, Structural)]
pub struct HexOffset {
    pub q: i32,
    pub r: i32,
    pub terrain: TerrainType,
}

/// Allowed elevations `[min, max]`, measured from 0 or from the base cell.
#[derive(Debug, Clone, Copy, PartialEq, Eq, Structural)]
pub struct ElevationRequirement {
    pub min: i32,
    pub max: i32,
    pub relative_to_base: bool,
}

/// Registered templates, looked up by name.
#[derive(Debug)]
pub struct TemplateEngine {
    templates: Vec<Template>,
}

/// Only a terrain match and an inclusive elevation range are decided, both
/// against the cell at exactly `p`; every other condition is false.
pub open spec fn condition_holds(c: Condition, m: GridModel, p: HexPosition) -> bool {
    match c {
        Condition::TerrainType { terrain } => m.cells.contains_key(p) && m.cells[p].terrain == terrain,
        Condition::ElevationRange { min, max } => m.cells.contains_key(p) && min <= m.cells[p].elevation
            <= max,
        _ => false,
    }
}

pub open spec fn rule_matches(rule: Rule, m: GridModel, p: HexPosition) -> bool {
    forall|i: int| 0 <= i < rule.conditions@.len() ==> condition_holds(#[trigger] rule.conditions@[i], m, p)
}

/// Among `rules[..n]` that match, the one of highest priority, the earliest
/// on ties.
pub open spec fn best_rule(rules: Seq<Rule>, m: GridModel, p: HexPosition, n: nat) -> Option<int>
    decreases n,
{
    if n == 0 || n > rules.len() {
        None
    } else {
        let b = best_rule(rules, m, p, (n - 1) as nat);
        if rule_matches(rules[n - 1], m, p) && (b is None || rules[n - 1].priority > rules[b->Some_0].priority) {
            Some(n - 1)
        } else {
            b
        }
    }
}

/// Setting terrain keeps the cell's elevation; setting elevation moves the
/// cell to the new level and keeps its terrain; both act only on a cell at
/// exactly `p`. Every other action changes nothing.
pub open spec fn apply_action(a: Action, m: GridModel, p: HexPosition) -> GridModel {
    match a {
        Action::SetTerrain { terrain } => if m.cells.contains_key(p) {
            m.with_cell(p, terrain, m.cells[p].elevation)
        } else {
            m
        },
        Action::SetElevation { elevation } => if m.cells.contains_key(p) {
            GridModel { cells: m.cells.remove(p), width: m.width, height: m.height }.with_cell(
                p,
                m.cells[p].terrain,
                elevation,
            )
        } else {
            m
        },
        _ => m,
    }
}

pub open spec fn apply_actions_upto(acts: Seq<Action>, m: GridModel, p: HexPosition, n: nat) -> GridModel
    decreases n,
{
    if n == 0 || n > acts.len() {
        m
    } else {
        apply_action(acts[n - 1], apply_actions_upto(acts, m, p, (n - 1) as nat), p)
    }
}

/// Index of the first template from `i` on named `name`.
pub open spec fn find_template(ts: Seq<Template>, name: Seq<char>, i: int) -> Option<int>
    decreases ts.len() - i,
{
    if i < 0 || i >= ts.len() {
        None
    } else if ts[i].name@ == name {
        Some(i)
    } else {
        find_template(ts, name, i + 1)
    }
}

/// The template registered under `name`.
pub open spec fn lookup(ts: Seq<Template>, name: Seq<char>) -> Option<Template> {
    match find_template(ts, name, 0) {
        Some(i) => Some(ts[i]),
        None => None,
    }
}

/// The rule chosen is the first that matches once the rules are sorted by
/// descending priority, ties keeping their order: it matches, and every other
/// matching rule has lower priority, or the same priority and a later place.
/// Where none is chosen, no rule matches.
pub proof fn lemma_best_rule_is_first_by_priority(rules: Seq<Rule>, m: GridModel, p: HexPosition, n: nat)
    requires
        n <= rules.len(),
    ensures
        match best_rule(rules, m, p, n) {
            Some(i) => {
                &&& 0 <= i < n
                &&& rule_matches(rules[i], m, p)
                &&& forall|j: int|
                    0 <= j < n && #[trigger] rule_matches(rules[j], m, p) ==> rules[j].priority < rules[i].priority
                        || (rules[j].priority == rules[i].priority && i <= j)
            },
            None => forall|j: int| 0 <= j < n ==> !#[trigger] rule_matches(rules[j], m, p),
        },
    decreases n,
{
    if n > 0 {
        lemma_best_rule_is_first_by_priority(rules, m, p, (n - 1) as nat);
    }
}

proof fn lemma_find_ge(ts: Seq<Template>, name: Seq<char>, i: int)
    requires
        0 <= i,
    ensures
        find_template(ts, name, i) matches Some(j) ==> i <= j < ts.len() && ts[j].name@ == name,
    decreases ts.len() - i,
{
    if i < ts.len() {
        lemma_find_ge(ts, name, i + 1);
    }
}

proof fn lemma_find_after(ts: Seq<Template>, name: Seq<char>, i: int, k: int)
    requires
        0 <= i <= k,
        find_template(ts, name, i) == Some(k),
    ensures
        k < ts.len(),
        ts[k].name@ == name,
        forall|j: int| i <= j < k ==> ts[j].name@ != name,
    decreases k - i,
{
    lemma_find_ge(ts, name, i);
    if i < k {
        assert(ts[i].name@ != name);
        lemma_find_after(ts, name, i + 1, k);
    }
}

proof fn lemma_find_update(ts: Seq<Template>, k: int, t: Template, name: Seq<char>, i: int)
    requires
        0 <= i,
        0 <= k < ts.len(),
        ts[k].name@ == t.name@,
        forall|j: int| i <= j < k ==> ts[j].name@ != t.name@,
    ensures
        find_template(ts.update(k, t), name, i) == (if name == t.name@ && i <= k {
            Some(k)
        } else {
            find_template(ts, name, i)
        }),
    decreases ts.len() - i,
{
    if i < ts.len() {
        assert(ts.update(k, t)[i] == (if i == k {
            t
        } else {
            ts[i]
        }));
        lemma_find_update(ts, k, t, name, i + 1);
    }
}

proof fn lemma_find_push(ts: Seq<Template>, t: Template, name: Seq<char>, i: int)
    requires
        0 <= i,
        forall|j: int| i <= j < ts.len() ==> ts[j].name@ != t.name@,
    ensures
        find_template(ts.push(t), name, i) == (if find_template(ts, name, i) is Some {
            find_template(ts, name, i)
        } else if name == t.name@ && i <= ts.len() {
            Some(ts.len() as int)
        } else {
            None
        }),
    decreases ts.len() + 1 - i,
{
    if i < ts.len() {
        assert(ts.push(t)[i] == ts[i]);
        lemma_find_push(ts, t, name, i + 1);
    } else if i == ts.len() {
        assert(ts.push(t)[i] == t);
        assert(find_template(ts.push(t), name, i + 1) is None);
    }
}

proof fn lemma_find_none(ts: Seq<Template>, name: Seq<char>, i: int, j: int)
    requires
        0 <= i <= j < ts.len(),
        find_template(ts, name, i) is None,
    ensures
        ts[j].name@ != name,
    decreases j - i,
{
    if i < j {
        lemma_find_none(ts, name, i + 1, j);
    }
}

impl View for TemplateEngine {
    type V = Seq<Template>;

    closed spec fn view(&self) -> Seq<Template> {
        self.templates@
    }
}

impl TemplateEngine {
    pub fn new() -> (e: TemplateEngine)
        ensures
            e@ == Seq::<Template>::empty(),
    {
        TemplateEngine { templates: Vec::new() }
    }

    fn find(&self, name: &str) -> (r: Option<usize>)
        ensures
            match r {
                Some(i) => find_template(self@, name@, 0) == Some(i as int) && i < self@.len(),
                None => find_template(self@, name@, 0) is None,
            },
    {
        let key = name.to_owned();
        let mut i: usize = 0;
        while i < self.templates.len()
            invariant
                i <= self.templates@.len(),
                key@ == name@,
                self@ == self.templates@,
                find_template(self@, name@, 0) == find_template(self@, name@, i as int),
            decreases self.templates@.len() - i,
        {
            if self.templates[i].name == key {
                return Some(i);
            }
            i = i + 1;
        }
        None
    }

    /// Registers `template` under its name, replacing any template of that
    /// name.
    pub fn load_template(&mut self, template: Template)
        ensures
            lookup(final(self)@, template.name@) == Some(template),
            forall|n: Seq<char>| n != template.name@ ==> #[trigger] lookup(final(self)@, n) == lookup(old(self)@, n),
    {
        let ghost t = template;
        let ghost before = self.templates@;
        let name = template.name.as_str();
        match self.find(name) {
            Some(k) => {
                proof {
                    lemma_find_after(before, t.name@, 0, k as int);
                }
                self.templates.set(k, template);
                proof {
                    assert forall|n: Seq<char>| #[trigger] find_template(self@, n, 0) == (if n == t.name@ {
                        Some(k as int)
                    } else {
                        find_template(before, n, 0)
                    }) by {
                        lemma_find_update(before, k as int, t, n, 0);
                    }
                    assert(self@ == before.update(k as int, t));
                    assert forall|n: Seq<char>| n != t.name@ implies #[trigger] lookup(self@, n) == lookup(before, n) by {
                        lemma_find_update(before, k as int, t, n, 0);
                        lemma_find_ge(before, n, 0);
                        if let Some(j) = find_template(before, n, 0) {
                            assert(j != k as int);
                        }
                    }
                }
            },
            None => {
                proof {
                    assert forall|j: int| 0 <= j < before.len() implies before[j].name@ != t.name@ by {
                        lemma_find_none(before, t.name@, 0, j);
                    }
                }
                self.templates.push(template);
                proof {
                    assert(self@ == before.push(t));
                    assert forall|n: Seq<char>| #[trigger] find_template(self@, n, 0) == (if find_template(before, n, 0) is Some {
                        find_template(before, n, 0)
                    } else if n == t.name@ {
                        Some(before.len() as int)
                    } else {
                        None
                    }) by {
                        lemma_find_push(before, t, n, 0);
                    }
                    assert forall|n: Seq<char>| n != t.name@ implies #[trigger] lookup(self@, n) == lookup(before, n) by {
                        lemma_find_push(before, t, n, 0);
                        lemma_find_ge(before, n, 0);
                    }
                    lemma_find_push(before, t, t.name@, 0);
                }
            },
        }
    }

    /// Applies the chosen rule of the template named `name` at `position`:
    /// the matching rule of highest priority, the earliest on ties. Returns
    /// whether a rule was applied; an unknown name or no matching rule leaves
    /// the grid as it was.
    pub fn apply_template(&self, name: &str, grid: &mut HexGrid, position: &HexPosition) -> (r: bool)
        requires
            old(grid).wf(),
        ensures
            final(grid).wf(),
            final(grid)@.width == old(grid)@.width,
            final(grid)@.height == old(grid)@.height,
            match lookup(self@, name@) {
                None => !r && final(grid)@ == old(grid)@,
                Some(t) => match best_rule(t.rules@, old(grid)@, *position, t.rules@.len()) {
                    None => !r && final(grid)@ == old(grid)@,
                    Some(i) => r && final(grid)@ == apply_actions_upto(
                        t.rules@[i].actions@,
                        old(grid)@,
                        *position,
                        t.rules@[i].actions@.len(),
                    ),
                },
            },
    {
        let k = match self.find(name) {
            Some(k) => k,
            None => return false,
        };
        let rules = &self.templates[k].rules;
        let mut best: Option<usize> = None;
        let mut i: usize = 0;
        while i < rules.len()
            invariant
                grid.wf(),
                i <= rules@.len(),
                rules@ == self@[k as int].rules@,
                match best {
                    Some(b) => best_rule(rules@, grid@, *position, i as nat) == Some(b as int) && b < i,
                    None => best_rule(rules@, grid@, *position, i as nat) is None,
                },
            decreases rules@.len() - i,
        {
            if self.evaluate_conditions(&rules[i].conditions, grid, position) {
                let better = match best {
                    None => true,
                    Some(b) => rules[i].priority > rules[b].priority,
                };
                if better {
                    best = Some(i);
                }
            }
            i = i + 1;
        }
        match best {
            Some(b) => {
                self.apply_actions(&rules[b].actions, grid, position);
                true
            },
            None => false,
        }
    }

    /// Whether every condition holds at `position` (true for none).
    fn evaluate_conditions(&self, conditions: &Vec<Condition>, grid: &HexGrid, position: &HexPosition) -> (r: bool)
        requires
            grid.wf(),
        ensures
            r == forall|i: int| 0 <= i < conditions@.len() ==> condition_holds(#[trigger] conditions@[i], grid@, *position),
    {
        let mut i: usize = 0;
        while i < conditions.len()
            invariant
                grid.wf(),
                i <= conditions@.len(),
                forall|j: int| 0 <= j < i ==> condition_holds(#[trigger] conditions@[j], grid@, *position),
            decreases conditions@.len() - i,
        {
            let holds = match &conditions[i] {
                Condition::TerrainType { terrain } => match grid.get_cell(position) {
                    Some(cell) => cell.terrain == *terrain,
                    None => false,
                },
                Condition::ElevationRange { min, max } => match grid.get_cell(position) {
                    Some(cell) => cell.elevation >= *min && cell.elevation <= *max,
                    None => false,
                },
                _ => false,
            };
            if !holds {
                return false;
            }
            i = i + 1;
        }
        true
    }

    /// Applies each action in order at `position`.
    fn apply_actions(&self, actions: &Vec<Action>, grid: &mut HexGrid, position: &HexPosition)
        requires
            old(grid).wf(),
        ensures
            final(grid).wf(),
            final(grid)@ == apply_actions_upto(actions@, old(grid)@, *position, actions@.len()),
            final(grid)@.width == old(grid)@.width,
            final(grid)@.height == old(grid)@.height,
    {
        let ghost m0 = grid@;
        let mut i: usize = 0;
        while i < actions.len()
            invariant
                grid.wf(),
                i <= actions@.len(),
                grid@ == apply_actions_upto(actions@, m0, *position, i as nat),
                grid@.width == m0.width,
                grid@.height == m0.height,
            decreases actions@.len() - i,
        {
            match &actions[i] {
                Action::SetTerrain { terrain } => {
                    match grid.get_cell(position) {
                        Some(cell) => {
                            let e = cell.elevation;
                            proof {
                                grid.lemma_consistent();
                                assert(grid@.cells.contains_key(*position));
                            }
                            grid.add_cell(*position, *terrain, e);
                        },
                        None => {},
                    }
                },
                Action::SetElevation { elevation } => {
                    match grid.get_cell(position) {
                        Some(cell) => {
                            let t = cell.terrain;
                            proof {
                                grid.lemma_consistent();
                                assert(grid@.cells.contains_key(*position));
                            }
                            grid.remove_cell(position);
                            grid.add_cell(*position, t, *elevation);
                        },
                        None => {},
                    }
                },
                _ => {},
            }
            i = i + 1;
        }
    }
}

} // verus!
