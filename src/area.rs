use vstd::prelude::*;

use rand::rngs::StdRng;

use crate::grid::{hex_of, HexGrid, TerrainType};
use crate::map::{
    empty_grid, BiomeType, BuildingType, ChunkModel, ChunkPosition, FillState, MapChunk, Placement,
    StructureType, VegetationType,
};
use crate::position::HexPosition;
use crate::rng::{gen_range_i32, gen_ratio, random_seed, range_draw, ratio_draw, seed_rng, seeded};

verus! {

/// A named recipe for a whole map: its size and the relative weights (in
/// thousandths) of each terrain and each structure.
#[derive(Debug)]
pub struct MapTemplate {
    pub name: String,
    pub size: (i32, i32),
    pub terrain_distribution: Vec<(TerrainType, u32)>,
    pub structure_distribution: Vec<(StructureType, u32)>,
}

pub struct TemplateModel {
    pub name: Seq<char>,
    pub width: int,
    pub height: int,
    pub terrain: Seq<(TerrainType, u32)>,
    pub structures: Seq<(StructureType, u32)>,
}

impl View for MapTemplate {
    type V = TemplateModel;

    open spec fn view(&self) -> TemplateModel {
        TemplateModel {
            name: self.name@,
            width: self.size.0 as int,
            height: self.size.1 as int,
            terrain: self.terrain_distribution@,
            structures: self.structure_distribution@,
        }
    }
}

/// Generates whole maps from named templates, with a generator of its own.
pub struct MapGenerator {
    templates: Vec<(String, MapTemplate)>,
    rng: StdRng,
}

pub struct GeneratorModel {
    pub templates: Seq<(Seq<char>, TemplateModel)>,
    pub rng: StdRng,
}

impl View for MapGenerator {
    type V = GeneratorModel;

    closed spec fn view(&self) -> GeneratorModel {
        GeneratorModel {
            templates: self.templates@.map_values(|e: (String, MapTemplate)| (e.0@, e.1@)),
            rng: self.rng,
        }
    }
}

/// Sum of the weights of `d[..n]`.
pub open spec fn weight_sum<T>(d: Seq<(T, u32)>, n: int) -> int
    decreases n,
{
    if n <= 0 || n > d.len() {
        0
    } else {
        weight_sum(d, n - 1) + d[n - 1].1
    }
}

pub open spec fn total_weight<T>(d: Seq<(T, u32)>) -> int {
    weight_sum(d, d.len() as int)
}

/// Walks `d` from `i`, subtracting each weight from `value`, and gives the
/// first item whose weight exceeds what remains; a value drawn from
/// `[0, total)` thus picks each item in proportion to its weight.
pub open spec fn pick_from<T>(d: Seq<(T, u32)>, value: int, i: int) -> Option<T>
    decreases d.len() - i,
{
    if i < 0 || i >= d.len() {
        None
    } else if value < d[i].1 {
        Some(d[i].0)
    } else {
        pick_from(d, value - d[i].1, i + 1)
    }
}

/// A weighted terrain: a value drawn from `[0, total)` and walked through the
/// weights; plain where the walk runs out or nothing can be drawn.
pub open spec fn draw_weighted_terrain(rng: StdRng, d: Seq<(TerrainType, u32)>) -> (TerrainType, StdRng) {
    if total_weight(d) <= 0 {
        (TerrainType::Plain, rng)
    } else {
        let (v, next) = range_draw(rng, 0, total_weight(d));
        (match pick_from(d, v, 0) {
            Some(t) => t,
            None => TerrainType::Plain,
        }, next)
    }
}

/// A 30% chance of a structure, which is then drawn as a weighted terrain is;
/// none where the walk runs out.
pub open spec fn draw_weighted_structure(rng: StdRng, d: Seq<(StructureType, u32)>) -> (Option<StructureType>, StdRng) {
    let (hit, r1) = ratio_draw(rng, 3, 10);
    if !hit || total_weight(d) <= 0 {
        (None, r1)
    } else {
        let (v, r2) = range_draw(r1, 0, total_weight(d));
        (pick_from(d, v, 0), r2)
    }
}

/// One generated cell of a template map: terrain, elevation in `[0, 5)`, then
/// the optional structure.
pub open spec fn area_cell(st: FillState, p: HexPosition, t: TemplateModel) -> FillState {
    let (terrain, r1) = draw_weighted_terrain(st.rng, t.terrain);
    let (e, r2) = range_draw(r1, 0, 5);
    let (s, r3) = draw_weighted_structure(r2, t.structures);
    FillState {
        grid: st.grid.with_cell(p, terrain, e as i32),
        structures: match s {
            Some(x) => st.structures.push(Placement { position: p, structure: x }),
            None => st.structures,
        },
        rng: r3,
    }
}

pub open spec fn area_row(t: TemplateModel, q: int, r: nat, st: FillState) -> FillState
    decreases r,
{
    if r == 0 {
        st
    } else {
        area_cell(area_row(t, q, (r - 1) as nat, st), HexPosition { q: q as i32, r: (r - 1) as i32, z: 0 }, t)
    }
}

pub open spec fn area_rows(t: TemplateModel, q: nat, st: FillState) -> FillState
    decreases q,
{
    if q == 0 {
        st
    } else {
        area_row(
            t,
            q - 1,
            if t.height > 0 {
                t.height as nat
            } else {
                0
            },
            area_rows(t, (q - 1) as nat, st),
        )
    }
}

/// The map that a generator in state `rng` makes from template `t`, and its
/// next state. It stands at chunk `(0, 0)` with the plains biome.
pub open spec fn generate_area(rng: StdRng, t: TemplateModel) -> (ChunkModel, StdRng) {
    let st = area_rows(
        t,
        if t.width > 0 {
            t.width as nat
        } else {
            0
        },
        FillState { grid: empty_grid(), structures: seq![], rng },
    );
    (ChunkModel {
        position: ChunkPosition { x: 0, y: 0 },
        grid: st.grid,
        structures: st.structures,
        biome: BiomeType::Plains,
    }, st.rng)
}

/// Every elevation lies in `[0, 5)`, and no two structures stand on one hex.
pub open spec fn area_ok(c: ChunkModel) -> bool {
    &&& forall|h: HexPosition| #[trigger] c.grid.cells.contains_key(h) ==> 0 <= c.grid.cells[h].elevation < 5
    &&& forall|i: int, j: int|
        0 <= i < j < c.structures.len() ==> hex_of(c.structures[i].position) != hex_of(c.structures[j].position)
}

/// Index of the first template registered under `name`.
pub open spec fn find_named(ts: Seq<(Seq<char>, TemplateModel)>, name: Seq<char>, i: int) -> Option<int>
    decreases ts.len() - i,
{
    if i < 0 || i >= ts.len() {
        None
    } else if ts[i].0 == name {
        Some(i)
    } else {
        find_named(ts, name, i + 1)
    }
}

/// Weights that can be drawn from with an `i32` range.
pub open spec fn drawable<T>(d: Seq<(T, u32)>) -> bool {
    total_weight(d) <= i32::MAX
}

proof fn lemma_weight_sum_monotone<T>(d: Seq<(T, u32)>, a: int, b: int)
    requires
        0 <= a <= b <= d.len(),
    ensures
        weight_sum(d, a) <= weight_sum(d, b),
    decreases b - a,
{
    if a < b {
        lemma_weight_sum_monotone(d, a, b - 1);
    }
}

/// Walks a weighted list as `pick_from` does.
fn pick<T: Copy>(d: &Vec<(T, u32)>, value: i64) -> (r: Option<T>)
    requires
        drawable(d@),
        0 <= value,
    ensures
        r == pick_from(d@, value as int, 0),
{
    let mut v: i64 = value;
    let mut i: usize = 0;
    while i < d.len()
        invariant
            i <= d@.len(),
            drawable(d@),
            pick_from(d@, value as int, 0) == pick_from(d@, v as int, i as int),
            v == value - weight_sum(d@, i as int),
            0 <= v <= value,
        decreases d@.len() - i,
    {
        proof {
            lemma_weight_sum_monotone(d@, (i + 1) as int, d@.len() as int);
        }
        if v < d[i].1 as i64 {
            return Some(d[i].0);
        }
        v = v - d[i].1 as i64;
        i = i + 1;
    }
    None
}

fn sum_weights<T>(d: &Vec<(T, u32)>) -> (t: i64)
    requires
        drawable(d@),
    ensures
        t == total_weight(d@),
{
    let mut t: i64 = 0;
    let mut i: usize = 0;
    while i < d.len()
        invariant
            i <= d@.len(),
            drawable(d@),
            t == weight_sum(d@, i as int),
        decreases d@.len() - i,
    {
        proof {
            lemma_weight_sum_monotone(d@, (i + 1) as int, d@.len() as int);
        }
        t = t + d[i].1 as i64;
        i = i + 1;
    }
    t
}

/// The built-in templates: "town", 20 by 20, 80% plain and 20% rough, with
/// houses, shops and inns weighted 300, 100 and 50; "forest", 30 by 30, 60%
/// plain and 40% rough, with trees and bushes weighted 500 and 200.
pub open spec fn builtin_templates() -> Seq<(Seq<char>, TemplateModel)> {
    seq![
        (
            "town"@,
            TemplateModel {
                name: "Town"@,
                width: 20,
                height: 20,
                terrain: seq![(TerrainType::Plain, 800u32), (TerrainType::Rough, 200u32)],
                structures: seq![
                    (StructureType::Building(BuildingType::House), 300u32),
                    (StructureType::Building(BuildingType::Shop), 100u32),
                    (StructureType::Building(BuildingType::Inn), 50u32),
                ],
            },
        ),
        (
            "forest"@,
            TemplateModel {
                name: "Forest"@,
                width: 30,
                height: 30,
                terrain: seq![(TerrainType::Plain, 600u32), (TerrainType::Rough, 400u32)],
                structures: seq![
                    (StructureType::Vegetation(VegetationType::Tree), 500u32),
                    (StructureType::Vegetation(VegetationType::Bush), 200u32),
                ],
            },
        ),
    ]
}

impl MapGenerator {
    /// Every template's weights can be drawn from.
    pub closed spec fn wf(&self) -> bool {
        forall|i: int|
            0 <= i < self.templates@.len() ==> drawable((#[trigger] self.templates@[i]).1.terrain_distribution@)
                && drawable(self.templates@[i].1.structure_distribution@)
    }

    /// A generator with the built-in templates, seeded from process randomness.
    pub fn new() -> (g: MapGenerator)
        ensures
            g.wf(),
            g@.templates == builtin_templates(),
    {
        MapGenerator::with_seed(random_seed())
    }

    /// A generator with the built-in templates, seeded with `seed`.
    pub fn with_seed(seed: u64) -> (g: MapGenerator)
        ensures
            g.wf(),
            g@ == (GeneratorModel { templates: builtin_templates(), rng: seeded(seed) }),
    {
        let mut generator = MapGenerator { templates: Vec::new(), rng: seed_rng(seed) };
        generator.initialize_templates();
        generator
    }

    fn initialize_templates(&mut self)
        requires
            old(self).templates@.len() == 0,
        ensures
            final(self).wf(),
            final(self)@ == (GeneratorModel { templates: builtin_templates(), rng: old(self).rng }),
    {
        let town = MapTemplate {
            name: "Town".to_owned(),
            size: (20, 20),
            terrain_distribution: vec![(TerrainType::Plain, 800u32), (TerrainType::Rough, 200u32)],
            structure_distribution: vec![
                (StructureType::Building(BuildingType::House), 300u32),
                (StructureType::Building(BuildingType::Shop), 100u32),
                (StructureType::Building(BuildingType::Inn), 50u32),
            ],
        };
        self.templates.push(("town".to_owned(), town));
        let forest = MapTemplate {
            name: "Forest".to_owned(),
            size: (30, 30),
            terrain_distribution: vec![(TerrainType::Plain, 600u32), (TerrainType::Rough, 400u32)],
            structure_distribution: vec![
                (StructureType::Vegetation(VegetationType::Tree), 500u32),
                (StructureType::Vegetation(VegetationType::Bush), 200u32),
            ],
        };
        self.templates.push(("forest".to_owned(), forest));
        proof {
            reveal_with_fuel(weight_sum, 4);
            assert(self@.templates =~= builtin_templates());
        }
    }

    fn find_template(&self, name: &str) -> (r: Option<usize>)
        ensures
            match r {
                Some(i) => find_named(self@.templates, name@, 0) == Some(i as int) && i < self.templates@.len(),
                None => find_named(self@.templates, name@, 0) is None,
            },
    {
        let key = name.to_owned();
        let mut i: usize = 0;
        while i < self.templates.len()
            invariant
                i <= self.templates@.len(),
                key@ == name@,
                find_named(self@.templates, name@, 0) == find_named(self@.templates, name@, i as int),
            decreases self.templates@.len() - i,
        {
            if self.templates[i].0 == key {
                return Some(i);
            }
            i = i + 1;
        }
        None
    }

    fn select_random_terrain(rng: &mut StdRng, distribution: &Vec<(TerrainType, u32)>) -> (t: TerrainType)
        requires
            drawable(distribution@),
        ensures
            (t, *final(rng)) == draw_weighted_terrain(*old(rng), distribution@),
    {
        let total = sum_weights(distribution);
        if total <= 0 {
            return TerrainType::Plain;
        }
        let value = gen_range_i32(rng, 0, total as i32);
        match pick(distribution, value as i64) {
            Some(t) => t,
            None => TerrainType::Plain,
        }
    }

    fn select_random_structure(rng: &mut StdRng, distribution: &Vec<(StructureType, u32)>) -> (s: Option<StructureType>)
        requires
            drawable(distribution@),
        ensures
            (s, *final(rng)) == draw_weighted_structure(*old(rng), distribution@),
    {
        if !gen_ratio(rng, 3, 10) {
            return None;
        }
        let total = sum_weights(distribution);
        if total <= 0 {
            return None;
        }
        let value = gen_range_i32(rng, 0, total as i32);
        pick(distribution, value as i64)
    }

    /// A new map from the template registered under `template_name`, or `None`
    /// (with the generator untouched) where there is none.
    pub fn generate_map(&mut self, template_name: &str) -> (r: Option<MapChunk>)
        requires
            old(self).wf(),
        ensures
            final(self).wf(),
            final(self)@.templates == old(self)@.templates,
            match find_named(old(self)@.templates, template_name@, 0) {
                None => r is None && final(self)@.rng == old(self)@.rng,
                Some(i) => r is Some && r->Some_0.grid.wf() && area_ok(r->Some_0@) && (r->Some_0@, final(self)@.rng) == generate_area(
                    old(self)@.rng,
                    old(self)@.templates[i].1,
                ),
            },
    {
        let idx = match self.find_template(template_name) {
            Some(i) => i,
            None => return None,
        };
        let width = self.templates[idx].1.size.0;
        let height = self.templates[idx].1.size.1;
        let ghost tm = self@.templates[idx as int].1;
        let ghost templates0 = self.templates@;
        let mut grid = HexGrid::new();
        let mut structures: Vec<Placement> = Vec::new();
        let ghost st0 = FillState { grid: grid@, structures: structures@, rng: self.rng };
        assert(drawable(tm.terrain) && drawable(tm.structures)) by {
            assert(self.templates@[idx as int].1.terrain_distribution@ == tm.terrain);
        }
        let mut q: i32 = 0;
        while q < width
            invariant
                forall|h: HexPosition| #[trigger] grid@.cells.contains_key(h) ==> 0 <= grid@.cells[h].elevation < 5,
                forall|k: int| 0 <= k < structures@.len() ==> (#[trigger] structures@[k]).position.q < q,
                forall|a: int, b: int|
                    0 <= a < b < structures@.len() ==> hex_of(structures@[a].position) != hex_of(structures@[b].position),
                grid.wf(),
                self.wf(),
                templates0 == self.templates@,
                idx < self.templates@.len(),
                tm == self@.templates[idx as int].1,
                width == tm.width,
                height == tm.height,
                0 <= q,
                width > 0 ==> q <= width,
                width <= 0 ==> q == 0,
                (FillState { grid: grid@, structures: structures@, rng: self.rng }) == area_rows(tm, q as nat, st0),
            decreases width - q,
        {
            let ghost row0 = FillState { grid: grid@, structures: structures@, rng: self.rng };
            let mut r: i32 = 0;
            while r < height
                invariant
                    forall|h: HexPosition| #[trigger] grid@.cells.contains_key(h) ==> 0 <= grid@.cells[h].elevation < 5,
                    forall|k: int|
                        0 <= k < structures@.len() ==> (#[trigger] structures@[k]).position.q < q || (
                        structures@[k].position.q == q && structures@[k].position.r < r),
                    forall|a: int, b: int|
                        0 <= a < b < structures@.len() ==> hex_of(structures@[a].position) != hex_of(structures@[b].position),
                    grid.wf(),
                    self.wf(),
                    templates0 == self.templates@,
                    idx < self.templates@.len(),
                    tm == self@.templates[idx as int].1,
                    width == tm.width,
                    height == tm.height,
                    0 <= q < width,
                    0 <= r,
                    height > 0 ==> r <= height,
                    height <= 0 ==> r == 0,
                    row0 == area_rows(tm, q as nat, st0),
                    (FillState { grid: grid@, structures: structures@, rng: self.rng }) == area_row(
                        tm,
                        q as int,
                        r as nat,
                        row0,
                    ),
                decreases height - r,
            {
                let pos = HexPosition::new_2d(q, r);
                let ghost before = FillState { grid: grid@, structures: structures@, rng: self.rng };
                let terrain = MapGenerator::select_random_terrain(&mut self.rng, &self.templates[idx].1.terrain_distribution);
                let elevation = gen_range_i32(&mut self.rng, 0, 5);
                grid.add_cell(pos, terrain, elevation);
                match MapGenerator::select_random_structure(&mut self.rng, &self.templates[idx].1.structure_distribution) {
                    Some(s) => {
                        structures.push(Placement { position: pos, structure: s });
                        proof {
                            let n = structures@.len() - 1;
                            assert forall|a: int, b: int| 0 <= a < b < structures@.len() implies hex_of(
                                structures@[a].position,
                            ) != hex_of(structures@[b].position) by {
                                assert(before.structures[a] == structures@[a]);
                                if b < n {
                                    assert(before.structures[b] == structures@[b]);
                                }
                            }
                            assert forall|k: int| 0 <= k < structures@.len() implies (#[trigger] structures@[k]).position.q < q
                                || (structures@[k].position.q == q && structures@[k].position.r < r + 1) by {
                                if k < n {
                                    assert(before.structures[k] == structures@[k]);
                                }
                            }
                        }
                    },
                    None => {},
                }
                proof {
                    assert((FillState { grid: grid@, structures: structures@, rng: self.rng }) == area_cell(before, pos, tm));
                }
                r = r + 1;
            }
            q = q + 1;
        }
        Some(MapChunk { position: ChunkPosition { x: 0, y: 0 }, grid, structures, biome: BiomeType::Plains })
    }
}

} // verus!
