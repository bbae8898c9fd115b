use vstd::prelude::*;

use rand::rngs::StdRng;

use crate::grid::{hex_of, GridModel, HexGrid, TerrainType};
use crate::position::HexPosition;
use crate::rng::{gen_range_i32, gen_ratio, random_seed, range_draw, ratio_draw, seed_rng, seeded};

pub use crate::area::{MapGenerator, MapTemplate};

verus! {

#[derive(Debug, Clone, Copy, PartialEq, Eq, Hash, Structural)]
pub enum BiomeType {
    Forest,
    Mountain,
    Plains,
    Desert,
    Ocean,
    Tundra,
}

#[derive(Debug, Clone, Copy, PartialEq, Eq, Hash, Structural)]
pub enum BuildingType {
    House,
    Shop,
    Temple,
    Castle,
    Tower,
    Inn,
    Stable,
    Wall,
    Gate,
}

#[derive(Debug, Clone, Copy, PartialEq, Eq, Hash, Structural)]
pub enum VegetationType {
    Tree,
    Bush,
    Flower,
    Grass,
    DeadTree,
}

#[derive(Debug, Clone, Copy, PartialEq, Eq, Hash, Structural)]
pub enum LandmarkType {
    Mountain,
    Hill,
    Rock,
    Statue,
    Well,
    Bridge,
}

#[derive(Debug, Clone, Copy, PartialEq, Eq, Hash, Structural)]
pub enum StructureType {
    Building(BuildingType),
    Vegetation(VegetationType),
    Landmark(LandmarkType),
}

/// Integer coordinates of a chunk in the chunk grid.
#[derive(Debug, Clone, Copy, PartialEq, Eq, Hash, Structural)]
pub struct ChunkPosition {
    pub x: i32,
    pub y: i32,
}

/// A structure standing on one hex.
#[derive(Debug, Clone, Copy, PartialEq, Eq, Structural)]
pub struct Placement {
    pub position: HexPosition,
    pub structure: StructureType,
}

/// A generated block of cells with its structures (at most one per hex) and
/// its biome.
#[derive(Debug)]
pub struct MapChunk {
    pub position: ChunkPosition,
    pub grid: HexGrid,
    pub structures: Vec<Placement>,
    pub biome: BiomeType,
}

pub struct ChunkModel {
    pub position: ChunkPosition,
    pub grid: GridModel,
    pub structures: Seq<Placement>,
    pub biome: BiomeType,
}

impl View for MapChunk {
    type V = ChunkModel;

    open spec fn view(&self) -> ChunkModel {
        ChunkModel {
            position: self.position,
            grid: self.grid@,
            structures: self.structures@,
            biome: self.biome,
        }
    }
}

/// A lazily generated, never evicted cache of chunks, with the one generator
/// that all generation draws from.
pub struct WorldMap {
    chunks: Vec<MapChunk>,
    chunk_size: i32,
    rng: StdRng,
}

pub struct WorldModel {
    pub chunks: Map<ChunkPosition, ChunkModel>,
    pub chunk_size: int,
    pub rng: StdRng,
}

/// Cells, structures and generator state part-way through filling a chunk.
pub struct FillState {
    pub grid: GridModel,
    pub structures: Seq<Placement>,
    pub rng: StdRng,
}

pub open spec fn empty_grid() -> GridModel {
    GridModel { cells: Map::empty(), width: 0, height: 0 }
}

pub open spec fn biome_for(k: int) -> BiomeType {
    if k == 0 {
        BiomeType::Forest
    } else if k == 1 {
        BiomeType::Mountain
    } else if k == 2 {
        BiomeType::Plains
    } else if k == 3 {
        BiomeType::Desert
    } else if k == 4 {
        BiomeType::Ocean
    } else {
        BiomeType::Tundra
    }
}

/// One biome for a whole chunk, uniformly among the six.
pub open spec fn draw_biome(rng: StdRng) -> (BiomeType, StdRng) {
    let (k, next) = range_draw(rng, 0, 6);
    (biome_for(k), next)
}

/// A `num`-in-`den` choice between two terrains.
pub open spec fn draw_between(rng: StdRng, num: int, den: int, yes: TerrainType, no: TerrainType) -> (TerrainType, StdRng) {
    let (b, next) = ratio_draw(rng, num, den);
    (if b {
        yes
    } else {
        no
    }, next)
}

/// Terrain by biome: forest 70% plain, else rough; mountain 80% rough, else
/// wall; plains plain; desert 90% plain, else rough; ocean water; tundra 60%
/// plain, else rough.
pub open spec fn draw_terrain(rng: StdRng, biome: BiomeType) -> (TerrainType, StdRng) {
    match biome {
        BiomeType::Forest => draw_between(rng, 7, 10, TerrainType::Plain, TerrainType::Rough),
        BiomeType::Mountain => draw_between(rng, 8, 10, TerrainType::Rough, TerrainType::Wall),
        BiomeType::Plains => (TerrainType::Plain, rng),
        BiomeType::Desert => draw_between(rng, 9, 10, TerrainType::Plain, TerrainType::Rough),
        BiomeType::Ocean => (TerrainType::Water, rng),
        BiomeType::Tundra => draw_between(rng, 6, 10, TerrainType::Plain, TerrainType::Rough),
    }
}

/// Elevation by biome: mountain 5..=14, plains 0..=2, forest 1..=4, desert
/// 0..=1, ocean -1, tundra 2..=6.
pub open spec fn draw_elevation(rng: StdRng, biome: BiomeType) -> (int, StdRng) {
    match biome {
        BiomeType::Mountain => range_draw(rng, 5, 15),
        BiomeType::Plains => range_draw(rng, 0, 3),
        BiomeType::Forest => range_draw(rng, 1, 5),
        BiomeType::Desert => range_draw(rng, 0, 2),
        BiomeType::Ocean => (-1, rng),
        BiomeType::Tundra => range_draw(rng, 2, 7),
    }
}

/// A first chance of `first`, failing which a second chance of `second`.
pub open spec fn draw_two(rng: StdRng, n1: int, d1: int, first: StructureType, n2: int, d2: int, second: StructureType) -> (Option<StructureType>, StdRng) {
    let (a, r1) = ratio_draw(rng, n1, d1);
    if a {
        (Some(first), r1)
    } else {
        let (b, r2) = ratio_draw(r1, n2, d2);
        (if b {
            Some(second)
        } else {
            None
        }, r2)
    }
}

/// Structures by biome and terrain: forest plain 40% tree, else 20% bush;
/// mountain rough 30% rock; plains plain 10% house, else 5% well; nothing
/// elsewhere.
pub open spec fn draw_structure(rng: StdRng, biome: BiomeType, terrain: TerrainType) -> (Option<StructureType>, StdRng) {
    if biome == BiomeType::Forest && terrain == TerrainType::Plain {
        draw_two(
            rng,
            4,
            10,
            StructureType::Vegetation(VegetationType::Tree),
            2,
            10,
            StructureType::Vegetation(VegetationType::Bush),
        )
    } else if biome == BiomeType::Mountain && terrain == TerrainType::Rough {
        let (a, r1) = ratio_draw(rng, 3, 10);
        (if a {
            Some(StructureType::Landmark(LandmarkType::Rock))
        } else {
            None
        }, r1)
    } else if biome == BiomeType::Plains && terrain == TerrainType::Plain {
        draw_two(
            rng,
            1,
            10,
            StructureType::Building(BuildingType::House),
            5,
            100,
            StructureType::Landmark(LandmarkType::Well),
        )
    } else {
        (None, rng)
    }
}

/// Hex `(q, r)` of chunk `c`, in local coordinates.
pub open spec fn chunk_hex(c: ChunkPosition, cs: int, q: int, r: int) -> HexPosition {
    HexPosition { q: (c.x * cs + q) as i32, r: (c.y * cs + r) as i32, z: 0 }
}

/// One generated cell: terrain, then elevation, then the optional structure.
pub open spec fn fill_cell(st: FillState, p: HexPosition, biome: BiomeType) -> FillState {
    let (t, r1) = draw_terrain(st.rng, biome);
    let (e, r2) = draw_elevation(r1, biome);
    let (s, r3) = draw_structure(r2, biome, t);
    FillState {
        grid: st.grid.with_cell(p, t, e as i32),
        structures: match s {
            Some(x) => st.structures.push(Placement { position: p, structure: x }),
            None => st.structures,
        },
        rng: r3,
    }
}

/// Cells `(q, 0)` to `(q, r - 1)` of chunk `c` filled, in that order.
pub open spec fn fill_row(c: ChunkPosition, cs: int, biome: BiomeType, q: int, r: nat, st: FillState) -> FillState
    decreases r,
{
    if r == 0 {
        st
    } else {
        fill_cell(fill_row(c, cs, biome, q, (r - 1) as nat, st), chunk_hex(c, cs, q, r - 1), biome)
    }
}

/// Rows `0` to `q - 1` of chunk `c` filled, row by row.
pub open spec fn fill_rows(c: ChunkPosition, cs: int, biome: BiomeType, q: nat, st: FillState) -> FillState
    decreases q,
{
    if q == 0 {
        st
    } else {
        fill_row(c, cs, biome, q - 1, cs as nat, fill_rows(c, cs, biome, (q - 1) as nat, st))
    }
}

/// The chunk that a generator in state `rng` makes at `c`, and its next state.
pub open spec fn generate(rng: StdRng, c: ChunkPosition, cs: int) -> (ChunkModel, StdRng) {
    let (biome, r1) = draw_biome(rng);
    let st = fill_rows(
        c,
        cs,
        biome,
        if cs > 0 {
            cs as nat
        } else {
            0
        },
        FillState { grid: empty_grid(), structures: seq![], rng: r1 },
    );
    (ChunkModel { position: c, grid: st.grid, structures: st.structures, biome }, st.rng)
}

/// A request for the chunk at `c`: the cached chunk, with nothing changed, or
/// else a new chunk, cached.
pub open spec fn request(w: WorldModel, c: ChunkPosition) -> (WorldModel, ChunkModel) {
    if w.chunks.contains_key(c) {
        (w, w.chunks[c])
    } else {
        let (chunk, next) = generate(w.rng, c, w.chunk_size);
        (WorldModel { chunks: w.chunks.insert(c, chunk), chunk_size: w.chunk_size, rng: next }, chunk)
    }
}

/// Requests for each of `cs`, in order.
pub open spec fn request_all(w: WorldModel, cs: Seq<ChunkPosition>) -> WorldModel
    decreases cs.len(),
{
    if cs.len() == 0 {
        w
    } else {
        request(request_all(w, cs.drop_last()), cs.last()).0
    }
}

/// Lowest and highest elevation of a biome.
pub open spec fn elevation_window(b: BiomeType) -> (int, int) {
    match b {
        BiomeType::Mountain => (5, 14),
        BiomeType::Plains => (0, 2),
        BiomeType::Forest => (1, 4),
        BiomeType::Desert => (0, 1),
        BiomeType::Ocean => (-1, -1),
        BiomeType::Tundra => (2, 6),
    }
}

/// Every cell's elevation lies in the biome's window, and no two structures
/// stand on one hex.
pub open spec fn chunk_ok(c: ChunkModel) -> bool {
    &&& forall|h: HexPosition| #[trigger]
        c.grid.cells.contains_key(h) ==> elevation_window(c.biome).0 <= c.grid.cells[h].elevation
            <= elevation_window(c.biome).1
    &&& forall|i: int, j: int|
        0 <= i < j < c.structures.len() ==> hex_of(c.structures[i].position) != hex_of(c.structures[j].position)
}

/// The hex coordinates of chunk `c` fit in `i32`.
pub open spec fn chunk_in_range(c: ChunkPosition, cs: int) -> bool {
    cs <= 0 || (i32::MIN <= c.x * cs && c.x * cs + cs <= i32::MAX && i32::MIN <= c.y * cs && c.y * cs + cs
        <= i32::MAX)
}

/// Floor of `a / b` for positive `b`.
pub open spec fn floor_div(a: int, b: int) -> int {
    a / b
}

/// For a positive divisor the quotient lies between the dividend and zero.
proof fn lemma_quotient_bounded(a: int, b: int)
    requires
        b > 0,
    ensures
        a >= 0 ==> 0 <= a / b <= a,
        a < 0 ==> a <= a / b < 0,
{
    vstd::arithmetic::div_mod::lemma_fundamental_div_mod(a, b);
    let k = a / b;
    let m = a % b;
    assert(0 <= m < b);
    assert(a == b * k + m);
    if a >= 0 {
        assert(0 <= k <= a) by (nonlinear_arith)
            requires
                a == b * k + m,
                0 <= m < b,
                b > 0,
                a >= 0,
        ;
    } else {
        assert(a <= k < 0) by (nonlinear_arith)
            requires
                a == b * k + m,
                0 <= m < b,
                b > 0,
                a < 0,
        ;
    }
}

impl View for WorldMap {
    type V = WorldModel;

    closed spec fn view(&self) -> WorldModel {
        WorldModel {
            chunks: Map::new(
                |c: ChunkPosition| self.has_chunk(c),
                |c: ChunkPosition| self.chunks@[self.chunk_index(c)]@,
            ),
            chunk_size: self.chunk_size as int,
            rng: self.rng,
        }
    }
}

/// A world whose generator was seeded with `seed` and which holds no chunk yet.
pub open spec fn fresh_world(chunk_size: int, seed: u64) -> WorldModel {
    WorldModel { chunks: Map::empty(), chunk_size, rng: seeded(seed) }
}

impl WorldMap {
    spec fn has_chunk(&self, c: ChunkPosition) -> bool {
        exists|i: int| 0 <= i < self.chunks@.len() && self.chunks@[i].position == c
    }

    spec fn chunk_index(&self, c: ChunkPosition) -> int {
        choose|i: int| 0 <= i < self.chunks@.len() && self.chunks@[i].position == c
    }

    /// One cached chunk per position, each with a well-formed grid whose
    /// elevations and structures are as generation leaves them.
    pub closed spec fn wf(&self) -> bool {
        &&& forall|i: int, j: int|
            0 <= i < j < self.chunks@.len() ==> self.chunks@[i].position != self.chunks@[j].position
        &&& forall|i: int|
            0 <= i < self.chunks@.len() ==> (#[trigger] self.chunks@[i]).grid.wf() && chunk_ok(self.chunks@[i]@)
    }

    proof fn lemma_chunk_at(&self, i: int)
        requires
            self.wf(),
            0 <= i < self.chunks@.len(),
        ensures
            self@.chunks.contains_key(self.chunks@[i].position),
            self@.chunks[self.chunks@[i].position] == self.chunks@[i]@,
    {
        let c = self.chunks@[i].position;
        assert(self.has_chunk(c));
        let j = self.chunk_index(c);
        if j != i {
            assert(self.chunks@[j].position == c);
        }
    }

    /// A world of chunks `chunk_size` hexes wide, seeded from process randomness.
    pub fn new(chunk_size: i32) -> (w: WorldMap)
        ensures
            w.wf(),
            w@.chunks == Map::<ChunkPosition, ChunkModel>::empty(),
            w@.chunk_size == chunk_size,
    {
        WorldMap::with_seed(chunk_size, random_seed())
    }

    /// A world of chunks `chunk_size` hexes wide whose generator is seeded with
    /// `seed`.
    pub fn with_seed(chunk_size: i32, seed: u64) -> (w: WorldMap)
        ensures
            w.wf(),
            w@ == fresh_world(chunk_size as int, seed),
    {
        let w = WorldMap { chunks: Vec::new(), chunk_size, rng: seed_rng(seed) };
        assert(w@.chunks =~= Map::<ChunkPosition, ChunkModel>::empty());
        w
    }

    fn find_chunk(&self, position: &ChunkPosition) -> (r: Option<usize>)
        requires
            self.wf(),
        ensures
            match r {
                Some(i) => i < self.chunks@.len() && self.chunks@[i as int].position == *position,
                None => !self@.chunks.contains_key(*position),
            },
    {
        let mut i: usize = 0;
        while i < self.chunks.len()
            invariant
                i <= self.chunks@.len(),
                forall|j: int| 0 <= j < i ==> self.chunks@[j].position != *position,
            decreases self.chunks@.len() - i,
        {
            if self.chunks[i].position == *position {
                return Some(i);
            }
            i = i + 1;
        }
        proof {
            if self@.chunks.contains_key(*position) {
                assert(self.has_chunk(*position));
            }
        }
        None
    }

    /// The cached chunk at `position`, generating and caching it on the first
    /// request. A cached chunk comes back unchanged and the generator is not
    /// touched.
    pub fn get_or_generate_chunk(&mut self, position: ChunkPosition) -> (r: &MapChunk)
        requires
            old(self).wf(),
            chunk_in_range(position, old(self)@.chunk_size),
        ensures
            final(self).wf(),
            (final(self)@, r@) == request(old(self)@, position),
            r.grid.wf(),
            chunk_ok(r@),
    {
        match self.find_chunk(&position) {
            Some(i) => {
                proof {
                    self.lemma_chunk_at(i as int);
                }
                &self.chunks[i]
            },
            None => {
                let ghost before = *self;
                let chunk = self.generate_chunk(position);
                self.chunks.push(chunk);
                let n = self.chunks.len() - 1;
                proof {
                    assert(self.chunks@[n as int].position == position);
                    assert forall|a: int, b: int| 0 <= a < b < self.chunks@.len() implies self.chunks@[a].position
                        != self.chunks@[b].position by {
                        if b == n {
                            assert(before.chunks@[a] == self.chunks@[a]);
                            if before.chunks@[a].position == position {
                                assert(before.has_chunk(position));
                                assert(before@.chunks.contains_key(position));
                            }
                        } else {
                            assert(before.chunks@[a] == self.chunks@[a]);
                            assert(before.chunks@[b] == self.chunks@[b]);
                        }
                    }
                    assert forall|a: int| 0 <= a < self.chunks@.len() implies (#[trigger] self.chunks@[a]).grid.wf()
                        && chunk_ok(self.chunks@[a]@) by {
                        if a < n {
                            assert(before.chunks@[a] == self.chunks@[a]);
                        }
                    }
                    assert(self.wf());
                    let target = request(before@, position).0;
                    assert forall|c: ChunkPosition| #[trigger] self@.chunks.contains_key(c) <==> target.chunks.contains_key(c) by {
                        if c == position {
                            assert(self.has_chunk(c));
                        } else if self.has_chunk(c) {
                            let j = self.chunk_index(c);
                            assert(before.chunks@[j].position == c);
                            assert(before.has_chunk(c));
                        } else if before.has_chunk(c) {
                            let j = before.chunk_index(c);
                            assert(self.chunks@[j].position == c);
                        }
                    }
                    assert forall|c: ChunkPosition| #[trigger] self@.chunks.contains_key(c) implies self@.chunks[c]
                        == target.chunks[c] by {
                        let j = self.chunk_index(c);
                        self.lemma_chunk_at(j);
                        if c != position {
                            assert(before.chunks@[j] == self.chunks@[j]);
                            before.lemma_chunk_at(j);
                        }
                    }
                    assert(self@.chunks =~= target.chunks);
                }
                &self.chunks[n]
            },
        }
    }

    /// The cached chunk at `position`, if any.
    pub fn get_chunk(&self, position: &ChunkPosition) -> (r: Option<&MapChunk>)
        requires
            self.wf(),
        ensures
            match r {
                Some(c) => self@.chunks.contains_key(*position) && c@ == self@.chunks[*position] && c.grid.wf()
                    && chunk_ok(c@),
                None => !self@.chunks.contains_key(*position),
            },
    {
        match self.find_chunk(position) {
            Some(i) => {
                proof {
                    self.lemma_chunk_at(i as int);
                }
                Some(&self.chunks[i])
            },
            None => None,
        }
    }

    /// The chunk that holds `hex`: `q` and `r` divided by the chunk size,
    /// rounded down.
    pub fn get_chunk_position_for_hex(&self, hex: &HexPosition) -> (c: ChunkPosition)
        requires
            self@.chunk_size > 0,
        ensures
            c.x == floor_div(hex.q as int, self@.chunk_size),
            c.y == floor_div(hex.r as int, self@.chunk_size),
    {
        proof {
            lemma_quotient_bounded(hex.q as int, self.chunk_size as int);
            lemma_quotient_bounded(hex.r as int, self.chunk_size as int);
        }
        let x = match hex.q.checked_div_euclid(self.chunk_size) {
            Some(v) => v,
            None => 0,
        };
        let y = match hex.r.checked_div_euclid(self.chunk_size) {
            Some(v) => v,
            None => 0,
        };
        ChunkPosition { x, y }
    }

    fn determine_biome(&mut self, _position: ChunkPosition) -> (b: BiomeType)
        ensures
            final(self).chunks@ == old(self).chunks@,
            final(self).chunk_size == old(self).chunk_size,
            (b, final(self).rng) == draw_biome(old(self).rng),
    {
        let k = gen_range_i32(&mut self.rng, 0, 6);
        if k == 0 {
            BiomeType::Forest
        } else if k == 1 {
            BiomeType::Mountain
        } else if k == 2 {
            BiomeType::Plains
        } else if k == 3 {
            BiomeType::Desert
        } else if k == 4 {
            BiomeType::Ocean
        } else {
            BiomeType::Tundra
        }
    }

    fn get_terrain_for_biome(&mut self, biome: BiomeType) -> (t: TerrainType)
        ensures
            final(self).chunks@ == old(self).chunks@,
            final(self).chunk_size == old(self).chunk_size,
            (t, final(self).rng) == draw_terrain(old(self).rng, biome),
    {
        match biome {
            BiomeType::Forest => if gen_ratio(&mut self.rng, 7, 10) {
                TerrainType::Plain
            } else {
                TerrainType::Rough
            },
            BiomeType::Mountain => if gen_ratio(&mut self.rng, 8, 10) {
                TerrainType::Rough
            } else {
                TerrainType::Wall
            },
            BiomeType::Plains => TerrainType::Plain,
            BiomeType::Desert => if gen_ratio(&mut self.rng, 9, 10) {
                TerrainType::Plain
            } else {
                TerrainType::Rough
            },
            BiomeType::Ocean => TerrainType::Water,
            BiomeType::Tundra => if gen_ratio(&mut self.rng, 6, 10) {
                TerrainType::Plain
            } else {
                TerrainType::Rough
            },
        }
    }

    fn get_elevation_for_biome(&mut self, biome: BiomeType) -> (e: i32)
        ensures
            final(self).chunks@ == old(self).chunks@,
            final(self).chunk_size == old(self).chunk_size,
            (e as int, final(self).rng) == draw_elevation(old(self).rng, biome),
            elevation_window(biome).0 <= e <= elevation_window(biome).1,
    {
        match biome {
            BiomeType::Mountain => gen_range_i32(&mut self.rng, 5, 15),
            BiomeType::Plains => gen_range_i32(&mut self.rng, 0, 3),
            BiomeType::Forest => gen_range_i32(&mut self.rng, 1, 5),
            BiomeType::Desert => gen_range_i32(&mut self.rng, 0, 2),
            BiomeType::Ocean => -1,
            BiomeType::Tundra => gen_range_i32(&mut self.rng, 2, 7),
        }
    }

    fn generate_structure(&mut self, biome: BiomeType, terrain: TerrainType) -> (s: Option<StructureType>)
        ensures
            final(self).chunks@ == old(self).chunks@,
            final(self).chunk_size == old(self).chunk_size,
            (s, final(self).rng) == draw_structure(old(self).rng, biome, terrain),
    {
        if biome == BiomeType::Forest && terrain == TerrainType::Plain {
            if gen_ratio(&mut self.rng, 4, 10) {
                Some(StructureType::Vegetation(VegetationType::Tree))
            } else if gen_ratio(&mut self.rng, 2, 10) {
                Some(StructureType::Vegetation(VegetationType::Bush))
            } else {
                None
            }
        } else if biome == BiomeType::Mountain && terrain == TerrainType::Rough {
            if gen_ratio(&mut self.rng, 3, 10) {
                Some(StructureType::Landmark(LandmarkType::Rock))
            } else {
                None
            }
        } else if biome == BiomeType::Plains && terrain == TerrainType::Plain {
            if gen_ratio(&mut self.rng, 1, 10) {
                Some(StructureType::Building(BuildingType::House))
            } else if gen_ratio(&mut self.rng, 5, 100) {
                Some(StructureType::Landmark(LandmarkType::Well))
            } else {
                None
            }
        } else {
            None
        }
    }

    fn generate_chunk(&mut self, position: ChunkPosition) -> (chunk: MapChunk)
        requires
            chunk_in_range(position, old(self).chunk_size as int),
        ensures
            final(self).chunks@ == old(self).chunks@,
            final(self).chunk_size == old(self).chunk_size,
            chunk.grid.wf(),
            chunk_ok(chunk@),
            (chunk@, final(self).rng) == generate(old(self).rng, position, old(self).chunk_size as int),
    {
        let biome = self.determine_biome(position);
        let mut grid = HexGrid::new();
        let mut structures: Vec<Placement> = Vec::new();
        let cs = self.chunk_size;
        let ghost chunks0 = self.chunks@;
        let ghost st0 = FillState { grid: grid@, structures: structures@, rng: self.rng };
        let ghost bq = position.x as int * cs as int;
        let ghost br = position.y as int * cs as int;
        let mut q: i32 = 0;
        while q < cs
            invariant
                grid.wf(),
                bq == position.x as int * cs as int,
                br == position.y as int * cs as int,
                forall|h: HexPosition| #[trigger]
                    grid@.cells.contains_key(h) ==> elevation_window(biome).0 <= grid@.cells[h].elevation
                        <= elevation_window(biome).1,
                forall|k: int| 0 <= k < structures@.len() ==> (#[trigger] structures@[k]).position.q < bq + q,
                forall|a: int, b: int|
                    0 <= a < b < structures@.len() ==> hex_of(structures@[a].position) != hex_of(structures@[b].position),
                cs == self.chunk_size,
                chunks0 == self.chunks@,
                chunk_in_range(position, cs as int),
                0 <= q,
                cs > 0 ==> q <= cs,
                cs <= 0 ==> q == 0,
                (FillState { grid: grid@, structures: structures@, rng: self.rng }) == fill_rows(
                    position,
                    cs as int,
                    biome,
                    q as nat,
                    st0,
                ),
            decreases cs - q,
        {
            let ghost row0 = FillState { grid: grid@, structures: structures@, rng: self.rng };
            let mut r: i32 = 0;
            while r < cs
                invariant
                    grid.wf(),
                    bq == position.x as int * cs as int,
                    br == position.y as int * cs as int,
                    forall|h: HexPosition| #[trigger]
                        grid@.cells.contains_key(h) ==> elevation_window(biome).0 <= grid@.cells[h].elevation
                            <= elevation_window(biome).1,
                    forall|k: int|
                        0 <= k < structures@.len() ==> (#[trigger] structures@[k]).position.q < bq + q || (
                        structures@[k].position.q == bq + q && structures@[k].position.r < br + r),
                    forall|a: int, b: int|
                        0 <= a < b < structures@.len() ==> hex_of(structures@[a].position) != hex_of(structures@[b].position),
                    cs == self.chunk_size,
                    chunks0 == self.chunks@,
                    chunk_in_range(position, cs as int),
                    0 <= q < cs,
                    0 <= r <= cs,
                    row0 == fill_rows(position, cs as int, biome, q as nat, st0),
                    (FillState { grid: grid@, structures: structures@, rng: self.rng }) == fill_row(
                        position,
                        cs as int,
                        biome,
                        q as int,
                        r as nat,
                        row0,
                    ),
                decreases cs - r,
            {
                let hq = (position.x as i64 * cs as i64 + q as i64) as i32;
                let hr = (position.y as i64 * cs as i64 + r as i64) as i32;
                let hex_pos = HexPosition::new_2d(hq, hr);
                assert(hex_pos == chunk_hex(position, cs as int, q as int, r as int));
                let ghost before = FillState { grid: grid@, structures: structures@, rng: self.rng };
                let terrain = self.get_terrain_for_biome(biome);
                let elevation = self.get_elevation_for_biome(biome);
                grid.add_cell(hex_pos, terrain, elevation);
                match self.generate_structure(biome, terrain) {
                    Some(s) => {
                        structures.push(Placement { position: hex_pos, structure: s });
                        proof {
                            let n = structures@.len() - 1;
                            assert forall|a: int, b: int| 0 <= a < b < structures@.len() implies hex_of(
                                structures@[a].position,
                            ) != hex_of(structures@[b].position) by {
                                assert(before.structures[a] == structures@[a]);
                                if b < n {
                                    assert(before.structures[b] == structures@[b]);
                                }
                            }
                            assert forall|k: int| 0 <= k < structures@.len() implies (#[trigger] structures@[k]).position.q
                                < bq + q || (structures@[k].position.q == bq + q && structures@[k].position.r < br + r
                                + 1) by {
                                if k < n {
                                    assert(before.structures[k] == structures@[k]);
                                }
                            }
                        }
                    },
                    None => {},
                }
                proof {
                    assert((FillState { grid: grid@, structures: structures@, rng: self.rng }) == fill_cell(
                        before,
                        hex_pos,
                        biome,
                    ));
                }
                r = r + 1;
            }
            q = q + 1;
        }
        MapChunk { position, grid, structures, biome }
    }
}

/// Requests for chunks `(x, 0)` to `(x, n - 1)`, in order.
pub open spec fn request_column(w: WorldModel, x: int, n: nat) -> WorldModel
    decreases n,
{
    if n == 0 {
        w
    } else {
        request(request_column(w, x, (n - 1) as nat), ChunkPosition { x: x as i32, y: (n - 1) as i32 }).0
    }
}

/// Requests for every chunk `(x, y)` with `x < n` and `y < size`, column by
/// column.
pub open spec fn request_square(w: WorldModel, size: nat, n: nat) -> WorldModel
    decreases n,
{
    if n == 0 {
        w
    } else {
        request_column(request_square(w, size, (n - 1) as nat), n - 1, size)
    }
}

/// Requesting a chunk twice gives the same chunk both times, and the second
/// request changes nothing: no chunk and no generator state.
pub proof fn lemma_request_twice(w: WorldModel, c: ChunkPosition)
    ensures
        request(request(w, c).0, c).1 == request(w, c).1,
        request(request(w, c).0, c).0 == request(w, c).0,
{
}

/// Two worlds made with the same chunk size and seed that receive the same
/// requests answer each request with the same chunk, and end in the same state.
pub proof fn lemma_same_seed_same_chunks(a: WorldModel, b: WorldModel, chunk_size: int, seed: u64, reqs: Seq<ChunkPosition>)
    requires
        a == fresh_world(chunk_size, seed),
        b == fresh_world(chunk_size, seed),
    ensures
        request_all(a, reqs) == request_all(b, reqs),
        forall|i: int|
            0 <= i < reqs.len() ==> #[trigger] request(request_all(a, reqs.take(i)), reqs[i]).1 == request(
                request_all(b, reqs.take(i)),
                reqs[i],
            ).1,
{
}

/// Generates (or finds cached) every chunk `(x, y)` with `0 <= x, y < size`,
/// column by column.
pub fn generate_world_map(world: &mut WorldMap, size: i32)
    requires
        old(world).wf(),
        size <= 0 || old(world)@.chunk_size <= 0 || size * old(world)@.chunk_size <= i32::MAX,
    ensures
        final(world).wf(),
        final(world)@ == request_square(
            old(world)@,
            if size > 0 {
                size as nat
            } else {
                0
            },
            if size > 0 {
                size as nat
            } else {
                0
            },
        ),
{
    let ghost w0 = world@;
    let ghost n = if size > 0 {
        size as nat
    } else {
        0
    };
    let mut x: i32 = 0;
    while x < size
        invariant
            world.wf(),
            0 <= x,
            size > 0 ==> x <= size,
            size <= 0 ==> x == 0,
            n == (if size > 0 {
                size as nat
            } else {
                0
            }),
            size <= 0 || w0.chunk_size <= 0 || size * w0.chunk_size <= i32::MAX,
            world@.chunk_size == w0.chunk_size,
            world@ == request_square(w0, n, x as nat),
        decreases size - x,
    {
        let mut y: i32 = 0;
        let ghost col0 = world@;
        while y < size
            invariant
                world.wf(),
                0 <= x < size,
                0 <= y <= size,
                n == size,
                size * w0.chunk_size <= i32::MAX || w0.chunk_size <= 0,
                world@.chunk_size == w0.chunk_size,
                col0 == request_square(w0, n, x as nat),
                world@ == request_column(col0, x as int, y as nat),
            decreases size - y,
        {
            let pos = ChunkPosition { x, y };
            proof {
                let cs = w0.chunk_size;
                if cs > 0 {
                    assert(0 <= x * cs && x * cs + cs <= size * cs) by (nonlinear_arith)
                        requires
                            0 <= x < size,
                            cs > 0,
                    ;
                    assert(0 <= y * cs && y * cs + cs <= size * cs) by (nonlinear_arith)
                        requires
                            0 <= y < size,
                            cs > 0,
                    ;
                }
            }
            let _ = world.get_or_generate_chunk(pos);
            y = y + 1;
        }
        x = x + 1;
    }
}

} // verus!
