use vstd::prelude::*;

use crate::position::{abs_int, HexPosition};

verus! {

/// The kinds of ground a cell can have.
#[derive(Debug, Clone, Copy, PartialEq, Eq, Hash, Structural)]
pub enum TerrainType {
    Plain,
    Rough,
    Water,
    Wall,
    Sand,
    Snow,
    Swamp,
    Lava,
}

/// One placed cell. `movement_cost` is fixed when the cell is inserted.
#[derive(Debug, Clone, Copy, PartialEq, Eq, Structural)]
pub struct Cell {
    pub position: HexPosition,
    pub terrain: TerrainType,
    pub movement_cost: i32,
    pub elevation: i32,
}

/// A grid of cells keyed by position, with a bounding rectangle that only grows.
#[derive(Debug, Clone)]
pub struct HexGrid {
    cells: Vec<Cell>,
    width: i32,
    height: i32,
}

/// The mathematical content of a grid.
pub struct GridModel {
    pub cells: Map<HexPosition, Cell>,
    pub width: int,
    pub height: int,
}

/// Wall and lava cannot be entered or left.
pub open spec fn impassable(t: TerrainType) -> bool {
    t == TerrainType::Wall || t == TerrainType::Lava
}

/// Cost of entering a cell of the given terrain; impassable terrain gets the
/// `i32::MAX` sentinel.
pub open spec fn base_cost(t: TerrainType) -> int {
    match t {
        TerrainType::Plain => 1,
        TerrainType::Rough => 2,
        TerrainType::Sand => 2,
        TerrainType::Snow => 2,
        TerrainType::Water => 3,
        TerrainType::Swamp => 3,
        TerrainType::Wall => i32::MAX as int,
        TerrainType::Lava => i32::MAX as int,
    }
}

/// Elevation window of a terrain: water at most 0, snow at least 5, lava at
/// most 2, anything else within [-10, 15].
pub open spec fn terrain_allows(t: TerrainType, e: int) -> bool {
    match t {
        TerrainType::Water => e <= 0,
        TerrainType::Snow => e >= 5,
        TerrainType::Lava => e <= 2,
        _ => -10 <= e <= 15,
    }
}

/// Offsets of the eight neighbour candidates, in enumeration order: east,
/// north-east, north-west, west, south-west, south-east, up, down.
pub open spec fn offset(k: int) -> (int, int, int) {
    if k == 0 {
        (1, 0, 0)
    } else if k == 1 {
        (1, -1, 0)
    } else if k == 2 {
        (0, -1, 0)
    } else if k == 3 {
        (-1, 0, 0)
    } else if k == 4 {
        (-1, 1, 0)
    } else if k == 5 {
        (0, 1, 0)
    } else if k == 6 {
        (0, 0, 1)
    } else {
        (0, 0, -1)
    }
}

pub open spec fn fits_i32(x: int) -> bool {
    i32::MIN <= x <= i32::MAX
}

/// Whether the `k`-th candidate of `p` has representable coordinates.
pub open spec fn step_fits(p: HexPosition, k: int) -> bool {
    fits_i32(p.q + offset(k).0) && fits_i32(p.r + offset(k).1) && fits_i32(p.z + offset(k).2)
}

pub open spec fn step(p: HexPosition, k: int) -> HexPosition {
    HexPosition {
        q: (p.q + offset(k).0) as i32,
        r: (p.r + offset(k).1) as i32,
        z: (p.z + offset(k).2) as i32,
    }
}

/// Elevation change cost between two cells: the difference itself when at most
/// one, twice it otherwise, then doubled next to water or snow (water first),
/// or times one and a half, rounded down, next to rough ground.
pub open spec fn climb_cost(a: Cell, b: Cell) -> int {
    let d = abs_int(b.elevation - a.elevation);
    let base = if d <= 1 {
        d
    } else {
        2 * d
    };
    if a.terrain == TerrainType::Water || b.terrain == TerrainType::Water {
        2 * base
    } else if a.terrain == TerrainType::Snow || b.terrain == TerrainType::Snow {
        2 * base
    } else if a.terrain == TerrainType::Rough || b.terrain == TerrainType::Rough {
        (3 * base) / 2
    } else {
        base
    }
}

/// Upper bound on the weight of one step.
pub open spec fn max_step() -> int {
    0x8_0000_0000
}

/// The hex `(q, r)` of a position.
pub open spec fn hex_of(p: HexPosition) -> (i32, i32) {
    (p.q, p.r)
}

pub open spec fn max_int(a: int, b: int) -> int {
    if a >= b {
        a
    } else {
        b
    }
}

impl GridModel {
    /// Inside the bounding rectangle, and within the elevation window of the
    /// cell there (or the default window where no cell is placed).
    pub open spec fn in_bounds(self, p: HexPosition) -> bool {
        &&& 0 <= p.q < self.width
        &&& 0 <= p.r < self.height
        &&& if self.cells.contains_key(p) {
            terrain_allows(self.cells[p].terrain, self.cells[p].elevation as int)
        } else {
            -10 <= p.z <= 15
        }
    }

    /// The first `k` candidates of `p` that are in bounds, in order.
    pub open spec fn neighbors_upto(self, p: HexPosition, k: nat) -> Seq<HexPosition>
        decreases k,
    {
        if k == 0 {
            seq![]
        } else {
            let prev = self.neighbors_upto(p, (k - 1) as nat);
            if step_fits(p, k - 1) && self.in_bounds(step(p, k - 1)) {
                prev.push(step(p, k - 1))
            } else {
                prev
            }
        }
    }

    pub open spec fn neighbors(self, p: HexPosition) -> Seq<HexPosition> {
        self.neighbors_upto(p, 8)
    }

    /// The first cell placed at one of `s[i..]`.
    pub open spec fn first_present(self, s: Seq<HexPosition>, i: int) -> Option<Cell>
        decreases s.len() - i,
    {
        if i < 0 || i >= s.len() {
            None
        } else if self.cells.contains_key(s[i]) {
            Some(self.cells[s[i]])
        } else {
            self.first_present(s, i + 1)
        }
    }

    /// Movement cost of a new cell at `p`: the terrain's base cost, plus twice
    /// the elevation difference to the first placed neighbour when that
    /// difference exceeds one; capped at the impassable sentinel.
    pub open spec fn entry_cost(self, p: HexPosition, terrain: TerrainType) -> int {
        let penalty = match self.first_present(self.neighbors(p), 0) {
            Some(c) => {
                let d = abs_int(p.z - c.elevation);
                if d > 1 {
                    2 * d
                } else {
                    0
                }
            },
            None => 0,
        };
        if base_cost(terrain) + penalty > i32::MAX {
            i32::MAX as int
        } else {
            base_cost(terrain) + penalty
        }
    }

    /// The grid after placing `terrain` at `position`, lifted to `elevation`.
    pub open spec fn with_cell(self, position: HexPosition, terrain: TerrainType, elevation: i32) -> GridModel {
        let p = HexPosition { q: position.q, r: position.r, z: elevation };
        GridModel {
            cells: self.cells.insert(
                p,
                Cell {
                    position: p,
                    terrain,
                    movement_cost: self.entry_cost(p, terrain) as i32,
                    elevation,
                },
            ),
            width: max_int(self.width, position.q + 1),
            height: max_int(self.height, position.r + 1),
        }
    }

    /// A cell stands at exactly `p`, within bounds.
    pub open spec fn stands(self, p: HexPosition) -> bool {
        self.cells.contains_key(p) && self.in_bounds(p)
    }

    /// Where a step from `u` towards the neighbour candidate `n` lands: on
    /// the cell at `n`; or, for a planar candidate, failing that on the cell
    /// one level below `n`, and failing that one level above.
    pub open spec fn landing(self, u: HexPosition, n: HexPosition) -> Option<HexPosition> {
        let below = HexPosition { q: n.q, r: n.r, z: (n.z - 1) as i32 };
        let above = HexPosition { q: n.q, r: n.r, z: (n.z + 1) as i32 };
        if self.stands(n) {
            Some(n)
        } else if hex_of(n) == hex_of(u) {
            None
        } else if n.z > i32::MIN && self.stands(below) {
            Some(below)
        } else if n.z < i32::MAX && self.stands(above) {
            Some(above)
        } else {
            None
        }
    }

    /// Whether a step from `u` towards one of its neighbour candidates lands
    /// on `v`.
    pub open spec fn steps_to(self, u: HexPosition, v: HexPosition) -> bool {
        exists|k: int| 0 <= k < self.neighbors(u).len() && #[trigger] self.landing(u, self.neighbors(u)[k]) == Some(v)
    }

    /// A step from the cell at `u` to the cell `v` that a step towards one of
    /// `u`'s neighbour candidates lands on; neither cell is wall or lava.
    pub open spec fn is_edge(self, u: HexPosition, v: HexPosition) -> bool {
        &&& self.steps_to(u, v)
        &&& self.cells.contains_key(u)
        &&& self.cells.contains_key(v)
        &&& !impassable(self.cells[u].terrain)
        &&& !impassable(self.cells[v].terrain)
    }

    /// Weight of a step: the destination's movement cost plus the climb cost.
    pub open spec fn edge_weight(self, u: HexPosition, v: HexPosition) -> int {
        self.cells[v].movement_cost + climb_cost(self.cells[u], self.cells[v])
    }

    /// A non-empty sequence of positions, each a step from the one before.
    pub open spec fn is_path(self, path: Seq<HexPosition>) -> bool {
        &&& path.len() >= 1
        &&& forall|i: int| 0 <= i < path.len() - 1 ==> #[trigger] self.is_edge(path[i], path[i + 1])
    }

    /// The sum of the step weights along a path.
    pub open spec fn path_weight(self, path: Seq<HexPosition>) -> int
        decreases path.len(),
    {
        if path.len() < 2 {
            0
        } else {
            self.edge_weight(path[0], path[1]) + self.path_weight(path.drop_first())
        }
    }

    pub open spec fn reachable(self, start: HexPosition, goal: HexPosition) -> bool {
        exists|path: Seq<HexPosition>| self.is_path(path) && path[0] == start && path.last() == goal
    }

    /// Every cell sits under its own position, at its own elevation, with a
    /// positive movement cost, below the width and height, and below
    /// `i32::MAX` in `q` and `r`.
    pub open spec fn consistent(self) -> bool {
        forall|p: HexPosition| #[trigger]
            self.cells.contains_key(p) ==> self.cells[p].position == p && self.cells[p].elevation
                == p.z && self.cells[p].movement_cost >= 1 && p.q < i32::MAX && p.r < i32::MAX && p.q
                < self.width && p.r < self.height
    }
}

impl View for HexGrid {
    type V = GridModel;

    closed spec fn view(&self) -> GridModel {
        GridModel {
            cells: Map::new(|p: HexPosition| self.has_at(p), |p: HexPosition| self.cells@[self.index_of(p)]),
            width: self.width as int,
            height: self.height as int,
        }
    }
}

fn offset_of(k: usize) -> (o: (i64, i64, i64))
    requires
        k < 8,
    ensures
        o.0 == offset(k as int).0,
        o.1 == offset(k as int).1,
        o.2 == offset(k as int).2,
{
    if k == 0 {
        (1, 0, 0)
    } else if k == 1 {
        (1, -1, 0)
    } else if k == 2 {
        (0, -1, 0)
    } else if k == 3 {
        (-1, 0, 0)
    } else if k == 4 {
        (-1, 1, 0)
    } else if k == 5 {
        (0, 1, 0)
    } else if k == 6 {
        (0, 0, 1)
    } else {
        (0, 0, -1)
    }
}

fn step_of(p: &HexPosition, k: usize) -> (r: Option<HexPosition>)
    requires
        k < 8,
    ensures
        r == (if step_fits(*p, k as int) {
            Some(step(*p, k as int))
        } else {
            None
        }),
{
    let (dq, dr, dz) = offset_of(k);
    let q = p.q as i64 + dq;
    let r = p.r as i64 + dr;
    let z = p.z as i64 + dz;
    if q < i32::MIN as i64 || q > i32::MAX as i64 || r < i32::MIN as i64 || r > i32::MAX as i64
        || z < i32::MIN as i64 || z > i32::MAX as i64 {
        None
    } else {
        Some(HexPosition { q: q as i32, r: r as i32, z: z as i32 })
    }
}

fn base_cost_of(t: TerrainType) -> (c: i64)
    ensures
        c == base_cost(t),
        1 <= c <= i32::MAX,
{
    match t {
        TerrainType::Plain => 1,
        TerrainType::Rough => 2,
        TerrainType::Sand => 2,
        TerrainType::Snow => 2,
        TerrainType::Water => 3,
        TerrainType::Swamp => 3,
        TerrainType::Wall => i32::MAX as i64,
        TerrainType::Lava => i32::MAX as i64,
    }
}

impl HexGrid {
    spec fn has_at(&self, p: HexPosition) -> bool {
        exists|i: int| 0 <= i < self.cells@.len() && self.cells@[i].position == p
    }

    spec fn index_of(&self, p: HexPosition) -> int {
        choose|i: int| 0 <= i < self.cells@.len() && self.cells@[i].position == p
    }

    /// Positions are unique, each cell's `z` is its elevation, every
    /// movement cost is positive, and `q` and `r` lie below the width and
    /// height and below `i32::MAX`.
    pub closed spec fn wf(&self) -> bool {
        &&& forall|i: int, j: int|
            0 <= i < j < self.cells@.len() ==> self.cells@[i].position != self.cells@[j].position
        &&& forall|i: int|
            #![trigger self.cells@[i]]
            0 <= i < self.cells@.len() ==> self.cells@[i].position.z == self.cells@[i].elevation
                && self.cells@[i].movement_cost >= 1 && self.cells@[i].position.q < i32::MAX
                && self.cells@[i].position.r < i32::MAX && self.cells@[i].position.q < self.width
                && self.cells@[i].position.r < self.height
    }

    proof fn lemma_view_at(&self, i: int)
        requires
            self.wf(),
            0 <= i < self.cells@.len(),
        ensures
            self@.cells.contains_key(self.cells@[i].position),
            self@.cells[self.cells@[i].position] == self.cells@[i],
    {
        let p = self.cells@[i].position;
        assert(self.has_at(p));
        let j = self.index_of(p);
        if j != i {
            assert(self.cells@[j].position == p);
        }
    }

    /// The first cell placed at one of `s`, in order.
    fn first_placed(&self, s: &Vec<HexPosition>) -> (r: Option<Cell>)
        requires
            self.wf(),
        ensures
            r == self@.first_present(s@, 0),
    {
        let mut i: usize = 0;
        while i < s.len()
            invariant
                self.wf(),
                i <= s@.len(),
                self@.first_present(s@, 0) == self@.first_present(s@, i as int),
            decreases s@.len() - i,
        {
            match self.get_cell(&s[i]) {
                Some(c) => {
                    return Some(*c);
                },
                None => {},
            }
            i = i + 1;
        }
        None
    }

    /// Places a cell, overwriting any cell at the same position. The
    /// position's `z` is set to `elevation`; the movement cost is the
    /// terrain's base cost plus twice the elevation difference to the first
    /// placed neighbour, where that difference exceeds one. The bounding
    /// rectangle grows to contain the position.
    pub fn add_cell(&mut self, position: HexPosition, terrain: TerrainType, elevation: i32)
        requires
            old(self).wf(),
            position.q < i32::MAX,
            position.r < i32::MAX,
        ensures
            final(self).wf(),
            final(self)@ == old(self)@.with_cell(position, terrain, elevation),
    {
        let p = HexPosition { q: position.q, r: position.r, z: elevation };
        let base = base_cost_of(terrain);
        let nbrs = self.get_neighbors(p);
        let penalty: i64 = match self.first_placed(&nbrs) {
            Some(c) => {
                let d = elevation as i64 - c.elevation as i64;
                let d = if d < 0 {
                    -d
                } else {
                    d
                };
                if d > 1 {
                    2 * d
                } else {
                    0
                }
            },
            None => 0,
        };
        let cost: i32 = if base + penalty > i32::MAX as i64 {
            i32::MAX
        } else {
            (base + penalty) as i32
        };
        assert(cost == self@.entry_cost(p, terrain));
        let cell = Cell { position: p, terrain, movement_cost: cost, elevation };
        let ghost old_grid = *self;
        let idx = self.find_index(&p);
        match idx {
            Some(i) => {
                self.cells.set(i, cell);
            },
            None => {
                self.cells.push(cell);
            },
        }
        if position.q + 1 > self.width {
            self.width = position.q + 1;
        }
        if position.r + 1 > self.height {
            self.height = position.r + 1;
        }
        proof {
            let n = self.cells@.len();
            assert forall|a: int, b: int| 0 <= a < b < n implies self.cells@[a].position
                != self.cells@[b].position by {
                if a < old_grid.cells@.len() && b < old_grid.cells@.len() {
                    if idx is Some {
                        let i = idx->Some_0 as int;
                        if a == i {
                            assert(old_grid.cells@[b].position != p);
                        } else if b == i {
                            assert(old_grid.cells@[a].position != p);
                        }
                    }
                } else {
                    assert(old_grid.has_at(p) == false) by {
                        if old_grid.has_at(p) {
                            assert(old_grid@.cells.contains_key(p));
                        }
                    };
                    assert(old_grid.cells@[a].position != p);
                }
            }
            assert forall|a: int| 0 <= a < n implies #[trigger] self.cells@[a].position.z == self.cells@[a].elevation
                && self.cells@[a].movement_cost >= 1 && self.cells@[a].position.q < i32::MAX
                && self.cells@[a].position.r < i32::MAX && self.cells@[a].position.q < self.width
                && self.cells@[a].position.r < self.height by {
                if a < old_grid.cells@.len() && !(idx == Some(a as usize)) {
                    assert(self.cells@[a] == old_grid.cells@[a]);
                }
            }
            assert(self.wf());
            let target = old_grid@.with_cell(position, terrain, elevation);
            assert forall|k: HexPosition| #[trigger] self@.cells.contains_key(k) <==> target.cells.contains_key(k) by {
                if k == p {
                    match idx {
                        Some(i) => {
                            assert(self.cells@[i as int].position == p);
                        },
                        None => {
                            assert(self.cells@[n - 1].position == p);
                        },
                    }
                    assert(self.has_at(k));
                } else if self.has_at(k) {
                    let j = self.index_of(k);
                    assert(old_grid.cells@[j].position == k);
                    assert(old_grid.has_at(k));
                } else if old_grid.has_at(k) {
                    let j = old_grid.index_of(k);
                    assert(self.cells@[j].position == k);
                }
            }
            assert forall|k: HexPosition| #[trigger] self@.cells.contains_key(k) implies self@.cells[k]
                == target.cells[k] by {
                let j = self.index_of(k);
                self.lemma_view_at(j);
                if k != p {
                    assert(old_grid.cells@[j] == self.cells@[j]);
                    old_grid.lemma_view_at(j);
                }
            }
            assert(self@.cells =~= target.cells);
        }
    }

    /// Takes out the cell at `position`, if any; the bounding rectangle stays.
    pub(crate) fn remove_cell(&mut self, position: &HexPosition)
        requires
            old(self).wf(),
        ensures
            final(self).wf(),
            final(self)@ == (GridModel {
                cells: old(self)@.cells.remove(*position),
                width: old(self)@.width,
                height: old(self)@.height,
            }),
    {
        let ghost before = *self;
        match self.find_index(position) {
            Some(i) => {
                self.cells.remove(i);
                proof {
                    let n = self.cells@.len();
                    assert forall|a: int, b: int| 0 <= a < b < n implies self.cells@[a].position
                        != self.cells@[b].position by {
                        let a0 = if a < i { a } else { a + 1 };
                        let b0 = if b < i { b } else { b + 1 };
                        assert(self.cells@[a] == before.cells@[a0]);
                        assert(self.cells@[b] == before.cells@[b0]);
                    }
                    assert forall|a: int| 0 <= a < n implies #[trigger] self.cells@[a].position.z == self.cells@[a].elevation
                        && self.cells@[a].movement_cost >= 1 && self.cells@[a].position.q < i32::MAX
                        && self.cells@[a].position.r < i32::MAX && self.cells@[a].position.q < self.width
                        && self.cells@[a].position.r < self.height by {
                        let a0 = if a < i { a } else { a + 1 };
                        assert(self.cells@[a] == before.cells@[a0]);
                    }
                    assert(self.wf());
                    let target = before@.cells.remove(*position);
                    assert forall|k: HexPosition| #[trigger] self@.cells.contains_key(k) <==> target.contains_key(k) by {
                        if self.has_at(k) {
                            let j = self.index_of(k);
                            let j0 = if j < i { j } else { j + 1 };
                            assert(before.cells@[j0].position == k);
                            assert(before.has_at(k));
                            if k == *position {
                                assert(j0 != i);
                            }
                        } else if before.has_at(k) && k != *position {
                            let j = before.index_of(k);
                            assert(j != i as int);
                            let j1 = if j < i { j } else { j - 1 };
                            assert(self.cells@[j1].position == k);
                        }
                    }
                    assert forall|k: HexPosition| #[trigger] self@.cells.contains_key(k) implies self@.cells[k]
                        == target[k] by {
                        let j = self.index_of(k);
                        self.lemma_view_at(j);
                        let j0 = if j < i { j } else { j + 1 };
                        assert(before.cells@[j0] == self.cells@[j]);
                        before.lemma_view_at(j0);
                    }
                    assert(self@.cells =~= target);
                }
            },
            None => {
                assert(self@.cells =~= before@.cells.remove(*position));
            },
        }
    }

    /// A well-formed grid has a consistent model.
    pub proof fn lemma_consistent(&self)
        requires
            self.wf(),
        ensures
            self@.consistent(),
    {
        assert forall|p: HexPosition| #[trigger] self@.cells.contains_key(p) implies self@.cells[p].position == p
            && self@.cells[p].elevation == p.z && self@.cells[p].movement_cost >= 1 && p.q < i32::MAX
            && p.r < i32::MAX && p.q < self@.width && p.r < self@.height by {
            assert(self.has_at(p));
            let i = self.index_of(p);
            self.lemma_view_at(i);
        }
    }

    pub fn new() -> (g: HexGrid)
        ensures
            g.wf(),
            g@.cells == Map::<HexPosition, Cell>::empty(),
            g@.width == 0,
            g@.height == 0,
    {
        let g = HexGrid { cells: Vec::new(), width: 0, height: 0 };
        assert(g@.cells =~= Map::<HexPosition, Cell>::empty());
        g
    }

    pub fn with_size(width: i32, height: i32) -> (g: HexGrid)
        ensures
            g.wf(),
            g@.cells == Map::<HexPosition, Cell>::empty(),
            g@.width == width,
            g@.height == height,
    {
        let g = HexGrid { cells: Vec::new(), width, height };
        assert(g@.cells =~= Map::<HexPosition, Cell>::empty());
        g
    }

    fn find_index(&self, p: &HexPosition) -> (r: Option<usize>)
        requires
            self.wf(),
        ensures
            match r {
                Some(i) => i < self.cells@.len() && self.cells@[i as int].position == *p,
                None => !self@.cells.contains_key(*p),
            },
    {
        let mut i: usize = 0;
        while i < self.cells.len()
            invariant
                i <= self.cells@.len(),
                forall|j: int| 0 <= j < i ==> self.cells@[j].position != *p,
            decreases self.cells@.len() - i,
        {
            if self.cells[i].position == *p {
                return Some(i);
            }
            i = i + 1;
        }
        proof {
            if self@.cells.contains_key(*p) {
                assert(self.has_at(*p));
            }
        }
        None
    }

    pub fn get_cell(&self, position: &HexPosition) -> (r: Option<&Cell>)
        requires
            self.wf(),
        ensures
            match r {
                Some(c) => self@.cells.contains_key(*position) && *c == self@.cells[*position],
                None => !self@.cells.contains_key(*position),
            },
    {
        match self.find_index(position) {
            Some(i) => {
                proof {
                    self.lemma_view_at(i as int);
                }
                Some(&self.cells[i])
            },
            None => None,
        }
    }

    /// The bounding rectangle `(width, height)`.
    pub fn get_size(&self) -> (s: (i32, i32))
        ensures
            s.0 == self@.width,
            s.1 == self@.height,
    {
        (self.width, self.height)
    }

    pub fn is_in_bounds(&self, position: &HexPosition) -> (b: bool)
        requires
            self.wf(),
        ensures
            b == self@.in_bounds(*position),
    {
        if position.q < 0 || position.q >= self.width || position.r < 0 || position.r >= self.height {
            return false;
        }
        match self.get_cell(position) {
            Some(cell) => match cell.terrain {
                TerrainType::Water => cell.elevation <= 0,
                TerrainType::Snow => cell.elevation >= 5,
                TerrainType::Lava => cell.elevation <= 2,
                _ => cell.elevation >= -10 && cell.elevation <= 15,
            },
            None => position.z >= -10 && position.z <= 15,
        }
    }

    /// The in-bounds neighbour candidates of `position`: six planar ones, then
    /// up and down.
    pub fn get_neighbors(&self, position: HexPosition) -> (r: Vec<HexPosition>)
        requires
            self.wf(),
        ensures
            r@ == self@.neighbors(position),
    {
        let mut out: Vec<HexPosition> = Vec::new();
        let mut k: usize = 0;
        while k < 8
            invariant
                self.wf(),
                k <= 8,
                out@ == self@.neighbors_upto(position, k as nat),
            decreases 8 - k,
        {
            match step_of(&position, k) {
                Some(n) => {
                    if self.is_in_bounds(&n) {
                        out.push(n);
                    }
                },
                None => {},
            }
            k = k + 1;
        }
        out
    }

    /// Every placed cell, each once, in insertion order of first placement.
    pub fn iter_cells(&self) -> (r: Vec<Cell>)
        requires
            self.wf(),
        ensures
            forall|i: int, j: int| 0 <= i < j < r@.len() ==> r@[i].position != r@[j].position,
            forall|c: Cell| #[trigger] r@.contains(c) <==> self@.cells.contains_key(c.position) && self@.cells[c.position] == c,
    {
        let mut out: Vec<Cell> = Vec::new();
        let mut i: usize = 0;
        while i < self.cells.len()
            invariant
                self.wf(),
                i <= self.cells@.len(),
                out@ == self.cells@.take(i as int),
            decreases self.cells@.len() - i,
        {
            out.push(self.cells[i]);
            i = i + 1;
            assert(out@ =~= self.cells@.take(i as int));
        }
        proof {
            assert(out@ =~= self.cells@);
            assert forall|c: Cell| #[trigger] out@.contains(c) <==> self@.cells.contains_key(c.position)
                && self@.cells[c.position] == c by {
                if out@.contains(c) {
                    let k = choose|k: int| 0 <= k < out@.len() && out@[k] == c;
                    self.lemma_view_at(k);
                }
                if self@.cells.contains_key(c.position) && self@.cells[c.position] == c {
                    assert(self.has_at(c.position));
                    let k = self.index_of(c.position);
                    self.lemma_view_at(k);
                    assert(out@[k] == c);
                }
            }
        }
        out
    }

    /// Where a step from `u` towards the candidate `n` lands, as `landing`.
    pub(crate) fn landing(&self, u: &HexPosition, n: &HexPosition) -> (r: Option<HexPosition>)
        requires
            self.wf(),
        ensures
            r == self@.landing(*u, *n),
    {
        if self.get_cell(n).is_some() && self.is_in_bounds(n) {
            return Some(*n);
        }
        if n.q == u.q && n.r == u.r {
            return None;
        }
        if n.z > i32::MIN {
            let below = HexPosition { q: n.q, r: n.r, z: n.z - 1 };
            if self.get_cell(&below).is_some() && self.is_in_bounds(&below) {
                return Some(below);
            }
        }
        if n.z < i32::MAX {
            let above = HexPosition { q: n.q, r: n.r, z: n.z + 1 };
            if self.get_cell(&above).is_some() && self.is_in_bounds(&above) {
                return Some(above);
            }
        }
        None
    }

    /// Distance between two positions, as `HexPosition::distance`.
    pub fn distance(&self, from: HexPosition, to: HexPosition) -> (d: i32)
        requires
            crate::position::hex_distance(from, to) <= i32::MAX,
        ensures
            d == crate::position::hex_distance(from, to),
    {
        from.distance(&to)
    }
}

pub(crate) proof fn lemma_neighbors_len(m: GridModel, p: HexPosition, k: nat)
    ensures
        m.neighbors_upto(p, k).len() <= k,
    decreases k,
{
    if k > 0 {
        lemma_neighbors_len(m, p, (k - 1) as nat);
    }
}

/// A set closed under steps holds every position of a path that starts in it.
pub(crate) proof fn lemma_path_stays_in(m: GridModel, s: Set<HexPosition>, path: Seq<HexPosition>, i: int)
    requires
        m.is_path(path),
        s.contains(path[0]),
        forall|u: HexPosition, v: HexPosition| #[trigger] s.contains(u) && #[trigger] m.is_edge(u, v) ==> s.contains(v),
        0 <= i < path.len(),
    ensures
        s.contains(path[i]),
    decreases i,
{
    if i > 0 {
        lemma_path_stays_in(m, s, path, i - 1);
        let k = i - 1;
        assert(m.is_edge(path[k], path[k + 1]));
    }
}

/// Every position of a path other than its ends is a placed cell that is
/// neither wall nor lava; so is every position of a path of two or more.
pub proof fn lemma_path_avoids_impassable(m: GridModel, path: Seq<HexPosition>)
    requires
        m.is_path(path),
        path.len() >= 2,
    ensures
        forall|i: int|
            #![trigger path[i]]
            0 <= i < path.len() ==> m.cells.contains_key(path[i]) && !impassable(m.cells[path[i]].terrain),
{
    assert forall|i: int| #![trigger path[i]] 0 <= i < path.len() implies m.cells.contains_key(path[i])
        && !impassable(m.cells[path[i]].terrain) by {
        if i < path.len() - 1 {
            assert(m.is_edge(path[i], path[i + 1]));
        } else {
            let k = i - 1;
            assert(m.is_edge(path[k], path[k + 1]));
        }
    }
}

impl HexGrid {
    /// Number of stored cells.
    pub(crate) closed spec fn cell_count(&self) -> nat {
        self.cells@.len()
    }

    pub(crate) fn cells_len(&self) -> (r: usize)
        ensures
            r == self.cell_count(),
    {
        self.cells.len()
    }

    pub(crate) proof fn lemma_closed_bound(&self, closed: Seq<HexPosition>, start: HexPosition)
        requires
            self.wf(),
            closed.no_duplicates(),
            forall|k: int| 0 <= k < closed.len() ==> closed[k] == start || self@.cells.contains_key(#[trigger] closed[k]),
        ensures
            closed.len() <= self.cell_count() + 1,
    {
        let cellpos = self.cells@.map_values(|c: Cell| c.position);
        let all = cellpos.to_set().insert(start);
        assert(closed.to_set().subset_of(all)) by {
            assert forall|p: HexPosition| closed.to_set().contains(p) implies all.contains(p) by {
                let k = choose|k: int| 0 <= k < closed.len() && closed[k] == p;
                assert(closed[k] == p);
                if p != start {
                    assert(self.has_at(p));
                    let i = choose|i: int| 0 <= i < self.cells@.len() && self.cells@[i].position == p;
                    assert(cellpos[i] == p);
                }
            }
        }
        cellpos.lemma_cardinality_of_set();
        closed.unique_seq_to_set();
        vstd::set_lib::lemma_len_subset(closed.to_set(), all);
    }

    pub(crate) proof fn lemma_weight_positive(&self, u: HexPosition, v: HexPosition)
        requires
            self.wf(),
            self@.is_edge(u, v),
        ensures
            1 <= self@.edge_weight(u, v) <= max_step(),
    {
        self.lemma_consistent();
        assert(self@.cells.contains_key(v));
    }
}

} // verus!
