use vstd::prelude::*;

use crate::grid::{fits_i32, GridModel, HexGrid, TerrainType};
use crate::position::{contains_position, HexPosition};
use crate::template::{ElevationRequirement, HexOffset, StructureTemplate};

verus! {

/// A structure template anchored at a base position, with the positions its
/// footprint covers there.
#[derive(Debug)]
pub struct Structure {
    pub template: StructureTemplate,
    pub base_position: HexPosition,
    pub occupied_positions: Vec<HexPosition>,
}

/// The offset's position lies within `i32`.
pub open spec fn offset_fits(base: HexPosition, o: HexOffset) -> bool {
    fits_i32(base.q + o.q) && fits_i32(base.r + o.r)
}

pub open spec fn footprint_fits(base: HexPosition, fp: Seq<HexOffset>) -> bool {
    forall|i: int| 0 <= i < fp.len() ==> offset_fits(base, #[trigger] fp[i])
}

/// The base position moved by the offset, at the base's level.
pub open spec fn offset_position(base: HexPosition, o: HexOffset) -> HexPosition {
    HexPosition { q: (base.q + o.q) as i32, r: (base.r + o.r) as i32, z: base.z }
}

/// A cell at exactly `p` that meets the terrain requirement and whose
/// elevation, less the reference (the base cell's elevation where the
/// requirement is relative and that cell exists, else zero), is within the
/// elevation requirement.
pub open spec fn cell_fits(
    required: Option<TerrainType>,
    elevation: Option<ElevationRequirement>,
    base: HexPosition,
    m: GridModel,
    p: HexPosition,
) -> bool {
    &&& m.cells.contains_key(p)
    &&& match required {
        Some(t) => m.cells[p].terrain == t,
        None => true,
    }
    &&& match elevation {
        Some(e) => {
            let reference = if e.relative_to_base && m.cells.contains_key(base) {
                m.cells[base].elevation as int
            } else {
                0
            };
            e.min <= m.cells[p].elevation - reference <= e.max
        },
        None => true,
    }
}

/// The grid after laying the terrain of `fp[..n]`, in order, on those of its
/// positions that hold a cell; elevations stay.
pub open spec fn apply_footprint(m: GridModel, base: HexPosition, fp: Seq<HexOffset>, n: nat) -> GridModel
    decreases n,
{
    if n == 0 || n > fp.len() {
        m
    } else {
        let prev = apply_footprint(m, base, fp, (n - 1) as nat);
        let p = offset_position(base, fp[n - 1]);
        if prev.cells.contains_key(p) {
            prev.with_cell(p, fp[n - 1].terrain, prev.cells[p].elevation)
        } else {
            prev
        }
    }
}

impl Structure {
    /// Every occupied position holds a cell that meets the template's
    /// requirements.
    pub open spec fn fits(&self, m: GridModel) -> bool {
        forall|i: int|
            0 <= i < self.occupied_positions@.len() ==> cell_fits(
                self.template.required_terrain,
                self.template.elevation_requirements,
                self.base_position,
                m,
                #[trigger] self.occupied_positions@[i],
            )
    }

    /// Anchors `template` at `base_position`; the occupied positions are the
    /// footprint offsets applied to the base, each once.
    pub fn new(template: StructureTemplate, base_position: HexPosition) -> (s: Structure)
        requires
            footprint_fits(base_position, template.footprint@),
        ensures
            s.template == template,
            s.base_position == base_position,
            s.occupied_positions@.no_duplicates(),
            forall|p: HexPosition|
                s.occupied_positions@.contains(p) <==> exists|i: int|
                    0 <= i < template.footprint@.len() && p == offset_position(base_position, #[trigger] template.footprint@[i]),
    {
        let mut occupied: Vec<HexPosition> = Vec::new();
        let mut i: usize = 0;
        while i < template.footprint.len()
            invariant
                i <= template.footprint@.len(),
                footprint_fits(base_position, template.footprint@),
                occupied@.no_duplicates(),
                forall|p: HexPosition|
                    occupied@.contains(p) <==> exists|j: int|
                        0 <= j < i && p == offset_position(base_position, #[trigger] template.footprint@[j]),
            decreases template.footprint@.len() - i,
        {
            let offset = template.footprint[i];
            assert(offset_fits(base_position, template.footprint@[i as int]));
            let pos = HexPosition::new(base_position.q + offset.q, base_position.r + offset.r, base_position.z);
            let ghost before = occupied@;
            if !contains_position(&occupied, &pos) {
                occupied.push(pos);
                proof {
                    assert forall|a: int, b: int| 0 <= a < occupied@.len() && 0 <= b < occupied@.len() && a != b implies occupied@[a]
                        != occupied@[b] by {
                        if a < before.len() && b < before.len() {
                        } else if a < before.len() {
                            assert(before.contains(before[a]));
                        } else {
                            assert(before.contains(before[b]));
                        }
                    }
                }
            }
            proof {
                assert forall|p: HexPosition| occupied@.contains(p) <==> exists|j: int|
                    0 <= j < i + 1 && p == offset_position(base_position, #[trigger] template.footprint@[j]) by {
                    if occupied@.contains(p) && p != pos {
                        let k = choose|k: int| 0 <= k < occupied@.len() && occupied@[k] == p;
                        if k < before.len() {
                            assert(before[k] == p);
                            assert(before.contains(p));
                        } else {
                            assert(occupied@[k] == pos);
                        }
                    }
                    if p == pos {
                        assert(p == offset_position(base_position, template.footprint@[i as int]));
                        if !before.contains(pos) {
                            assert(occupied@[before.len() as int] == pos);
                        } else {
                            let k = choose|k: int| 0 <= k < before.len() && before[k] == pos;
                            assert(occupied@[k] == pos);
                        }
                    } else if exists|j: int| 0 <= j < i + 1 && p == offset_position(base_position, #[trigger] template.footprint@[j]) {
                        let j = choose|j: int| 0 <= j < i + 1 && p == offset_position(base_position, #[trigger] template.footprint@[j]);
                        assert(j < i);
                        assert(before.contains(p));
                        let k = choose|k: int| 0 <= k < before.len() && before[k] == p;
                        assert(occupied@[k] == p);
                    }
                }
            }
            i = i + 1;
        }
        Structure { template, base_position, occupied_positions: occupied }
    }

    /// Whether the structure can stand on `grid`: every occupied position
    /// holds a cell that meets the template's terrain and elevation
    /// requirements.
    pub fn can_place_at(&self, grid: &HexGrid) -> (b: bool)
        requires
            grid.wf(),
        ensures
            b == self.fits(grid@),
    {
        let mut i: usize = 0;
        while i < self.occupied_positions.len()
            invariant
                grid.wf(),
                i <= self.occupied_positions@.len(),
                forall|j: int|
                    0 <= j < i ==> cell_fits(
                        self.template.required_terrain,
                        self.template.elevation_requirements,
                        self.base_position,
                        grid@,
                        #[trigger] self.occupied_positions@[j],
                    ),
            decreases self.occupied_positions@.len() - i,
        {
            let pos = self.occupied_positions[i];
            let cell = match grid.get_cell(&pos) {
                Some(c) => *c,
                None => return false,
            };
            match self.template.required_terrain {
                Some(t) => {
                    if cell.terrain != t {
                        return false;
                    }
                },
                None => {},
            }
            match self.template.elevation_requirements {
                Some(req) => {
                    let reference: i64 = if req.relative_to_base {
                        match grid.get_cell(&self.base_position) {
                            Some(c) => c.elevation as i64,
                            None => 0,
                        }
                    } else {
                        0
                    };
                    let target = cell.elevation as i64 - reference;
                    if target < req.min as i64 || target > req.max as i64 {
                        return false;
                    }
                },
                None => {},
            }
            i = i + 1;
        }
        true
    }

    /// Lays each footprint offset's terrain on the cell at its position, where
    /// there is one, keeping that cell's elevation.
    pub fn apply_to_grid(&self, grid: &mut HexGrid)
        requires
            old(grid).wf(),
            footprint_fits(self.base_position, self.template.footprint@),
        ensures
            final(grid).wf(),
            final(grid)@ == apply_footprint(
                old(grid)@,
                self.base_position,
                self.template.footprint@,
                self.template.footprint@.len(),
            ),
    {
        let ghost m0 = grid@;
        let mut i: usize = 0;
        while i < self.template.footprint.len()
            invariant
                grid.wf(),
                i <= self.template.footprint@.len(),
                footprint_fits(self.base_position, self.template.footprint@),
                grid@ == apply_footprint(m0, self.base_position, self.template.footprint@, i as nat),
            decreases self.template.footprint@.len() - i,
        {
            let offset = self.template.footprint[i];
            assert(offset_fits(self.base_position, self.template.footprint@[i as int]));
            let pos = HexPosition::new(
                self.base_position.q + offset.q,
                self.base_position.r + offset.r,
                self.base_position.z,
            );
            match grid.get_cell(&pos) {
                Some(c) => {
                    let e = c.elevation;
                    proof {
                        grid.lemma_consistent();
                        assert(grid@.cells.contains_key(pos));
                    }
                    grid.add_cell(pos, offset.terrain, e);
                },
                None => {},
            }
            i = i + 1;
        }
    }
}

/// Placement fails where some occupied position holds no cell, or holds a
/// cell whose terrain differs from a required terrain.
pub proof fn lemma_placement_needs_matching_cells(s: Structure, m: GridModel, i: int)
    requires
        0 <= i < s.occupied_positions@.len(),
        !m.cells.contains_key(s.occupied_positions@[i]) || (s.template.required_terrain is Some
            && m.cells[s.occupied_positions@[i]].terrain != s.template.required_terrain->Some_0),
    ensures
        !s.fits(m),
{
    assert(!cell_fits(
        s.template.required_terrain,
        s.template.elevation_requirements,
        s.base_position,
        m,
        s.occupied_positions@[i],
    ));
}

} // verus!
