use harmony::structure::Structure;
use harmony::template::{AlignmentRule, ElevationRequirement, GenerationRules, GrowthPattern, HexOffset, StructureTemplate};
use harmony::{HexGrid, HexPosition, TerrainType};

fn house(required: Option<TerrainType>, elevation: Option<ElevationRequirement>) -> StructureTemplate {
    StructureTemplate {
        name: "house".to_string(),
        structure_type: "building".to_string(),
        footprint: vec![
            HexOffset { q: 0, r: 0, terrain: TerrainType::Rough },
            HexOffset { q: 1, r: 0, terrain: TerrainType::Sand },
        ],
        required_terrain: required,
        elevation_requirements: elevation,
        tags: vec![],
        parent_template: None,
        variants: vec![],
        generation_rules: GenerationRules {
            min_spacing: 1,
            max_count: 4,
            alignment: AlignmentRule::Grid { spacing: 2 },
            growth_pattern: GrowthPattern::Outward,
        },
        connections: vec![],
        interior_layout: None,
    }
}

fn plain_row(n: i32, elevation: i32) -> HexGrid {
    let mut grid = HexGrid::new();
    for q in 0..n {
        grid.add_cell(HexPosition::new_2d(q, 0), TerrainType::Plain, elevation);
    }
    grid
}

#[test]
fn occupied_positions_follow_the_footprint() {
    let s = Structure::new(house(None, None), HexPosition::new(3, 4, 2));
    assert_eq!(s.occupied_positions.len(), 2);
    assert!(s.occupied_positions.contains(&HexPosition::new(3, 4, 2)));
    assert!(s.occupied_positions.contains(&HexPosition::new(4, 4, 2)));
}

#[test]
fn repeated_offsets_occupy_once() {
    let mut t = house(None, None);
    t.footprint.push(HexOffset { q: 0, r: 0, terrain: TerrainType::Plain });
    let s = Structure::new(t, HexPosition::new_2d(0, 0));
    assert_eq!(s.occupied_positions.len(), 2);
}

#[test]
fn placement_needs_every_cell() {
    let s = Structure::new(house(None, None), HexPosition::new_2d(0, 0));
    assert!(!s.can_place_at(&plain_row(1, 0)));
    assert!(s.can_place_at(&plain_row(2, 0)));
}

#[test]
fn placement_needs_the_required_terrain() {
    let s = Structure::new(house(Some(TerrainType::Plain), None), HexPosition::new_2d(0, 0));
    assert!(s.can_place_at(&plain_row(2, 0)));
    let mut grid = plain_row(2, 0);
    grid.add_cell(HexPosition::new_2d(1, 0), TerrainType::Rough, 0);
    assert!(!s.can_place_at(&grid));
    let other = Structure::new(house(Some(TerrainType::Water), None), HexPosition::new_2d(0, 0));
    assert!(!other.can_place_at(&plain_row(2, 0)));
}

#[test]
fn placement_checks_elevation_window() {
    let absolute = ElevationRequirement { min: 0, max: 2, relative_to_base: false };
    let s = Structure::new(house(None, Some(absolute)), HexPosition::new(0, 0, 3));
    assert!(!s.can_place_at(&plain_row(2, 3)));
    let s = Structure::new(house(None, Some(absolute)), HexPosition::new(0, 0, 2));
    assert!(s.can_place_at(&plain_row(2, 2)));
    let relative = ElevationRequirement { min: 0, max: 0, relative_to_base: true };
    let s = Structure::new(house(None, Some(relative)), HexPosition::new(0, 0, 3));
    assert!(s.can_place_at(&plain_row(2, 3)));
}

#[test]
fn applying_lays_terrain_and_keeps_elevation() {
    let s = Structure::new(house(None, None), HexPosition::new(0, 0, 1));
    let mut grid = plain_row(1, 1);
    s.apply_to_grid(&mut grid);
    let c = grid.get_cell(&HexPosition::new(0, 0, 1)).unwrap();
    assert_eq!(c.terrain, TerrainType::Rough);
    assert_eq!(c.elevation, 1);
    assert!(grid.get_cell(&HexPosition::new(1, 0, 1)).is_none());
    assert_eq!(grid.iter_cells().len(), 1);
}

#[test]
fn placement_needs_cells_at_the_base_level() {
    let s = Structure::new(house(None, None), HexPosition::new(0, 0, 3));
    assert!(!s.can_place_at(&plain_row(2, 0)));
}

#[test]
fn applying_leaves_cells_at_other_levels() {
    let s = Structure::new(house(None, None), HexPosition::new(0, 0, 3));
    let mut grid = plain_row(2, 0);
    s.apply_to_grid(&mut grid);
    for c in grid.iter_cells() {
        assert_eq!(c.terrain, TerrainType::Plain);
        assert_eq!(c.elevation, 0);
    }
}
