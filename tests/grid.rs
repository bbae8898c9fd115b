use harmony::grid::Cell;
use harmony::{HexGrid, HexPosition, TerrainType};

fn cell(grid: &HexGrid, q: i32, r: i32, z: i32) -> Option<Cell> {
    grid.get_cell(&HexPosition::new(q, r, z)).copied()
}

#[test]
fn add_cell_sets_level_cost_and_size() {
    let mut grid = HexGrid::new();
    grid.add_cell(HexPosition::new(2, 1, 9), TerrainType::Water, -1);
    let c = cell(&grid, 2, 1, -1).unwrap();
    assert_eq!(c.position, HexPosition::new(2, 1, -1));
    assert_eq!(c.elevation, -1);
    assert_eq!(c.movement_cost, 3);
    assert!(cell(&grid, 2, 1, 9).is_none());
    assert_eq!(grid.get_size(), (3, 2));
}

#[test]
fn base_costs_by_terrain() {
    let cases = [
        (TerrainType::Plain, 1),
        (TerrainType::Rough, 2),
        (TerrainType::Water, 3),
        (TerrainType::Wall, i32::MAX),
        (TerrainType::Sand, 2),
        (TerrainType::Snow, 2),
        (TerrainType::Swamp, 3),
        (TerrainType::Lava, i32::MAX),
    ];
    for (i, (terrain, cost)) in cases.iter().enumerate() {
        let mut grid = HexGrid::new();
        grid.add_cell(HexPosition::new_2d(i as i32 * 5, 0), *terrain, 0);
        assert_eq!(cell(&grid, i as i32 * 5, 0, 0).unwrap().movement_cost, *cost);
    }
}

#[test]
fn add_cell_overwrites_and_size_never_shrinks() {
    let mut grid = HexGrid::with_size(10, 10);
    grid.add_cell(HexPosition::new_2d(1, 1), TerrainType::Plain, 0);
    grid.add_cell(HexPosition::new_2d(1, 1), TerrainType::Rough, 0);
    assert_eq!(cell(&grid, 1, 1, 0).unwrap().terrain, TerrainType::Rough);
    assert_eq!(grid.iter_cells().len(), 1);
    assert_eq!(grid.get_size(), (10, 10));
}

#[test]
fn bounds_follow_terrain_windows() {
    let mut grid = HexGrid::new();
    grid.add_cell(HexPosition::new_2d(0, 0), TerrainType::Water, 1);
    grid.add_cell(HexPosition::new_2d(1, 0), TerrainType::Snow, 4);
    grid.add_cell(HexPosition::new_2d(2, 0), TerrainType::Lava, 2);
    grid.add_cell(HexPosition::new_2d(3, 0), TerrainType::Plain, 15);
    assert!(!grid.is_in_bounds(&HexPosition::new(0, 0, 1)));
    assert!(!grid.is_in_bounds(&HexPosition::new(1, 0, 4)));
    assert!(grid.is_in_bounds(&HexPosition::new(2, 0, 2)));
    assert!(grid.is_in_bounds(&HexPosition::new(3, 0, 15)));
    grid.add_cell(HexPosition::new_2d(5, 0), TerrainType::Plain, 0);
    assert!(grid.is_in_bounds(&HexPosition::new(4, 0, -10)));
    assert!(grid.is_in_bounds(&HexPosition::new(4, 0, 15)));
    assert!(!grid.is_in_bounds(&HexPosition::new(4, 0, 16)));
    assert!(!grid.is_in_bounds(&HexPosition::new(4, 0, -11)));
    assert!(!grid.is_in_bounds(&HexPosition::new(6, 0, 0)));
    assert!(!grid.is_in_bounds(&HexPosition::new(-1, 0, 0)));
}

#[test]
fn neighbours_in_enumeration_order() {
    let grid = HexGrid::with_size(3, 3);
    let n = grid.get_neighbors(HexPosition::new(1, 1, 0));
    assert_eq!(
        n,
        vec![
            HexPosition::new(2, 1, 0),
            HexPosition::new(2, 0, 0),
            HexPosition::new(1, 0, 0),
            HexPosition::new(0, 1, 0),
            HexPosition::new(0, 2, 0),
            HexPosition::new(1, 2, 0),
            HexPosition::new(1, 1, 1),
            HexPosition::new(1, 1, -1),
        ]
    );
    let corner = grid.get_neighbors(HexPosition::new(0, 0, 15));
    assert_eq!(corner, vec![HexPosition::new(1, 0, 15), HexPosition::new(0, 1, 15), HexPosition::new(0, 0, 14)]);
}

fn row(terrains: &[TerrainType]) -> HexGrid {
    let mut grid = HexGrid::new();
    for (q, t) in terrains.iter().enumerate() {
        grid.add_cell(HexPosition::new_2d(q as i32, 0), *t, 0);
    }
    grid
}

#[test]
fn path_along_a_row_and_its_cost() {
    let grid = row(&[TerrainType::Plain, TerrainType::Rough, TerrainType::Plain]);
    let (path, cost) = grid.find_path_with_cost(HexPosition::new_2d(0, 0), HexPosition::new_2d(2, 0)).unwrap();
    assert_eq!(path, vec![HexPosition::new_2d(0, 0), HexPosition::new_2d(1, 0), HexPosition::new_2d(2, 0)]);
    assert_eq!(cost, 3);
    assert_eq!(grid.find_path(HexPosition::new_2d(0, 0), HexPosition::new_2d(2, 0)).unwrap(), path);
}

#[test]
fn path_to_itself_is_one_node() {
    let grid = row(&[TerrainType::Plain]);
    let (path, cost) = grid.find_path_with_cost(HexPosition::new_2d(0, 0), HexPosition::new_2d(0, 0)).unwrap();
    assert_eq!(path, vec![HexPosition::new_2d(0, 0)]);
    assert_eq!(cost, 0);
}

#[test]
fn wall_and_lava_block_the_way() {
    let walled = row(&[TerrainType::Plain, TerrainType::Wall, TerrainType::Plain]);
    assert!(walled.find_path(HexPosition::new_2d(0, 0), HexPosition::new_2d(2, 0)).is_none());
    let lava = row(&[TerrainType::Plain, TerrainType::Lava, TerrainType::Plain]);
    assert!(lava.find_path(HexPosition::new_2d(0, 0), HexPosition::new_2d(2, 0)).is_none());
}

#[test]
fn path_goes_around_a_wall() {
    let mut grid = HexGrid::new();
    for q in 0..3 {
        for r in 0..2 {
            let t = if q == 1 && r == 0 { TerrainType::Wall } else { TerrainType::Plain };
            grid.add_cell(HexPosition::new_2d(q, r), t, 0);
        }
    }
    let path = grid.find_path(HexPosition::new_2d(0, 0), HexPosition::new_2d(2, 0)).unwrap();
    assert_eq!(path.first(), Some(&HexPosition::new_2d(0, 0)));
    assert_eq!(path.last(), Some(&HexPosition::new_2d(2, 0)));
    for p in &path {
        let t = grid.get_cell(p).unwrap().terrain;
        assert!(t != TerrainType::Wall && t != TerrainType::Lava);
    }
    let (_, cost) = grid.find_path_with_cost(HexPosition::new_2d(0, 0), HexPosition::new_2d(2, 0)).unwrap();
    assert_eq!(cost, (path.len() - 1) as i128);
}

#[test]
fn out_of_bounds_end_gives_none() {
    let grid = row(&[TerrainType::Plain, TerrainType::Plain]);
    assert!(grid.find_path(HexPosition::new_2d(0, 0), HexPosition::new_2d(5, 0)).is_none());
    assert!(grid.find_path(HexPosition::new_2d(-1, 0), HexPosition::new_2d(1, 0)).is_none());
}

#[test]
fn water_east_one_level_lower_costs_five() {
    // A plain cell at (0, 0), level 0, and a water cell one level lower on
    // its east neighbour: the step costs 3 for the water plus a climb of 1
    // doubled beside water.
    let mut grid = HexGrid::new();
    grid.add_cell(HexPosition::new_2d(0, 0), TerrainType::Plain, 0);
    grid.add_cell(HexPosition::new_2d(1, 0), TerrainType::Water, -1);
    assert_eq!(cell(&grid, 1, 0, -1).unwrap().movement_cost, 3);
    let path = grid.find_path(HexPosition::new(0, 0, 0), HexPosition::new(1, 0, -1)).unwrap();
    assert_eq!(path, vec![HexPosition::new(0, 0, 0), HexPosition::new(1, 0, -1)]);
    let (_, cost) = grid.find_path_with_cost(HexPosition::new(0, 0, 0), HexPosition::new(1, 0, -1)).unwrap();
    assert_eq!(cost, 5);
}

#[test]
fn levels_of_a_hex_are_kept_apart() {
    let mut grid = HexGrid::new();
    grid.add_cell(HexPosition::new_2d(0, 0), TerrainType::Plain, 0);
    grid.add_cell(HexPosition::new_2d(0, 0), TerrainType::Sand, 4);
    assert_eq!(grid.iter_cells().len(), 2);
    assert_eq!(cell(&grid, 0, 0, 0).unwrap().terrain, TerrainType::Plain);
    assert_eq!(cell(&grid, 0, 0, 4).unwrap().terrain, TerrainType::Sand);
    grid.add_cell(HexPosition::new(0, 0, 7), TerrainType::Rough, 4);
    assert_eq!(grid.iter_cells().len(), 2);
    assert_eq!(cell(&grid, 0, 0, 4).unwrap().terrain, TerrainType::Rough);
    assert_eq!(cell(&grid, 0, 0, 0).unwrap().terrain, TerrainType::Plain);
}

#[test]
fn bounds_use_the_cell_at_exactly_the_position() {
    let mut grid = HexGrid::new();
    grid.add_cell(HexPosition::new_2d(0, 0), TerrainType::Snow, 3);
    assert!(!grid.is_in_bounds(&HexPosition::new(0, 0, 3)));
    assert!(grid.is_in_bounds(&HexPosition::new(0, 0, 0)));
    assert!(!grid.is_in_bounds(&HexPosition::new(1, 0, 0)));
}

#[test]
fn neighbours_are_sampled_at_the_same_position() {
    let mut grid = HexGrid::new();
    grid.add_cell(HexPosition::new_2d(0, 0), TerrainType::Plain, 0);
    grid.add_cell(HexPosition::new_2d(1, 0), TerrainType::Plain, 3);
    // no cell stands at (0, 0, 3), (1, 0, 4) or (1, 0, 2): base cost only
    assert_eq!(cell(&grid, 1, 0, 3).unwrap().movement_cost, 1);
}

#[test]
fn water_back_up_to_the_plain() {
    let mut grid = HexGrid::new();
    grid.add_cell(HexPosition::new_2d(0, 0), TerrainType::Plain, 0);
    grid.add_cell(HexPosition::new_2d(1, 0), TerrainType::Water, -1);
    let (path, cost) = grid.find_path_with_cost(HexPosition::new(1, 0, -1), HexPosition::new(0, 0, 0)).unwrap();
    assert_eq!(path, vec![HexPosition::new(1, 0, -1), HexPosition::new(0, 0, 0)]);
    // plain cost 1 plus a climb of 1 doubled beside water
    assert_eq!(cost, 3);
}

#[test]
fn two_levels_apart_is_no_step() {
    let mut grid = HexGrid::new();
    grid.add_cell(HexPosition::new_2d(0, 0), TerrainType::Plain, 0);
    grid.add_cell(HexPosition::new_2d(1, 0), TerrainType::Plain, 2);
    assert!(grid.find_path(HexPosition::new(0, 0, 0), HexPosition::new(1, 0, 2)).is_none());
}

#[test]
fn rough_climb_is_one_and_a_half_rounded_down() {
    let mut grid = HexGrid::new();
    grid.add_cell(HexPosition::new_2d(0, 0), TerrainType::Plain, 0);
    grid.add_cell(HexPosition::new_2d(1, 0), TerrainType::Rough, 1);
    let (_, cost) = grid.find_path_with_cost(HexPosition::new(0, 0, 0), HexPosition::new(1, 0, 1)).unwrap();
    // rough cost 2 + floor(1 * 1.5) = 3
    assert_eq!(cost, 3);
}

#[test]
fn snow_climb_is_doubled() {
    let mut grid = HexGrid::new();
    grid.add_cell(HexPosition::new_2d(0, 0), TerrainType::Snow, 6);
    grid.add_cell(HexPosition::new_2d(1, 0), TerrainType::Snow, 5);
    let (_, cost) = grid.find_path_with_cost(HexPosition::new(0, 0, 6), HexPosition::new(1, 0, 5)).unwrap();
    assert_eq!(cost, 2 + 2);
}
