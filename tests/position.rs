use harmony::{HexGrid, HexPosition};

#[test]
fn test_hex_position() {
    let pos = HexPosition::new_2d(0, 0);
    assert_eq!(pos.q, 0);
    assert_eq!(pos.r, 0);
    assert_eq!(pos.z, 0);

    let pos3d = HexPosition::new(1, 2, 3);
    assert_eq!(pos3d.q, 1);
    assert_eq!(pos3d.r, 2);
    assert_eq!(pos3d.z, 3);
}

#[test]
fn lib_test_hex_distance() {
    let pos1 = HexPosition::new(0, 0, 0);
    let pos2 = HexPosition::new(1, 1, 2);
    assert_eq!(pos1.distance(&pos2), 4);
}

#[test]
fn grid_test_hex_distance() {
    let grid = HexGrid::new();
    let pos1 = HexPosition::new(0, 0, 0);
    let pos2 = HexPosition::new(1, 1, 2);
    assert_eq!(grid.distance(pos1, pos2), 4);
}

#[test]
fn distance_to_self_is_zero_and_symmetric() {
    let a = HexPosition::new(3, -7, 2);
    let b = HexPosition::new(-4, 5, -1);
    assert_eq!(a.distance(&a), 0);
    assert_eq!(a.distance(&b), b.distance(&a));
    // planar: |dx| = 7, |dz| = 12, |dy| = |(4) - (-1)| = 5 -> 24 / 2 = 12; vertical 3
    assert_eq!(a.distance(&b), 15);
}

#[test]
fn distance_planar_neighbour_is_one() {
    let a = HexPosition::new_2d(0, 0);
    assert_eq!(a.distance(&HexPosition::new_2d(1, -1)), 1);
    assert_eq!(a.distance(&HexPosition::new_2d(-1, 1)), 1);
    assert_eq!(a.distance(&HexPosition::new_2d(2, 2)), 4);
}

#[test]
fn cube_coordinates_sum_to_zero() {
    let p = HexPosition::new(2, -5, 9);
    assert_eq!(p.cube_coords(), (2, 3, -5));
}
