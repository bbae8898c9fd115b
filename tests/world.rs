use harmony::grid::Cell;
use harmony::map::{generate_world_map, ChunkPosition, MapChunk, Placement};
use harmony::{BiomeType, HexPosition, MapGenerator, TerrainType, WorldMap};

fn snapshot(chunk: &MapChunk) -> (Vec<Cell>, Vec<Placement>, BiomeType, ChunkPosition) {
    (chunk.grid.iter_cells(), chunk.structures.clone(), chunk.biome, chunk.position)
}

#[test]
fn chunk_has_every_cell_of_its_area() {
    let mut world = WorldMap::with_seed(5, 7);
    let chunk = world.get_or_generate_chunk(ChunkPosition { x: 1, y: -1 });
    let cells = chunk.grid.iter_cells();
    assert_eq!(cells.len(), 25);
    for q in 5..10 {
        for r in -5..0 {
            assert!(cells.iter().any(|c| c.position.q == q && c.position.r == r));
        }
    }
    for c in &cells {
        assert_eq!(c.position.z, c.elevation);
        let (terrains, low, high): (&[TerrainType], i32, i32) = match chunk.biome {
            BiomeType::Forest => (&[TerrainType::Plain, TerrainType::Rough], 1, 4),
            BiomeType::Mountain => (&[TerrainType::Rough, TerrainType::Wall], 5, 14),
            BiomeType::Plains => (&[TerrainType::Plain], 0, 2),
            BiomeType::Desert => (&[TerrainType::Plain, TerrainType::Rough], 0, 1),
            BiomeType::Ocean => (&[TerrainType::Water], -1, -1),
            BiomeType::Tundra => (&[TerrainType::Plain, TerrainType::Rough], 2, 6),
        };
        assert!(terrains.contains(&c.terrain));
        assert!(c.elevation >= low && c.elevation <= high);
    }
    for s in &chunk.structures {
        assert_eq!(s.position.z, 0);
    }
}

#[test]
fn second_request_returns_the_cached_chunk_and_draws_nothing() {
    let pos = ChunkPosition { x: 0, y: 0 };
    let other = ChunkPosition { x: 2, y: 3 };

    let mut twice = WorldMap::with_seed(6, 99);
    let first = snapshot(twice.get_or_generate_chunk(pos));
    let second = snapshot(twice.get_or_generate_chunk(pos));
    assert_eq!(first, second);
    let after_twice = snapshot(twice.get_or_generate_chunk(other));

    let mut once = WorldMap::with_seed(6, 99);
    once.get_or_generate_chunk(pos);
    let after_once = snapshot(once.get_or_generate_chunk(other));
    assert_eq!(after_twice, after_once);
}

#[test]
fn same_seed_same_requests_same_chunks() {
    let requests = [
        ChunkPosition { x: 0, y: 0 },
        ChunkPosition { x: -1, y: 2 },
        ChunkPosition { x: 0, y: 0 },
        ChunkPosition { x: 3, y: 1 },
    ];
    let mut a = WorldMap::with_seed(4, 2024);
    let mut b = WorldMap::with_seed(4, 2024);
    for p in requests.iter() {
        assert_eq!(snapshot(a.get_or_generate_chunk(*p)), snapshot(b.get_or_generate_chunk(*p)));
    }
}

#[test]
fn get_chunk_sees_only_generated_chunks() {
    let mut world = WorldMap::with_seed(3, 1);
    assert!(world.get_chunk(&ChunkPosition { x: 0, y: 0 }).is_none());
    world.get_or_generate_chunk(ChunkPosition { x: 0, y: 0 });
    assert!(world.get_chunk(&ChunkPosition { x: 0, y: 0 }).is_some());
    assert!(world.get_chunk(&ChunkPosition { x: 1, y: 0 }).is_none());
}

#[test]
fn chunk_of_a_hex_rounds_down() {
    let world = WorldMap::with_seed(4, 0);
    assert_eq!(world.get_chunk_position_for_hex(&HexPosition::new_2d(-1, 5)), ChunkPosition { x: -1, y: 1 });
    assert_eq!(world.get_chunk_position_for_hex(&HexPosition::new_2d(4, 3)), ChunkPosition { x: 1, y: 0 });
    assert_eq!(world.get_chunk_position_for_hex(&HexPosition::new_2d(-4, -5)), ChunkPosition { x: -1, y: -2 });
}

#[test]
fn world_map_of_a_square_of_chunks() {
    let mut world = WorldMap::with_seed(3, 5);
    generate_world_map(&mut world, 2);
    for x in 0..2 {
        for y in 0..2 {
            let chunk = world.get_chunk(&ChunkPosition { x, y }).unwrap();
            assert_eq!(chunk.position, ChunkPosition { x, y });
            assert_eq!(chunk.grid.iter_cells().len(), 9);
        }
    }
    assert!(world.get_chunk(&ChunkPosition { x: 2, y: 0 }).is_none());
}

#[test]
fn template_maps_by_name() {
    let mut generator = MapGenerator::with_seed(11);
    assert!(generator.generate_map("castle").is_none());
    let town = generator.generate_map("town").unwrap();
    assert_eq!(town.grid.iter_cells().len(), 400);
    assert_eq!(town.biome, BiomeType::Plains);
    assert_eq!(town.position, ChunkPosition { x: 0, y: 0 });
    assert_eq!(town.grid.get_size(), (20, 20));
    for c in town.grid.iter_cells() {
        assert!(c.terrain == TerrainType::Plain || c.terrain == TerrainType::Rough);
        assert!(c.elevation >= 0 && c.elevation < 5);
    }
    let forest = generator.generate_map("forest").unwrap();
    assert_eq!(forest.grid.iter_cells().len(), 900);
}

#[test]
fn template_maps_repeat_with_the_seed() {
    let mut a = MapGenerator::with_seed(8);
    let mut b = MapGenerator::with_seed(8);
    let ma = a.generate_map("forest").unwrap();
    let mb = b.generate_map("forest").unwrap();
    assert_eq!(snapshot(&ma), snapshot(&mb));
    assert!(ma.structures.len() < 900);
}
