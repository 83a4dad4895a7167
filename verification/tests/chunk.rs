use noise::{Fbm, NoiseFn, Perlin, Seedable};
use pixel_pal::chunk::{generate_chunk, generate_column, generate_tile, tile_art, first_tile_of, TileArt};
use pixel_pal::chunk_map::{ChunkMap, ChunkState};
use pixel_pal::error::TileError;
use pixel_pal::layers::LayerTable;
use pixel_pal::lifecycle::{create_chunk_tasks, fetch_chunk_tasks, StreamConfig};
use pixel_pal::mask::{adjust_to_water_level, EAST, NORTH, NORTH_EAST, SOUTH_EAST};
use pixel_pal::noise::TiledNoise;
use pixel_pal::position::{ChunkLayout, GridPos};
use pixel_pal::tile::{CornerTable, LevelArt, TileSet, VariantTable};

fn grass() -> Vec<(u32, u32)> {
    vec![(0, 55), (15, 56), (30, 57), (45, 58), (50, 59), (55, 60), (60, 66), (75, 67), (90, 68),
        (95, 69), (97, 70), (99, 71), (100, 12)]
}

fn soil() -> Vec<(u32, u32)> {
    vec![(0, 55), (15, 56), (30, 57), (45, 58), (48, 59), (52, 66), (67, 67), (82, 68), (97, 69),
        (100, 70), (104, 12)]
}

fn corner_pairs() -> Vec<(u32, u32)> {
    vec![
        (0b111_1_0_100, 0),
        (0b110_1_0_100, 0),
        (0b111_1_0_000, 0),
        (0b110_1_0_000, 0),
        (0b011_1_0_100, 0),
        (0b010_1_0_100, 0),
        (0b011_1_0_000, 0),
        (0b010_1_0_000, 0),
        (0b111_0_0_000, 1),
        (0b110_0_0_000, 1),
        (0b011_0_0_000, 1),
        (0b010_0_0_000, 1),
        (0b111_0_1_001, 2),
        (0b011_0_1_001, 2),
        (0b111_0_1_000, 2),
        (0b011_0_1_000, 2),
        (0b110_0_1_001, 2),
        (0b010_0_1_001, 2),
        (0b110_0_1_000, 2),
        (0b010_0_1_000, 2),
        (0b111_1_1_101, 3),
        (0b110_1_1_101, 3),
        (0b011_1_1_101, 3),
        (0b010_1_1_101, 3),
        (0b111_1_1_100, 3),
        (0b110_1_1_100, 3),
        (0b011_1_1_100, 3),
        (0b010_1_1_100, 3),
        (0b111_1_1_001, 3),
        (0b110_1_1_001, 3),
        (0b011_1_1_001, 3),
        (0b010_1_1_001, 3),
        (0b111_1_1_000, 3),
        (0b110_1_1_000, 3),
        (0b011_1_1_000, 3),
        (0b010_1_1_000, 3),
        (0b111_1_0_101, 4),
        (0b111_1_0_001, 4),
        (0b011_1_0_101, 4),
        (0b011_1_0_001, 4),
        (0b111_0_0_001, 5),
        (0b111_0_0_100, 6),
        (0b111_0_1_101, 7),
        (0b111_0_1_100, 7),
        (0b110_0_1_101, 7),
        (0b110_0_1_100, 7),
        (0b111_0_0_101, 8),
        (0b001_0_0_100, 9),
        (0b100_1_0_100, 11),
        (0b100_1_0_000, 11),
        (0b000_1_0_100, 11),
        (0b000_1_0_000, 11),
        (0b000_0_0_000, 12),
        (0b001_0_1_001, 13),
        (0b000_0_1_001, 13),
        (0b001_0_1_000, 13),
        (0b000_0_1_000, 13),
        (0b101_1_1_101, 14),
        (0b100_1_0_101, 15),
        (0b000_0_0_001, 16),
        (0b000_0_0_100, 17),
        (0b001_0_1_101, 18),
        (0b000_0_0_101, 19),
        (0b100_0_0_001, 20),
        (0b100_1_0_111, 22),
        (0b000_1_0_111, 22),
        (0b100_1_0_110, 22),
        (0b000_1_0_110, 22),
        (0b100_1_0_011, 22),
        (0b000_1_0_011, 22),
        (0b100_1_0_010, 22),
        (0b000_1_0_010, 22),
        (0b000_0_0_111, 23),
        (0b000_0_0_110, 23),
        (0b000_0_0_011, 23),
        (0b000_0_0_010, 23),
        (0b001_0_1_111, 24),
        (0b000_0_1_111, 24),
        (0b001_0_1_011, 24),
        (0b000_0_1_011, 24),
        (0b001_0_1_110, 24),
        (0b000_0_1_110, 24),
        (0b001_0_1_010, 24),
        (0b000_0_1_010, 24),
        (0b101_1_1_111, 25),
        (0b100_1_1_111, 25),
        (0b001_1_1_111, 25),
        (0b000_1_1_111, 25),
        (0b101_1_1_110, 25),
        (0b100_1_1_110, 25),
        (0b001_1_1_110, 25),
        (0b000_1_1_110, 25),
        (0b101_1_1_011, 25),
        (0b100_1_1_011, 25),
        (0b001_1_1_011, 25),
        (0b000_1_1_011, 25),
        (0b101_1_1_010, 25),
        (0b100_1_1_010, 25),
        (0b001_1_1_010, 25),
        (0b000_1_1_010, 25),
        (0b101_1_0_100, 26),
        (0b001_0_0_000, 27),
        (0b100_0_0_000, 28),
        (0b101_0_1_001, 29),
        (0b101_0_0_000, 30),
        (0b101_0_0_100, 31),
        (0b101_0_0_001, 32),
        (0b111_1_0_111, 33),
        (0b011_1_0_111, 33),
        (0b111_1_0_011, 33),
        (0b011_1_0_011, 33),
        (0b111_1_0_110, 33),
        (0b011_1_0_110, 33),
        (0b111_1_0_010, 33),
        (0b011_1_0_010, 33),
        (0b110_1_0_111, 33),
        (0b010_1_0_111, 33),
        (0b110_1_0_011, 33),
        (0b010_1_0_011, 33),
        (0b110_1_0_110, 33),
        (0b010_1_0_110, 33),
        (0b110_1_0_010, 33),
        (0b010_1_0_010, 33),
        (0b111_0_0_111, 34),
        (0b111_0_1_111, 35),
        (0b011_0_1_111, 35),
        (0b111_0_1_011, 35),
        (0b011_0_1_011, 35),
        (0b110_0_1_111, 35),
        (0b010_0_1_111, 35),
        (0b110_0_1_011, 35),
        (0b010_0_1_011, 35),
        (0b111_0_1_110, 35),
        (0b011_0_1_110, 35),
        (0b111_0_1_010, 35),
        (0b011_0_1_010, 35),
        (0b110_0_1_110, 35),
        (0b010_0_1_110, 35),
        (0b110_0_1_010, 35),
        (0b010_0_1_010, 35),
        (0b111_1_1_111, 36),
        (0b110_1_1_111, 36),
        (0b011_1_1_111, 36),
        (0b010_1_1_111, 36),
        (0b111_1_1_110, 36),
        (0b110_1_1_110, 36),
        (0b011_1_1_110, 36),
        (0b010_1_1_110, 36),
        (0b111_1_1_011, 36),
        (0b110_1_1_011, 36),
        (0b011_1_1_011, 36),
        (0b010_1_1_011, 36),
        (0b111_1_1_010, 36),
        (0b110_1_1_010, 36),
        (0b011_1_1_010, 36),
        (0b010_1_1_010, 36),
        (0b101_1_0_111, 37),
        (0b001_1_0_111, 37),
        (0b101_1_0_011, 37),
        (0b001_1_0_011, 37),
        (0b001_0_0_111, 38),
        (0b100_0_0_111, 39),
        (0b101_0_1_111, 40),
        (0b100_0_1_111, 40),
        (0b101_0_1_110, 40),
        (0b100_0_1_110, 40),
        (0b101_0_0_111, 41),
        (0b100_0_0_101, 42),
        (0b001_0_0_101, 43),
        (0b101_1_0_101, 48),
        (0b001_0_0_001, 49),
        (0b100_0_0_100, 50),
        (0b101_0_1_101, 51),
        (0b101_0_0_101, 52),
    ]
}

fn level(offset: u32, variants: Vec<(u32, u32)>) -> LevelArt {
    LevelArt::new(offset, VariantTable::new(variants).unwrap()).unwrap()
}

fn six_levels() -> TileSet {
    let levels = vec![
        level(77 * 4, grass()),
        level(77, soil()),
        level(0, vec![(0, 0)]),
        level(77, soil()),
        level(77 * 4, grass()),
        level(77 * 4, grass()),
    ];
    TileSet::new(levels, CornerTable::new(&corner_pairs()).unwrap())
}

fn plain(offsets: &[u32], corners: Vec<(u32, u32)>) -> TileSet {
    let levels = offsets.iter().map(|offset| level(*offset, vec![(0, 1)])).collect();
    TileSet::new(levels, CornerTable::new(&corners).unwrap())
}

fn steps() -> LayerTable {
    LayerTable::new(vec![0, 100, 200, 300, 400, 500]).unwrap()
}

fn cliff(x: i32, _y: i32) -> u32 {
    if x >= 4 {
        350
    } else {
        450
    }
}

#[test]
fn interior_tile_has_flat_art_of_its_level_and_no_border() {
    let tiles = plain(&[0, 100, 200, 300, 400], vec![]);
    assert_eq!(tile_art(&tiles, 3, 0, 2), Ok(TileArt { level: 3, base: 301, border: None }));
    assert_eq!(tile_art(&tiles, 0, 0, 2), Ok(TileArt { level: 0, base: 1, border: None }));
    assert_eq!(tile_art(&tiles, 2, 0, 2), Ok(TileArt { level: 2, base: 201, border: None }));
}

#[test]
fn border_tile_lies_on_flat_art_of_the_level_toward_the_water() {
    let tiles = plain(&[0, 100, 200, 300, 400], vec![(EAST, 13), (NORTH, 1)]);
    assert_eq!(tile_art(&tiles, 4, EAST, 2), Ok(TileArt { level: 4, base: 301, border: Some(413) }));
    assert_eq!(tile_art(&tiles, 3, NORTH, 2), Ok(TileArt { level: 3, base: 201, border: Some(301) }));
    assert_eq!(tile_art(&tiles, 0, NORTH, 2), Ok(TileArt { level: 0, base: 101, border: Some(1) }));
    assert_eq!(adjust_to_water_level(4, 2), 3);
}

#[test]
fn tile_without_art_for_its_base_level_is_a_fault() {
    let tiles = plain(&[0, 100, 200], vec![(EAST, 13)]);
    assert_eq!(tile_art(&tiles, 3, 0, 2), Err(TileError::MissingLevel(3)));
    assert_eq!(tile_art(&tiles, 4, EAST, 2), Err(TileError::MissingLevel(3)));
    assert_eq!(tile_art(&tiles, 9, 0, 2), Err(TileError::MissingLevel(9)));
}

#[test]
fn tile_without_corner_for_its_mask_is_a_fault() {
    let tiles = plain(&[0, 100, 200, 300, 400], vec![(EAST, 13)]);
    assert_eq!(tile_art(&tiles, 4, NORTH, 2), Err(TileError::MissingMask(NORTH)));
    assert_eq!(tile_art(&tiles, 3, 0b000_1_1_000, 2), Err(TileError::MissingMask(0b000_1_1_000)));
    assert_eq!(tile_art(&tiles, 3, 300, 2), Err(TileError::MissingMask(300)));
}

#[test]
fn border_tile_without_art_for_its_own_level_is_a_fault() {
    let tiles = plain(&[0, 100, 200, 300], vec![(EAST, 13)]);
    assert_eq!(tile_art(&tiles, 4, EAST, 2), Err(TileError::MissingLevel(4)));
    let short = plain(&[0, 100], vec![(EAST, 13)]);
    assert_eq!(tile_art(&short, 4, EAST, 2), Err(TileError::MissingLevel(3)));
    assert_eq!(tile_art(&short, 4, NORTH, 2), Err(TileError::MissingLevel(3)));
}

#[test]
fn tile_at_a_cliff_gets_the_border_of_its_lower_side() {
    let tiles = plain(&[0, 100, 200, 300, 400], vec![(NORTH_EAST + EAST + SOUTH_EAST, 2)]);
    let mut field = TiledNoise::new(cliff, steps(), 2, 256);
    assert_eq!(
        generate_tile(&mut field, &tiles, 3, 0),
        Ok(TileArt { level: 4, base: 301, border: Some(402) })
    );
    assert_eq!(generate_tile(&mut field, &tiles, 2, 0), Ok(TileArt { level: 4, base: 401, border: None }));
    assert_eq!(generate_tile(&mut field, &tiles, 4, 9), Ok(TileArt { level: 3, base: 301, border: None }));
}

#[test]
fn column_is_generated_from_the_bottom_up() {
    let tiles = plain(&[0, 100, 200, 300, 400], vec![(NORTH_EAST + EAST + SOUTH_EAST, 2)]);
    let mut field = TiledNoise::new(cliff, steps(), 2, 256);
    let column = generate_column(&mut field, &tiles, 3, -2, 5).unwrap();
    assert_eq!(column.len(), 5);
    for art in column {
        assert_eq!(art, TileArt { level: 4, base: 301, border: Some(402) });
    }
    let heights = |_x: i32, y: i32| -> u32 { (y as u32) * 100 + 50 };
    let mut rising = TiledNoise::new(heights, steps(), 0, 256);
    let flat = plain(&[0, 100, 200, 300, 400], vec![(0b000_0_0_111, 23)]);
    let column = generate_column(&mut rising, &flat, 0, 1, 3).unwrap();
    let levels: Vec<u32> = column.iter().map(|art| art.level).collect();
    assert_eq!(levels, vec![1, 2, 3]);
    assert_eq!(column[0], TileArt { level: 1, base: 1, border: Some(123) });
    assert_eq!(column[2], TileArt { level: 3, base: 201, border: Some(323) });
    assert_eq!(generate_column(&mut rising, &flat, 0, 1, 0), Ok(vec![]));
}

#[test]
fn chunk_holds_the_art_of_each_of_its_tiles() {
    let tiles = plain(&[0, 100, 200, 300, 400], vec![(NORTH_EAST + EAST + SOUTH_EAST, 2)]);
    let layout = ChunkLayout::new(4, 3, 16).unwrap();
    let mut field = TiledNoise::new(cliff, steps(), 2, 256);
    let data = generate_chunk(&mut field, &tiles, &layout, GridPos { x: 0, y: -1 }).unwrap();
    assert_eq!(data.coord, GridPos { x: 0, y: -1 });
    assert_eq!(data.columns.len(), 4);
    for (x, column) in data.columns.iter().enumerate() {
        assert_eq!(column.len(), 3);
        for art in column {
            if x == 3 {
                assert_eq!(*art, TileArt { level: 4, base: 301, border: Some(402) });
            } else {
                assert_eq!(*art, TileArt { level: 4, base: 401, border: None });
            }
        }
    }
    assert_eq!(data.tile(3, 2), Some(TileArt { level: 4, base: 301, border: Some(402) }));
    assert_eq!(data.tile(0, 0), Some(TileArt { level: 4, base: 401, border: None }));
    assert_eq!(data.tile(4, 0), None);
    assert_eq!(data.tile(0, 3), None);
    let next = generate_chunk(&mut field, &tiles, &layout, GridPos { x: 1, y: 5 }).unwrap();
    assert_eq!(next.tile(0, 0), Some(TileArt { level: 3, base: 301, border: None }));
}

#[test]
fn first_tile_of_a_chunk_is_its_coordinate_times_its_extent() {
    let layout = ChunkLayout::new(4, 3, 16).unwrap();
    assert_eq!(first_tile_of(&layout, GridPos { x: 0, y: 0 }), GridPos { x: 0, y: 0 });
    assert_eq!(first_tile_of(&layout, GridPos { x: -2, y: 7 }), GridPos { x: -8, y: 21 });
}

#[test]
fn first_faulty_tile_of_the_walk_stops_the_chunk() {
    let layout = ChunkLayout::new(4, 3, 16).unwrap();
    let no_corner = plain(&[0, 100, 200, 300, 400], vec![]);
    let mut field = TiledNoise::new(cliff, steps(), 2, 256);
    assert_eq!(
        generate_chunk(&mut field, &no_corner, &layout, GridPos { x: 0, y: 0 }).err(),
        Some(TileError::MissingMask(NORTH_EAST + EAST + SOUTH_EAST))
    );
    let no_level = plain(&[0, 100, 200, 300], vec![(NORTH_EAST + EAST + SOUTH_EAST, 2)]);
    assert_eq!(
        generate_chunk(&mut field, &no_level, &layout, GridPos { x: 0, y: 0 }).err(),
        Some(TileError::MissingLevel(4))
    );
    assert!(generate_chunk(&mut field, &no_level, &layout, GridPos { x: 1, y: 0 }).is_ok());
}

fn fractal_heights(seed: u32) -> impl Fn(i32, i32) -> u32 {
    let mut fbm = Fbm::<Perlin>::default();
    fbm = fbm.set_seed(seed);
    fbm.octaves = 5;
    fbm.frequency = 0.5;
    move |x: i32, y: i32| -> u32 {
        let value = fbm.get([x as f64 / 200.0, y as f64 / 200.0, 0.0]);
        let mean = (value + 1.0).clamp(0.0, 2.0);
        (mean * 1_000_000.0) as u32
    }
}

#[test]
fn world_around_the_origin_is_generated_once_per_chunk() {
    let layers = || {
        LayerTable::new(vec![0, 300_000, 600_000, 650_000, 1_200_000, 1_600_000, 2_000_000]).unwrap()
    };
    let layout = ChunkLayout::new(8, 8, 16).unwrap();
    let config = StreamConfig::new(layout, 6, 4, 1_500_000).unwrap();
    let tiles = six_levels();
    let mut field = TiledNoise::new(fractal_heights(0), layers(), 2, 10_000);
    let mut probe = TiledNoise::new(fractal_heights(0), layers(), 2, 0);
    let mut map = ChunkMap::new();
    let viewer = GridPos { x: 0, y: 0 };

    let submitted = create_chunk_tasks(&mut map, &config, &viewer);
    assert_eq!(submitted.len(), 12 * 8);
    let mut expected = Vec::new();
    for y in -4..4 {
        for x in -6..6 {
            expected.push(GridPos { x, y });
        }
    }
    assert_eq!(submitted, expected);
    assert!(create_chunk_tasks(&mut map, &config, &viewer).is_empty());

    for chunk in &submitted {
        assert_eq!(map.state(chunk), Some(ChunkState::Pending));
        let data = generate_chunk(&mut field, &tiles, &layout, *chunk).unwrap();
        assert_eq!(data.coord, *chunk);
        let count: usize = data.columns.iter().map(|column| column.len()).sum();
        assert_eq!(count, 64);
        for x in 0..8 {
            for y in 0..8 {
                let art = data.tile(x, y).unwrap();
                assert!(art.level <= 5);
                let tile_x = chunk.x * 8 + x as i32;
                let tile_y = chunk.y * 8 + y as i32;
                assert_eq!(art.level, probe.get_value(tile_x, tile_y));
                let mask = probe.get_mask(art.level, tile_x, tile_y);
                assert_eq!(art.border.is_some(), mask != 0);
                if mask != 0 {
                    assert_eq!(art.border, Some(pixel_pal::tile::mask_to_id(&tiles, mask, art.level)));
                }
            }
        }
    }
    assert_eq!(fetch_chunk_tasks(&mut map, &submitted), submitted);
    assert!(fetch_chunk_tasks(&mut map, &submitted).is_empty());
    for chunk in &submitted {
        assert_eq!(map.state(chunk), Some(ChunkState::Resident));
    }
    assert!(create_chunk_tasks(&mut map, &config, &viewer).is_empty());
    assert_eq!(map.len(), 96);
}

#[test]
fn fractal_terrain_is_the_same_for_the_same_seed() {
    let layers = || LayerTable::new(vec![0, 800_000, 900_000, 1_100_000, 1_250_000, 2_000_000]).unwrap();
    let mut first = TiledNoise::new(fractal_heights(7), layers(), 2, 10_000);
    let mut second = TiledNoise::new(fractal_heights(7), layers(), 2, 3);
    let mut seen = [false; 5];
    for x in (-3000..3000).step_by(37) {
        for y in (-3000..3000).step_by(41) {
            let level = first.get_value(x, y);
            assert_eq!(level, second.get_value(x, y));
            assert_eq!(level, first.get_value(x, y));
            seen[level as usize] = true;
        }
    }
    assert!(seen.iter().filter(|hit| **hit).count() >= 2);
}
