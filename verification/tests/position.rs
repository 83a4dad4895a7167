use pixel_pal::error::ConfigError;
use pixel_pal::position::{
    chunk_pos_to_pixel_pos, div_rem_floor, pixel_pos_to_chunk_pos, pixel_pos_to_tile_pos,
    relative_tile_pos, tile_pos_to_chunk_pos, ChunkLayout, GridPos, PixelPos, TilePos,
};

fn eight() -> ChunkLayout {
    ChunkLayout::new(8, 8, 16).unwrap()
}

#[test]
fn tile_left_of_the_origin_is_the_last_of_the_chunk_before() {
    let layout = eight();
    let tile = GridPos { x: -1, y: -1 };
    assert_eq!(tile_pos_to_chunk_pos(&tile, &layout), GridPos { x: -1, y: -1 });
    assert_eq!(relative_tile_pos(&tile, &layout), TilePos { x: 7, y: 7 });
}

#[test]
fn chunk_and_offset_give_the_tile_back() {
    let layout = ChunkLayout::new(6, 5, 16).unwrap();
    let samples = [-2147483648i32, -2147483647, -1000, -13, -12, -7, -6, -5, -1, 0, 1, 4, 5, 6, 11,
        12, 999, 2147483646, 2147483647];
    for x in samples {
        for y in samples {
            let tile = GridPos { x, y };
            let chunk = tile_pos_to_chunk_pos(&tile, &layout);
            let offset = relative_tile_pos(&tile, &layout);
            assert!(offset.x < 6 && offset.y < 5);
            assert_eq!(chunk.x as i64 * 6 + offset.x as i64, x as i64);
            assert_eq!(chunk.y as i64 * 5 + offset.y as i64, y as i64);
        }
    }
}

#[test]
fn tiles_of_one_chunk_share_its_coordinate() {
    let layout = eight();
    assert_eq!(tile_pos_to_chunk_pos(&GridPos { x: 0, y: 7 }, &layout), GridPos { x: 0, y: 0 });
    assert_eq!(tile_pos_to_chunk_pos(&GridPos { x: 8, y: 15 }, &layout), GridPos { x: 1, y: 1 });
    assert_eq!(tile_pos_to_chunk_pos(&GridPos { x: -8, y: -9 }, &layout), GridPos { x: -1, y: -2 });
    assert_eq!(relative_tile_pos(&GridPos { x: -8, y: -9 }, &layout), TilePos { x: 0, y: 7 });
    assert_eq!(relative_tile_pos(&GridPos { x: 13, y: 8 }, &layout), TilePos { x: 5, y: 0 });
}

#[test]
fn floor_division_rounds_down_and_truncation_toward_zero() {
    assert_eq!(div_rem_floor(7, 2), (3, 1));
    assert_eq!(div_rem_floor(-7, 2), (-4, 1));
    assert_eq!(div_rem_floor(-8, 2), (-4, 0));
    assert_eq!(div_rem_floor(0, 5), (0, 0));
    assert_eq!(div_rem_floor(i32::MIN, 1), (i32::MIN, 0));
    assert_eq!(div_rem_floor(i32::MIN, i32::MAX), (-2, 2147483646));
    assert_eq!(div_rem_floor(i32::MAX, i32::MAX), (1, 0));
}

#[test]
fn pixel_maps_to_the_chunk_toward_the_origin() {
    let layout = ChunkLayout::new(6, 6, 16).unwrap();
    assert_eq!(pixel_pos_to_chunk_pos(&GridPos { x: 0, y: 0 }, &layout), GridPos { x: 0, y: 0 });
    assert_eq!(pixel_pos_to_chunk_pos(&GridPos { x: 95, y: 96 }, &layout), GridPos { x: 0, y: 1 });
    assert_eq!(pixel_pos_to_chunk_pos(&GridPos { x: -95, y: -96 }, &layout), GridPos { x: 0, y: -1 });
    assert_eq!(pixel_pos_to_chunk_pos(&GridPos { x: 960, y: -961 }, &layout), GridPos { x: 10, y: -10 });
}

#[test]
fn pixel_maps_to_the_tile_toward_the_origin() {
    let layout = eight();
    assert_eq!(pixel_pos_to_tile_pos(&GridPos { x: 15, y: 16 }, &layout), GridPos { x: 0, y: 1 });
    assert_eq!(pixel_pos_to_tile_pos(&GridPos { x: -15, y: -16 }, &layout), GridPos { x: 0, y: -1 });
    assert_eq!(pixel_pos_to_tile_pos(&GridPos { x: 1600, y: -33 }, &layout), GridPos { x: 100, y: -2 });
}

#[test]
fn chunk_starts_at_its_anchor_pixel() {
    let layout = ChunkLayout::new(6, 4, 16).unwrap();
    assert_eq!(chunk_pos_to_pixel_pos(&GridPos { x: 0, y: 0 }, &layout), PixelPos { x: 0, y: 0 });
    assert_eq!(chunk_pos_to_pixel_pos(&GridPos { x: 3, y: -2 }, &layout), PixelPos { x: 288, y: -128 });
    assert_eq!(
        chunk_pos_to_pixel_pos(&GridPos { x: i32::MAX, y: i32::MIN }, &layout),
        PixelPos { x: 2147483647 * 96, y: -2147483648 * 64 }
    );
}

#[test]
fn anchor_of_a_pixels_chunk_is_at_most_a_chunk_away() {
    let layout = ChunkLayout::new(6, 6, 16).unwrap();
    for x in [-1000, -97, -96, -95, -1, 0, 1, 95, 96, 97, 1000] {
        let pixel = GridPos { x, y: x };
        let chunk = pixel_pos_to_chunk_pos(&pixel, &layout);
        let anchor = chunk_pos_to_pixel_pos(&chunk, &layout);
        assert!((anchor.x - x as i64).abs() < 96);
    }
}

#[test]
fn layout_without_extent_is_rejected() {
    assert_eq!(ChunkLayout::new(0, 8, 16).err(), Some(ConfigError::EmptyExtent));
    assert_eq!(ChunkLayout::new(8, 0, 16).err(), Some(ConfigError::EmptyExtent));
    assert_eq!(ChunkLayout::new(8, 8, 0).err(), Some(ConfigError::EmptyExtent));
}

#[test]
fn layout_wider_than_the_pixel_range_is_rejected() {
    assert_eq!(ChunkLayout::new(1 << 16, 8, 1 << 15).err(), Some(ConfigError::ExtentTooLarge));
    assert_eq!(ChunkLayout::new(8, u32::MAX, 1).err(), Some(ConfigError::ExtentTooLarge));
    assert!(ChunkLayout::new(1 << 15, 1, 65535).is_ok());
    assert!(ChunkLayout::new(2147483647, 2147483647, 1).is_ok());
}

#[test]
fn layout_keeps_its_extents() {
    let layout = ChunkLayout::new(6, 4, 16).unwrap();
    assert_eq!((layout.width(), layout.height(), layout.tile_px()), (6, 4, 16));
}

#[test]
fn chunks_at_the_edge_of_the_grid_cannot_be_held() {
    let layout = eight();
    assert!(layout.can_hold(&GridPos { x: 0, y: 0 }));
    assert!(layout.can_hold(&GridPos { x: -6, y: 3 }));
    assert!(layout.can_hold(&GridPos { x: 268435454, y: -268435455 }));
    assert!(!layout.can_hold(&GridPos { x: 268435455, y: 0 }));
    assert!(!layout.can_hold(&GridPos { x: 0, y: -268435456 }));
    assert!(!layout.can_hold(&GridPos { x: i32::MAX, y: i32::MAX }));
}
