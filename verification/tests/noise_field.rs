use std::cell::Cell;
use std::rc::Rc;

use pixel_pal::layers::LayerTable;
use pixel_pal::mask::{EAST, NORTH, NORTH_EAST, NORTH_WEST, SOUTH, SOUTH_EAST, SOUTH_WEST, WEST};
use pixel_pal::noise::TiledNoise;

fn steps() -> LayerTable {
    LayerTable::new(vec![0, 100, 200, 300, 400, 500]).unwrap()
}

fn ramp(x: i32, y: i32) -> u32 {
    ((x as i64 * 7 + y as i64 * 13).rem_euclid(500)) as u32
}

#[test]
fn level_is_the_layer_of_the_sampled_height() {
    let mut field = TiledNoise::new(ramp, steps(), 2, 100);
    assert_eq!(field.get_value(0, 0), 0);
    assert_eq!(field.get_value(15, 0), 1);
    assert_eq!(field.get_value(0, 20), 2);
    assert_eq!(field.get_value(-1, 0), 4);
    assert_eq!(field.get_value(10, 10), 2);
}

#[test]
fn repeated_calls_give_the_same_level() {
    let mut field = TiledNoise::new(ramp, steps(), 2, 100);
    for x in -20..20 {
        for y in -20..20 {
            let first = field.get_value(x, y);
            assert_eq!(field.get_value(x, y), first);
            assert_eq!(first, steps().classify(ramp(x, y)));
        }
    }
}

#[test]
fn warm_cache_and_cold_cache_agree() {
    let mut warm = TiledNoise::new(ramp, steps(), 2, 10_000);
    for x in -30..30 {
        for y in -30..30 {
            warm.get_value(x, y);
        }
    }
    for x in -30..30 {
        for y in -30..30 {
            let mut cold = TiledNoise::new(ramp, steps(), 2, 10_000);
            assert_eq!(warm.get_value(x, y), cold.get_value(x, y));
        }
    }
}

#[test]
fn cached_tile_is_not_sampled_again() {
    let calls = Rc::new(Cell::new(0u32));
    let seen = calls.clone();
    let sampler = move |x: i32, y: i32| -> u32 {
        seen.set(seen.get() + 1);
        ramp(x, y)
    };
    let mut field = TiledNoise::new(sampler, steps(), 2, 10_000);
    assert_eq!(field.get_value(3, 4), 0);
    assert_eq!(calls.get(), 1);
    assert_eq!(field.get_value(3, 4), 0);
    assert_eq!(field.get_value(3, 4), 0);
    assert_eq!(calls.get(), 1);
    assert_eq!(field.get_value(4, 3), 0);
    assert_eq!(calls.get(), 2);
}

#[test]
fn cache_without_room_still_gives_the_level() {
    let mut field = TiledNoise::new(ramp, steps(), 2, 0);
    for _ in 0..3 {
        assert_eq!(field.get_value(15, 0), 1);
        assert_eq!(field.get_value(0, 20), 2);
    }
}

#[test]
fn small_cache_never_changes_a_level() {
    let mut field = TiledNoise::new(ramp, steps(), 2, 4);
    for round in 0..3 {
        for x in 0..200 {
            assert_eq!(field.get_value(x, round), steps().classify(ramp(x, round)));
        }
    }
}

#[test]
fn field_keeps_its_water_line_and_level_count() {
    let field = TiledNoise::new(ramp, steps(), 3, 16);
    assert_eq!(field.water_level(), 3);
    assert_eq!(field.level_count(), 5);
}

fn plateau_with(low_x: i32, low_y: i32) -> impl Fn(i32, i32) -> u32 {
    move |x: i32, y: i32| -> u32 {
        if x == low_x && y == low_y {
            350
        } else {
            450
        }
    }
}

#[test]
fn mask_bit_is_set_for_the_lower_neighbour_alone() {
    let cases = [
        ((-1, 1), NORTH_WEST),
        ((0, 1), NORTH),
        ((1, 1), NORTH_EAST),
        ((-1, 0), WEST),
        ((1, 0), EAST),
        ((-1, -1), SOUTH_WEST),
        ((0, -1), SOUTH),
        ((1, -1), SOUTH_EAST),
    ];
    for ((dx, dy), bit) in cases {
        let mut field = TiledNoise::new(plateau_with(10 + dx, 20 + dy), steps(), 2, 64);
        assert_eq!(field.get_value(10, 20), 4);
        assert_eq!(field.get_mask(4, 10, 20), bit);
    }
}

#[test]
fn mask_ignores_the_tile_itself_and_tiles_farther_away() {
    let mut field = TiledNoise::new(plateau_with(10, 20), steps(), 2, 64);
    assert_eq!(field.get_mask(4, 10, 20), 0);
    let mut far = TiledNoise::new(plateau_with(12, 20), steps(), 2, 64);
    assert_eq!(far.get_mask(4, 10, 20), 0);
}

#[test]
fn mask_below_the_water_marks_higher_neighbours() {
    let sampler = |x: i32, _y: i32| -> u32 {
        if x > 0 {
            250
        } else {
            50
        }
    };
    let mut field = TiledNoise::new(sampler, steps(), 2, 64);
    assert_eq!(field.get_mask(0, 0, 0), NORTH_EAST + EAST + SOUTH_EAST);
    assert_eq!(field.get_mask(2, 1, 0), 0);
    assert_eq!(field.get_mask(0, -5, 0), 0);
}

#[test]
fn mask_at_the_water_line_is_zero() {
    let mut field = TiledNoise::new(ramp, steps(), 2, 64);
    for x in -5..5 {
        assert_eq!(field.get_mask(2, x, 0), 0);
    }
}
