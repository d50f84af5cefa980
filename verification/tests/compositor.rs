use covey_of_worlds::background::{build_level_background, crop, overlay, resize_smooth};
use covey_of_worlds::background::{LevelBackgroundError, LevelBackgroundPosition};
use covey_of_worlds::canvas::{Canvas, Rgba};
use covey_of_worlds::tiles::{build_layer_image, BuildImageFromTilesError, TileInstance};

fn rgba(r: u8, g: u8, b: u8, a: u8) -> Rgba {
    Rgba { r, g, b, a }
}

fn tile(px_x: i64, px_y: i64, src_x: i64, src_y: i64, flip_x: bool, flip_y: bool) -> TileInstance {
    TileInstance { px_x, px_y, src_x, src_y, flip_x, flip_y, tile_id: 0 }
}

/// A tileset of two 2x2 tiles side by side; every pixel differs.
fn tileset() -> Canvas {
    let mut bytes = Vec::new();
    for y in 0..2u8 {
        for x in 0..4u8 {
            bytes.extend_from_slice(&[10 * x + y + 1, 100 + x, 200 + y, 255]);
        }
    }
    Canvas::from_bytes(4, 2, &bytes).unwrap()
}

#[test]
fn solid_background_without_descriptor() {
    let red = rgba(255, 0, 0, 255);
    let image = build_level_background(4, 4, red, None).unwrap();
    assert_eq!(image.width(), 4);
    assert_eq!(image.height(), 4);
    for y in 0..4 {
        for x in 0..4 {
            assert_eq!(image.get(x, y), Some(red));
        }
    }
    assert_eq!(image.get(4, 0), None);
    assert_eq!(image.get(0, 4), None);
}

#[test]
fn later_tile_paints_over_earlier_tile() {
    let set = tileset();
    let tiles = vec![tile(0, 0, 0, 0, false, false), tile(0, 0, 2, 0, false, false)];
    let image = build_layer_image(&set, 2, 2, 2, &tiles).unwrap();
    for y in 0..2 {
        for x in 0..2 {
            assert_eq!(image.get(x, y), set.get(x + 2, y));
        }
    }
    let swapped = vec![tiles[1], tiles[0]];
    let image = build_layer_image(&set, 2, 2, 2, &swapped).unwrap();
    for y in 0..2 {
        for x in 0..2 {
            assert_eq!(image.get(x, y), set.get(x, y));
        }
    }
}

#[test]
fn uncovered_pixels_stay_transparent() {
    let set = tileset();
    let tiles = vec![tile(2, 0, 0, 0, false, false)];
    let image = build_layer_image(&set, 4, 2, 2, &tiles).unwrap();
    assert_eq!(image.get(0, 0), Some(rgba(0, 0, 0, 0)));
    assert_eq!(image.get(1, 1), Some(rgba(0, 0, 0, 0)));
    assert_eq!(image.get(2, 0), set.get(0, 0));
    assert_eq!(image.get(3, 1), set.get(1, 1));
}

#[test]
fn flipped_tiles_read_from_the_far_edge() {
    let set = tileset();
    let image =
        build_layer_image(&set, 2, 2, 2, &vec![tile(0, 0, 0, 0, true, false)]).unwrap();
    assert_eq!(image.get(0, 0), set.get(1, 0));
    assert_eq!(image.get(1, 0), set.get(0, 0));
    assert_eq!(image.get(0, 1), set.get(1, 1));
    let image =
        build_layer_image(&set, 2, 2, 2, &vec![tile(0, 0, 2, 0, false, true)]).unwrap();
    assert_eq!(image.get(0, 0), set.get(2, 1));
    assert_eq!(image.get(1, 1), set.get(3, 0));
    let image = build_layer_image(&set, 2, 2, 2, &vec![tile(0, 0, 0, 0, true, true)]).unwrap();
    assert_eq!(image.get(0, 0), set.get(1, 1));
    assert_eq!(image.get(1, 1), set.get(0, 0));
}

#[test]
fn tile_outside_layer_or_tileset_is_refused() {
    let set = tileset();
    let good = tile(0, 0, 0, 0, false, false);
    let off_layer = tile(1, 0, 0, 0, false, false);
    let off_set = tile(0, 0, 3, 0, false, false);
    let negative = tile(-1, 0, 0, 0, false, false);
    assert_eq!(
        build_layer_image(&set, 2, 2, 2, &vec![good, off_layer, off_set]).err(),
        Some(BuildImageFromTilesError::TileOutOfBounds(1))
    );
    assert_eq!(
        build_layer_image(&set, 2, 2, 2, &vec![off_set]).err(),
        Some(BuildImageFromTilesError::TileOutOfBounds(0))
    );
    assert_eq!(
        build_layer_image(&set, 2, 2, 2, &vec![good, good, negative]).err(),
        Some(BuildImageFromTilesError::TileOutOfBounds(2))
    );
}

#[test]
fn oversized_layer_is_refused() {
    let set = tileset();
    assert_eq!(
        build_layer_image(&set, u32::MAX, u32::MAX, 2, &vec![]).err(),
        Some(BuildImageFromTilesError::CanvasTooLarge)
    );
    assert_eq!(
        build_level_background(u32::MAX, u32::MAX, rgba(0, 0, 0, 255), None).err(),
        Some(LevelBackgroundError::LevelTooLarge)
    );
}

#[test]
fn empty_tile_list_gives_transparent_canvas() {
    let set = tileset();
    let image = build_layer_image(&set, 3, 2, 2, &vec![]).unwrap();
    assert_eq!(image.width(), 3);
    assert_eq!(image.height(), 2);
    assert_eq!(image.to_bytes(), vec![0u8; 24]);
}

#[test]
fn bytes_round_trip() {
    let set = tileset();
    let bytes = set.to_bytes();
    assert_eq!(bytes.len(), 32);
    assert_eq!(&bytes[0..4], &[1, 100, 200, 255]);
    assert_eq!(&bytes[4..8], &[11, 101, 200, 255]);
    assert_eq!(&bytes[16..20], &[2, 100, 201, 255]);
    let again = Canvas::from_bytes(4, 2, &bytes).unwrap();
    assert_eq!(again.get(3, 1), set.get(3, 1));
    assert!(Canvas::from_bytes(4, 2, &bytes[1..].to_vec()).is_none());
    assert!(Canvas::from_bytes(2, 2, &bytes).is_none());
}

#[test]
fn crop_takes_the_rectangle_and_clips_it() {
    let set = tileset();
    let part = crop(&set, 1, 0, 2, 1);
    assert_eq!((part.width(), part.height()), (2, 1));
    assert_eq!(part.get(0, 0), set.get(1, 0));
    assert_eq!(part.get(1, 0), set.get(2, 0));
    let clipped = crop(&set, 3, 1, 5, 5);
    assert_eq!((clipped.width(), clipped.height()), (1, 1));
    assert_eq!(clipped.get(0, 0), set.get(3, 1));
    let none = crop(&set, 9, 9, 2, 2);
    assert_eq!((none.width(), none.height()), (0, 0));
}

#[test]
fn overlay_replaces_where_opaque_and_keeps_where_clear() {
    let base = Canvas::filled(3, 3, rgba(1, 2, 3, 255)).unwrap();
    let top = Canvas::from_bytes(2, 1, &vec![9, 9, 9, 255, 7, 7, 7, 0]).unwrap();
    let out = overlay(&base, &top, 1, 1);
    assert_eq!(out.get(1, 1), Some(rgba(9, 9, 9, 255)));
    assert_eq!(out.get(2, 1), Some(rgba(1, 2, 3, 255)));
    assert_eq!(out.get(0, 0), Some(rgba(1, 2, 3, 255)));
    assert_eq!(out.get(0, 1), Some(rgba(1, 2, 3, 255)));
    let shifted = overlay(&base, &top, -1, 2);
    assert_eq!(shifted.get(0, 2), Some(rgba(1, 2, 3, 255)));
    assert_eq!(shifted.get(1, 2), Some(rgba(1, 2, 3, 255)));
    let shifted = overlay(&base, &top, 2, 0);
    assert_eq!(shifted.get(2, 0), Some(rgba(9, 9, 9, 255)));
    let away = overlay(&base, &top, 5, 5);
    assert_eq!(away.to_bytes(), base.to_bytes());
}

#[test]
fn resize_gives_the_size_asked_for() {
    let set = tileset();
    let big = resize_smooth(&set, 8, 3).unwrap();
    assert_eq!((big.width(), big.height()), (8, 3));
    let same = resize_smooth(&set, 4, 2).unwrap();
    assert_eq!(same.to_bytes(), set.to_bytes());
    let empty = Canvas::from_bytes(0, 0, &vec![]).unwrap();
    assert!(resize_smooth(&empty, 2, 2).is_none());
    assert!(resize_smooth(&set, u32::MAX, u32::MAX).is_none());
}

#[test]
fn background_image_is_laid_over_the_colour() {
    let blue = rgba(0, 0, 255, 255);
    let source = Canvas::filled(4, 4, rgba(0, 255, 0, 255)).unwrap();
    let position = LevelBackgroundPosition {
        crop_x: 1,
        crop_y: 1,
        crop_width: 2,
        crop_height: 2,
        scaled_width: 2,
        scaled_height: 2,
        left: 1,
        top: 2,
    };
    let image = build_level_background(4, 4, blue, Some((&source, position))).unwrap();
    for y in 0..4 {
        for x in 0..4 {
            let inside = (1..3).contains(&x) && (2..4).contains(&y);
            let want = if inside { rgba(0, 255, 0, 255) } else { blue };
            assert_eq!(image.get(x, y), Some(want));
        }
    }
}

#[test]
fn background_that_shows_nothing_is_the_colour() {
    let blue = rgba(0, 0, 255, 255);
    let source = Canvas::filled(4, 4, rgba(0, 255, 0, 255)).unwrap();
    let mut position = LevelBackgroundPosition {
        crop_x: 4,
        crop_y: 0,
        crop_width: 2,
        crop_height: 2,
        scaled_width: 2,
        scaled_height: 2,
        left: 0,
        top: 0,
    };
    let image = build_level_background(2, 2, blue, Some((&source, position))).unwrap();
    assert_eq!(image.to_bytes(), Canvas::filled(2, 2, blue).unwrap().to_bytes());
    position.crop_x = 0;
    position.scaled_width = 0;
    let image = build_level_background(2, 2, blue, Some((&source, position))).unwrap();
    assert_eq!(image.to_bytes(), Canvas::filled(2, 2, blue).unwrap().to_bytes());
    position.scaled_width = u32::MAX;
    position.scaled_height = u32::MAX;
    assert_eq!(
        build_level_background(2, 2, blue, Some((&source, position))).err(),
        Some(LevelBackgroundError::ScaledTooLarge)
    );
}

#[test]
fn overlay_blends_a_partly_transparent_pixel() {
    let base = Canvas::filled(1, 1, rgba(1, 2, 3, 255)).unwrap();
    let top = Canvas::from_bytes(1, 1, &vec![9, 9, 9, 128]).unwrap();
    let out = overlay(&base, &top, 0, 0);
    assert_eq!(out.get(0, 0), Some(rgba(5, 5, 6, 254)));
    let clear = Canvas::filled(1, 1, rgba(0, 0, 0, 0)).unwrap();
    let out = overlay(&clear, &top, 0, 0);
    assert_eq!(out.get(0, 0), Some(rgba(9, 9, 9, 128)));
}
