use text_watermark::canvas::Canvas;
use text_watermark::tile::{cover_image_with_watermark, stamp_once, TileError};

fn filled(width: u32, height: u32, p: (u8, u8, u8, u8)) -> Canvas {
    let mut c = Canvas::new(width, height).unwrap();
    for x in 0..width {
        for y in 0..height {
            c.put_pixel(x, y, p);
        }
    }
    c
}

const RED: (u8, u8, u8, u8) = (255, 0, 0, 255);
const BLUE: (u8, u8, u8, u8) = (0, 0, 255, 255);
const WHITE: (u8, u8, u8, u8) = (255, 255, 255, 255);

#[test]
fn an_opaque_stamp_replaces_what_it_covers() {
    let mut base = filled(10, 10, RED);
    let tile = filled(4, 3, BLUE);
    stamp_once(&mut base, &tile, 2, 5);
    for x in 0..10u32 {
        for y in 0..10u32 {
            let covered = (2..6).contains(&x) && (5..8).contains(&y);
            assert_eq!(base.get_pixel(x, y), Some(if covered { BLUE } else { RED }));
        }
    }
}

#[test]
fn a_stamp_is_clipped_at_the_edges() {
    let mut base = filled(10, 10, RED);
    let tile = filled(4, 3, BLUE);
    stamp_once(&mut base, &tile, -2, -1);
    stamp_once(&mut base, &tile, 8, 9);
    assert_eq!(base.get_pixel(0, 0), Some(BLUE));
    assert_eq!(base.get_pixel(1, 1), Some(BLUE));
    assert_eq!(base.get_pixel(2, 0), Some(RED));
    assert_eq!(base.get_pixel(0, 2), Some(RED));
    assert_eq!(base.get_pixel(9, 9), Some(BLUE));
    assert_eq!(base.get_pixel(7, 9), Some(RED));
    assert_eq!(base.width(), 10);
    assert_eq!(base.height(), 10);
}

#[test]
fn a_stamp_off_the_image_changes_nothing() {
    let mut base = filled(10, 10, RED);
    let tile = filled(4, 3, BLUE);
    stamp_once(&mut base, &tile, 10, 0);
    stamp_once(&mut base, &tile, 0, 10);
    stamp_once(&mut base, &tile, -4, 0);
    stamp_once(&mut base, &tile, 0, -3);
    stamp_once(&mut base, &tile, i64::MAX, i64::MIN);
    for x in 0..10 {
        for y in 0..10 {
            assert_eq!(base.get_pixel(x, y), Some(RED));
        }
    }
}

#[test]
fn a_transparent_stamp_changes_nothing() {
    let mut base = filled(6, 6, RED);
    let tile = filled(4, 3, (9, 9, 9, 0));
    stamp_once(&mut base, &tile, 1, 1);
    for x in 0..6 {
        for y in 0..6 {
            assert_eq!(base.get_pixel(x, y), Some(RED));
        }
    }
}

#[test]
fn a_tinted_stamp_is_blended() {
    let mut base = filled(6, 6, WHITE);
    let tile = filled(2, 2, (0, 0, 0, 100));
    stamp_once(&mut base, &tile, 1, 1);
    let p = base.get_pixel(1, 1).unwrap();
    assert!(p.0 == 154 || p.0 == 155);
    assert_eq!(p.0, p.1);
    assert_eq!(p.1, p.2);
    assert_eq!(p.3, 255);
    assert_eq!(base.get_pixel(3, 3), Some(WHITE));
}

#[test]
fn the_grid_covers_rows_by_height_and_columns_by_width() {
    let base = filled(200, 100, RED);
    let tile = filled(100, 50, BLUE);
    let out = cover_image_with_watermark(base, &tile).unwrap();
    assert_eq!(out.width(), 200);
    assert_eq!(out.height(), 100);
    for x in 0..200 {
        for y in 0..100 {
            assert_eq!(out.get_pixel(x, y), Some(if y < 60 { BLUE } else { RED }));
        }
    }
}

#[test]
fn a_small_tile_leaves_gaps_only_where_the_grid_ends() {
    let base = filled(30, 30, RED);
    let tile = filled(70, 45, BLUE);
    let out = cover_image_with_watermark(base, &tile).unwrap();
    // three rows start at x = -60, 10, 80; one column starts at y = -40
    for x in 0..30 {
        for y in 0..30 {
            assert_eq!(out.get_pixel(x, y), Some(if y < 5 { BLUE } else { RED }));
        }
    }
}

#[test]
fn a_tile_larger_than_the_slack_is_not_stamped() {
    let base = filled(10, 10, RED);
    let tile = filled(200, 200, BLUE);
    let out = cover_image_with_watermark(base, &tile).unwrap();
    for x in 0..10 {
        for y in 0..10 {
            assert_eq!(out.get_pixel(x, y), Some(RED));
        }
    }
}

#[test]
fn a_tinted_tile_keeps_the_base_opaque() {
    let base = filled(50, 50, WHITE);
    let mut tile = Canvas::new(25, 25).unwrap();
    tile.put_pixel(0, 0, (0, 0, 0, 100));
    let out = cover_image_with_watermark(base, &tile).unwrap();
    assert_eq!(out.width(), 50);
    assert_eq!(out.height(), 50);
    let mut blended: u32 = 0;
    for x in 0..50 {
        for y in 0..50 {
            let p = out.get_pixel(x, y).unwrap();
            assert_eq!(p.3, 255);
            if p != WHITE {
                assert!(p.0 == 154 || p.0 == 155);
                blended += 1;
            }
        }
    }
    // rows at x = -60, -35, -10, 15, 40 (and beyond); columns at y = -40, -15, 10, 35
    assert_eq!(blended, 4);
    assert_ne!(out.get_pixel(15, 10), Some(WHITE));
    assert_ne!(out.get_pixel(40, 35), Some(WHITE));
}

#[test]
fn an_empty_tile_is_rejected() {
    let tile = Canvas::new(0, 5).unwrap();
    assert_eq!(cover_image_with_watermark(filled(4, 4, RED), &tile).err(), Some(TileError::EmptyTile));
    let tile = Canvas::new(5, 0).unwrap();
    assert_eq!(cover_image_with_watermark(filled(4, 4, RED), &tile).err(), Some(TileError::EmptyTile));
}

#[test]
fn a_wide_image_is_covered_down_to_the_last_column_of_stamps() {
    let base = filled(1000, 500, RED);
    let tile = filled(100, 50, BLUE);
    let out = cover_image_with_watermark(base, &tile).unwrap();
    assert_eq!(out.width(), 1000);
    assert_eq!(out.height(), 500);
    // twelve rows start at x = -60, 40, .., 1040; ten columns at y = -40, 10, .., 410
    for x in 0..1000 {
        for y in 0..500 {
            assert_eq!(out.get_pixel(x, y), Some(if y < 460 { BLUE } else { RED }));
        }
    }
}

#[test]
fn each_stamp_puts_the_opaque_pixel_of_the_tile_at_its_corner() {
    let base = filled(1000, 500, WHITE);
    let mut tile = Canvas::new(100, 50).unwrap();
    tile.put_pixel(0, 0, (0, 0, 0, 255));
    let out = cover_image_with_watermark(base, &tile).unwrap();
    assert_eq!(out.get_pixel(40, 10), Some((0, 0, 0, 255)));
    assert_eq!(out.get_pixel(140, 60), Some((0, 0, 0, 255)));
    assert_eq!(out.get_pixel(0, 0), Some(WHITE));
    assert_eq!(out.get_pixel(10, 40), Some(WHITE));
    let mut black: u32 = 0;
    for x in 0..1000u32 {
        for y in 0..500u32 {
            let corner = (x + 60) % 100 == 0 && (y + 40) % 50 == 0 && (x + 60) / 100 < 12 && (y + 40) / 50 < 10;
            assert_eq!(out.get_pixel(x, y), Some(if corner { (0, 0, 0, 255) } else { WHITE }));
            if corner {
                black += 1;
            }
        }
    }
    // rows 1 to 10 start inside the image, columns 1 to 9
    assert_eq!(black, 90);
}
