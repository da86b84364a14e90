use text_watermark::canvas::Canvas;
use text_watermark::trim::{
    count_leading, count_trailing, cut_image, scan_columns, scan_rows, TrimError,
};

fn with_block(width: u32, height: u32, x0: u32, x1: u32, y0: u32, y1: u32) -> Canvas {
    let mut c = Canvas::new(width, height).unwrap();
    for x in x0..x1 {
        for y in y0..y1 {
            c.put_pixel(x, y, ((x % 200) as u8 + 1, (y % 200) as u8 + 1, 3, 255));
        }
    }
    c
}

#[test]
fn runs_are_counted_from_both_ends() {
    let flags = vec![true, true, false, true, false, true, true, true];
    assert_eq!(count_leading(&flags), 2);
    assert_eq!(count_trailing(&flags), 3);
}

#[test]
fn runs_of_all_set_flags_are_the_whole() {
    let flags = vec![true, true, true];
    assert_eq!(count_leading(&flags), 3);
    assert_eq!(count_trailing(&flags), 3);
    assert_eq!(count_leading(&vec![]), 0);
    assert_eq!(count_trailing(&vec![]), 0);
}

#[test]
fn runs_of_flags_that_start_and_end_unset_are_empty() {
    let flags = vec![false, true, true, false];
    assert_eq!(count_leading(&flags), 0);
    assert_eq!(count_trailing(&flags), 0);
}

#[test]
fn rows_and_columns_are_scanned() {
    let c = with_block(4, 3, 1, 2, 1, 3);
    assert_eq!(scan_rows(&c, 0), vec![true, false, false]);
    assert_eq!(scan_columns(&c, 0), vec![true, false, true, true]);
}

#[test]
fn the_border_is_cut_down_to_the_margin() {
    let c = with_block(30, 20, 10, 15, 8, 12);
    let tile = cut_image(&c, 2, 0).unwrap();
    assert_eq!(tile.width(), 22);
    assert_eq!(tile.height(), 8);
    for x in 0..22 {
        for y in 0..8 {
            assert_eq!(tile.get_pixel(x, y), c.get_pixel(x + 8, y + 6));
        }
    }
    assert_eq!(tile.get_pixel(2, 2), Some((11, 9, 3, 255)));
    assert_eq!(tile.get_pixel(1, 2), Some((0, 0, 0, 0)));
}

#[test]
fn the_kept_margin_is_empty() {
    let c = with_block(30, 20, 10, 15, 8, 12);
    let tile = cut_image(&c, 2, 0).unwrap();
    assert_eq!(scan_rows(&tile, 0), vec![true, true, false, false, false, false, true, true]);
    let columns = scan_columns(&tile, 0);
    assert_eq!(count_leading(&columns), 2);
    assert_eq!(count_trailing(&columns), 15);
}

#[test]
fn trailing_columns_are_cut_down_to_fifty() {
    let c = with_block(100, 20, 10, 15, 8, 12);
    let tile = cut_image(&c, 2, 0).unwrap();
    assert_eq!(tile.width(), 57);
    assert_eq!(tile.height(), 8);
    assert_eq!(count_trailing(&scan_columns(&tile, 0)), 50);
    assert_eq!(tile.get_pixel(2, 2), Some((11, 9, 3, 255)));
}

#[test]
fn fifty_trailing_columns_are_kept_whole() {
    let c = with_block(65, 20, 10, 15, 8, 12);
    let tile = cut_image(&c, 2, 0).unwrap();
    assert_eq!(tile.width(), 57);
}

#[test]
fn a_border_no_wider_than_the_margin_is_kept() {
    let c = with_block(9, 9, 2, 7, 2, 7);
    let tile = cut_image(&c, 2, 0).unwrap();
    assert_eq!(tile.width(), 9);
    assert_eq!(tile.height(), 9);
}

#[test]
fn a_canvas_without_empty_border_keeps_its_dimensions() {
    let c = with_block(12, 7, 0, 12, 0, 7);
    let tile = cut_image(&c, 1, 0).unwrap();
    assert_eq!(tile.width(), 12);
    assert_eq!(tile.height(), 7);
    for x in 0..12 {
        for y in 0..7 {
            assert_eq!(tile.get_pixel(x, y), c.get_pixel(x, y));
        }
    }
}

#[test]
fn an_empty_run_inside_is_not_cut() {
    let mut c = Canvas::new(4, 30).unwrap();
    for x in 0..4 {
        c.put_pixel(x, 0, (1, 1, 1, 255));
        c.put_pixel(x, 29, (1, 1, 1, 255));
    }
    let tile = cut_image(&c, 2, 0).unwrap();
    assert_eq!(tile.width(), 4);
    assert_eq!(tile.height(), 30);
}

#[test]
fn margin_zero_cuts_the_whole_border() {
    let c = with_block(30, 20, 10, 15, 8, 12);
    let tile = cut_image(&c, 0, 0).unwrap();
    assert_eq!(tile.width(), 20);
    assert_eq!(tile.height(), 4);
    assert_eq!(tile.get_pixel(0, 0), Some((11, 9, 3, 255)));
}

#[test]
fn the_empty_alpha_is_configurable() {
    let mut c = Canvas::new(10, 10).unwrap();
    for x in 0..10 {
        for y in 0..10 {
            c.put_pixel(x, y, (0, 0, 0, 100));
        }
    }
    c.put_pixel(5, 6, (0, 0, 0, 0));
    let tile = cut_image(&c, 1, 100).unwrap();
    assert_eq!(tile.width(), 6);
    assert_eq!(tile.height(), 3);
    assert_eq!(tile.get_pixel(1, 1), Some((0, 0, 0, 0)));
    assert_eq!(tile.get_pixel(0, 0), Some((0, 0, 0, 100)));
}

#[test]
fn an_empty_canvas_is_rejected() {
    let c = Canvas::new(20, 20).unwrap();
    assert_eq!(cut_image(&c, 2, 0).err(), Some(TrimError::EmptyCanvas));
    let none = Canvas::new(0, 0).unwrap();
    assert_eq!(cut_image(&none, 0, 0).err(), Some(TrimError::EmptyCanvas));
}

#[test]
fn a_margin_beyond_the_canvas_cuts_nothing() {
    let c = with_block(5, 8, 1, 2, 1, 2);
    let tile = cut_image(&c, 5, 0).unwrap();
    assert_eq!((tile.width(), tile.height()), (5, 7));
    for margin in [6, 9, u32::MAX] {
        let tile = cut_image(&c, margin, 0).unwrap();
        assert_eq!(tile.width(), 5);
        assert_eq!(tile.height(), 8);
        for x in 0..5 {
            for y in 0..8 {
                assert_eq!(tile.get_pixel(x, y), c.get_pixel(x, y));
            }
        }
    }
}

#[test]
fn a_narrow_canvas_is_trimmed_by_its_rows() {
    let mut c = Canvas::new(1, 8).unwrap();
    c.put_pixel(0, 0, (0, 0, 0, 255));
    c.put_pixel(0, 7, (0, 0, 0, 255));
    let tile = cut_image(&c, 2, 0).unwrap();
    assert_eq!((tile.width(), tile.height()), (1, 8));
    assert_eq!(tile.get_pixel(0, 0), Some((0, 0, 0, 255)));
    assert_eq!(tile.get_pixel(0, 7), Some((0, 0, 0, 255)));

    let mut c = Canvas::new(1, 5).unwrap();
    c.put_pixel(0, 2, (0, 0, 0, 255));
    let tile = cut_image(&c, 2, 0).unwrap();
    assert_eq!((tile.width(), tile.height()), (1, 5));
    assert_eq!(tile.get_pixel(0, 2), Some((0, 0, 0, 255)));

    let mut c = Canvas::new(1, 9).unwrap();
    c.put_pixel(0, 4, (0, 0, 0, 255));
    let tile = cut_image(&c, 2, 0).unwrap();
    assert_eq!((tile.width(), tile.height()), (1, 5));
    assert_eq!(tile.get_pixel(0, 2), Some((0, 0, 0, 255)));
}

#[test]
fn trimming_a_tile_again_changes_nothing() {
    let mut c = Canvas::new(200, 100).unwrap();
    c.put_pixel(0, 50, (7, 7, 7, 255));
    let once = cut_image(&c, 100, 0).unwrap();
    assert_eq!((once.width(), once.height()), (51, 100));
    let twice = cut_image(&once, 100, 0).unwrap();
    assert_eq!((twice.width(), twice.height()), (51, 100));

    let c = with_block(100, 40, 20, 25, 15, 18);
    let once = cut_image(&c, 3, 0).unwrap();
    assert_eq!((once.width(), once.height()), (58, 9));
    let twice = cut_image(&once, 3, 0).unwrap();
    assert_eq!((twice.width(), twice.height()), (58, 9));
    for x in 0..58 {
        for y in 0..9 {
            assert_eq!(twice.get_pixel(x, y), once.get_pixel(x, y));
        }
    }
}

#[test]
fn the_tile_keeps_borders_no_wider_than_allowed() {
    let c = with_block(100, 40, 20, 25, 1, 18);
    let tile = cut_image(&c, 3, 0).unwrap();
    let rows = scan_rows(&tile, 0);
    let columns = scan_columns(&tile, 0);
    assert_eq!(count_leading(&rows), 1);
    assert_eq!(count_trailing(&rows), 3);
    assert_eq!(count_leading(&columns), 3);
    assert_eq!(count_trailing(&columns), 50);
    assert_eq!((tile.width(), tile.height()), (58, 21));
}

#[test]
fn no_pixel_that_is_not_empty_is_lost() {
    let c = with_block(100, 40, 20, 25, 15, 18);
    let tile = cut_image(&c, 3, 0).unwrap();
    let mut kept: u32 = 0;
    for x in 0..tile.width() {
        for y in 0..tile.height() {
            if tile.get_pixel(x, y).unwrap().3 != 0 {
                kept += 1;
            }
        }
    }
    assert_eq!(kept, 15);
}
