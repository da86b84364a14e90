use text_watermark::canvas::{area_of, is_empty_column, is_empty_line, Canvas};

#[test]
fn a_new_canvas_is_transparent() {
    let c = Canvas::new(4, 3).unwrap();
    assert_eq!(c.width(), 4);
    assert_eq!(c.height(), 3);
    for x in 0..4 {
        for y in 0..3 {
            assert_eq!(c.get_pixel(x, y), Some((0, 0, 0, 0)));
        }
    }
}

#[test]
fn a_canvas_may_have_no_pixels() {
    let c = Canvas::new(0, 7).unwrap();
    assert_eq!(c.width(), 0);
    assert_eq!(c.height(), 7);
    assert_eq!(c.get_pixel(0, 0), None);
}

#[test]
fn a_canvas_beyond_any_buffer_is_refused() {
    assert!(Canvas::new(u32::MAX, u32::MAX).is_none());
}

#[test]
fn area_is_the_product() {
    assert_eq!(area_of(1000, 600), 600_000);
    assert_eq!(area_of(u32::MAX, u32::MAX), 18_446_744_065_119_617_025);
}

#[test]
fn put_pixel_changes_one_pixel() {
    let mut c = Canvas::new(3, 3).unwrap();
    assert!(c.put_pixel(1, 2, (9, 8, 7, 6)));
    assert_eq!(c.get_pixel(1, 2), Some((9, 8, 7, 6)));
    assert_eq!(c.get_pixel(2, 1), Some((0, 0, 0, 0)));
    assert_eq!(c.get_pixel(1, 1), Some((0, 0, 0, 0)));
}

#[test]
fn put_pixel_outside_changes_nothing() {
    let mut c = Canvas::new(3, 3).unwrap();
    assert!(!c.put_pixel(3, 0, (9, 8, 7, 6)));
    assert!(!c.put_pixel(0, 3, (9, 8, 7, 6)));
    assert_eq!(c.get_pixel(3, 0), None);
    assert_eq!(c.get_pixel(0, 3), None);
    for x in 0..3 {
        for y in 0..3 {
            assert_eq!(c.get_pixel(x, y), Some((0, 0, 0, 0)));
        }
    }
}

#[test]
fn empty_lines_and_columns_are_told_by_alpha() {
    let mut c = Canvas::new(3, 2).unwrap();
    c.put_pixel(2, 1, (0, 0, 0, 50));
    assert!(is_empty_line(0, &c, 0));
    assert!(!is_empty_line(1, &c, 0));
    assert!(is_empty_column(0, &c, 0));
    assert!(is_empty_column(1, &c, 0));
    assert!(!is_empty_column(2, &c, 0));
}

#[test]
fn colour_does_not_make_a_line_full() {
    let mut c = Canvas::new(2, 2).unwrap();
    c.put_pixel(0, 0, (200, 100, 50, 0));
    assert!(is_empty_line(0, &c, 0));
    assert!(is_empty_column(0, &c, 0));
}

#[test]
fn the_empty_alpha_need_not_be_zero() {
    let mut c = Canvas::new(2, 2).unwrap();
    assert!(!is_empty_line(0, &c, 100));
    c.put_pixel(0, 0, (0, 0, 0, 100));
    c.put_pixel(1, 0, (0, 0, 0, 100));
    assert!(is_empty_line(0, &c, 100));
    assert!(!is_empty_line(0, &c, 0));
    assert!(!is_empty_column(0, &c, 100));
}
