use text_watermark::layout::{check_text, get_start_height, layout_text, LayoutError};

#[test]
fn start_height_of_two_lines() {
    assert_eq!(get_start_height(600, 2, 0, 24, 10), 271);
    assert_eq!(get_start_height(600, 2, 1, 24, 10), 305);
}

#[test]
fn start_height_of_one_line() {
    assert_eq!(get_start_height(600, 1, 0, 24, 10), 288);
}

#[test]
fn start_height_of_a_block_that_fills_the_canvas() {
    assert_eq!(get_start_height(58, 2, 0, 24, 10), 0);
    assert_eq!(get_start_height(58, 2, 1, 24, 10), 34);
}

#[test]
fn lines_share_one_start_column() {
    let sizes = vec![(100, 20), (200, 24)];
    let layout = layout_text(1000, 600, &sizes, 10).unwrap();
    assert_eq!(layout.x, 425);
    assert_eq!(layout.ys, vec![271, 305]);
}

#[test]
fn one_line_is_centred() {
    let sizes = vec![(300, 30)];
    let layout = layout_text(1000, 600, &sizes, 10).unwrap();
    assert_eq!(layout.x, 350);
    assert_eq!(layout.ys, vec![285]);
}

#[test]
fn the_order_of_the_lines_does_not_move_the_column() {
    let a = layout_text(1000, 600, &vec![(100, 20), (200, 24), (50, 10)], 10).unwrap();
    let b = layout_text(1000, 600, &vec![(50, 10), (200, 24), (100, 20)], 10).unwrap();
    assert_eq!(a.x, 437);
    assert_eq!(a.x, b.x);
    assert_eq!(a.ys, vec![254, 288, 322]);
    assert_eq!(a.ys, b.ys);
}

#[test]
fn no_text_is_rejected() {
    assert_eq!(layout_text(1000, 600, &vec![], 10), Err(LayoutError::NoText));
    assert_eq!(check_text(&vec![]), Err(LayoutError::NoText));
}

#[test]
fn text_with_a_line_is_accepted() {
    assert_eq!(check_text(&vec![String::from("draft")]), Ok(()));
    assert_eq!(check_text(&vec![String::new()]), Ok(()));
}

#[test]
fn a_line_wider_than_the_canvas_is_rejected() {
    assert_eq!(layout_text(1000, 600, &vec![(10, 10), (1001, 10)], 10), Err(LayoutError::LineTooWide));
    assert!(layout_text(1000, 600, &vec![(1000, 10)], 10).is_ok());
}

#[test]
fn a_block_higher_than_the_canvas_is_rejected() {
    assert_eq!(layout_text(1000, 57, &vec![(10, 24), (10, 20)], 10), Err(LayoutError::BlockTooHigh));
    assert!(layout_text(1000, 58, &vec![(10, 24), (10, 20)], 10).is_ok());
}
