//! Tiling: the watermark tile is stamped over the base image on a grid.

use crate::canvas::{
    image_height, image_pixels, image_width, inside, overlaid_pixels, overlay, Canvas,
};
use vstd::prelude::*;

verus! {

/// Added to the base image's height before it is divided by the tile's.
pub const ROW_SLACK: u32 = 120;

/// Added to the base image's width before it is divided by the tile's.
pub const COLUMN_SLACK: u32 = 80;

/// How far the grid is shifted to the left.
pub const SHIFT_LEFT: i64 = 60;

/// How far the grid is shifted upwards.
pub const SHIFT_UP: i64 = 40;

/// Why a tile cannot be stamped over a base image.
#[derive(Clone, Copy, Debug, PartialEq, Eq)]
pub enum TileError {
    /// The tile has no width or no height.
    EmptyTile,
    /// A position of the grid lies beyond what a coordinate can hold.
    GridTooLarge,
}

/// The number of grid rows for a base image `base_height` high and a tile
/// `tile_height` high.
pub open spec fn grid_rows(base_height: int, tile_height: int) -> int {
    (base_height + ROW_SLACK) / tile_height
}

/// The number of grid columns for a base image `base_width` wide and a tile
/// `tile_width` wide.
pub open spec fn grid_columns(base_width: int, tile_width: int) -> int {
    (base_width + COLUMN_SLACK) / tile_width
}

/// The x coordinate at which grid row `row` stamps a tile `tile_width` wide.
pub open spec fn stamp_x(row: int, tile_width: int) -> int {
    row * tile_width - SHIFT_LEFT
}

/// The y coordinate at which grid column `column` stamps a tile
/// `tile_height` high.
pub open spec fn stamp_y(column: int, tile_height: int) -> int {
    column * tile_height - SHIFT_UP
}

/// The pixels of the base image after the first `count` stamps of grid row
/// `row`.
pub open spec fn stamped_row(
    base: Map<(int, int), (u8, u8, u8, u8)>,
    base_width: int,
    base_height: int,
    tile: Map<(int, int), (u8, u8, u8, u8)>,
    tile_width: int,
    tile_height: int,
    row: int,
    count: int,
) -> Map<(int, int), (u8, u8, u8, u8)>
    decreases count,
{
    if count <= 0 {
        base
    } else {
        overlaid_pixels(
            stamped_row(
                base,
                base_width,
                base_height,
                tile,
                tile_width,
                tile_height,
                row,
                count - 1,
            ),
            base_width,
            base_height,
            tile,
            tile_width,
            tile_height,
            stamp_x(row, tile_width),
            stamp_y(count - 1, tile_height),
        )
    }
}

/// The pixels of the base image after the first `rows` grid rows, each of
/// `columns` stamps.
pub open spec fn stamped_rows(
    base: Map<(int, int), (u8, u8, u8, u8)>,
    base_width: int,
    base_height: int,
    tile: Map<(int, int), (u8, u8, u8, u8)>,
    tile_width: int,
    tile_height: int,
    rows: int,
    columns: int,
) -> Map<(int, int), (u8, u8, u8, u8)>
    decreases rows,
{
    if rows <= 0 {
        base
    } else {
        stamped_row(
            stamped_rows(
                base,
                base_width,
                base_height,
                tile,
                tile_width,
                tile_height,
                rows - 1,
                columns,
            ),
            base_width,
            base_height,
            tile,
            tile_width,
            tile_height,
            rows - 1,
            columns,
        )
    }
}

/// Whether a tile cannot be stamped over a base image, and why.
pub open spec fn tiling_failure(
    base_width: int,
    base_height: int,
    tile_width: int,
    tile_height: int,
) -> Option<TileError> {
    if tile_width == 0 || tile_height == 0 {
        Some(TileError::EmptyTile)
    } else if grid_rows(base_height, tile_height) * tile_width > i64::MAX || grid_columns(
        base_width,
        tile_width,
    ) * tile_height > i64::MAX {
        Some(TileError::GridTooLarge)
    } else {
        None
    }
}

/// Whether a stamp with its top-left corner at `(x, y)` paints the pixel
/// `(px, py)` of the base image: the tile covers it with a pixel whose
/// alpha is not 0.
pub open spec fn stamp_paints(
    tile: Map<(int, int), (u8, u8, u8, u8)>,
    tile_width: int,
    tile_height: int,
    x: int,
    y: int,
    px: int,
    py: int,
) -> bool {
    inside(px - x, py - y, tile_width, tile_height) && tile[(px - x, py - y)].3 != 0
}

/// The grid row whose stamps cover column `px` of the base image.
pub open spec fn covering_row(px: int, tile_width: int) -> int {
    (px + SHIFT_LEFT) / tile_width
}

/// The grid column whose stamps cover row `py` of the base image.
pub open spec fn covering_column(py: int, tile_height: int) -> int {
    (py + SHIFT_UP) / tile_height
}

/// The pixel of the tile that falls on the pixel `(px, py)` of the base image
/// in the one stamp that covers it.
pub open spec fn covering_pixel(
    tile: Map<(int, int), (u8, u8, u8, u8)>,
    tile_width: int,
    tile_height: int,
    px: int,
    py: int,
) -> (u8, u8, u8, u8) {
    tile[((px + SHIFT_LEFT) % tile_width, (py + SHIFT_UP) % tile_height)]
}

/// What is known of a pixel after stamping: where a stamp covered it with
/// the tile's pixel `over`, it stayed as it was if that has alpha 0 and
/// became `over` if that has alpha 255; where none did, it stayed.
pub open spec fn stamp_result_known(
    was: (u8, u8, u8, u8),
    now: (u8, u8, u8, u8),
    over: (u8, u8, u8, u8),
    covered: bool,
) -> bool {
    if covered {
        (over.3 == 0 ==> now == was) && (over.3 == 255 ==> now == over)
    } else {
        now == was
    }
}

/// Whether the stamp of grid row `r` and column `c` comes before that of row
/// `row` and column `column`, in a grid of `columns` columns.
pub open spec fn stamped_before(r: int, c: int, columns: int, row: int, column: int) -> bool {
    c < columns && (r < row || (r == row && c < column))
}

/// Stamps laid `step` apart, the first at `-shift`, do not overlap: the
/// stamp with index `k` covers the coordinate `p` exactly when `k` is
/// `(p + shift) / step`, and then at its own coordinate `(p + shift) % step`.
pub proof fn lemma_one_stamp_covers(step: int, shift: int, p: int, k: int)
    requires
        step > 0,
    ensures
        0 <= p - (k * step - shift) < step <==> k == (p + shift) / step,
        k == (p + shift) / step ==> p - (k * step - shift) == (p + shift) % step,
{
    let a = p + shift;
    vstd::arithmetic::div_mod::lemma_fundamental_div_mod(a, step);
    vstd::arithmetic::div_mod::lemma_mod_bound(a, step);
    vstd::arithmetic::mul::lemma_mul_is_commutative(step, a / step);
    if 0 <= a - k * step < step {
        vstd::arithmetic::div_mod::lemma_fundamental_div_mod_converse(a, step, k, a - k * step);
    }
}

/// The product of two counts.
fn product(a: u64, b: u32) -> (p: u128)
    ensures
        p == a * b,
{
    assert(a * b <= 0xFFFF_FFFF_FFFF_FFFF * 0xFFFF_FFFF) by (nonlinear_arith)
        requires
            a <= 0xFFFF_FFFF_FFFF_FFFF,
            b <= 0xFFFF_FFFF,
    ;
    (a as u128) * (b as u128)
}

/// The coordinate of stamp number `index`: `index * step - shift`.
fn stamp_at(index: u64, count: u64, step: u32, shift: i64) -> (at: i64)
    requires
        index < count,
        count * step <= i64::MAX,
        0 <= shift <= 1000,
    ensures
        at == index * step - shift,
{
    assert(0 <= index * step <= count * step) by (nonlinear_arith)
        requires
            0 <= index < count,
            0 <= step,
    ;
    ((index * (step as u64)) as i64) - shift
}

/// Stamps `watermark` over `image` on a grid of `grid_rows` by
/// `grid_columns` positions, row by row, the stamp of row `i` and column `j`
/// with its top-left corner at `(stamp_x(i), stamp_y(j))`, and returns the
/// image. The stamps do not overlap: a pixel of the image is covered by the
/// stamp of row `covering_row` and column `covering_column`, where the grid
/// has it, and by no other. Fails where the tile is empty or a position
/// cannot be held.
pub fn cover_image_with_watermark(image: Canvas, watermark: &Canvas) -> (covered: Result<
    Canvas,
    TileError,
>)
    ensures
        match covered {
            Ok(out) => {
                &&& tiling_failure(
                    image_width(image),
                    image_height(image),
                    image_width(*watermark),
                    image_height(*watermark),
                ) is None
                &&& image_width(out) == image_width(image)
                &&& image_height(out) == image_height(image)
                &&& image_pixels(out) == stamped_rows(
                    image_pixels(image),
                    image_width(image),
                    image_height(image),
                    image_pixels(*watermark),
                    image_width(*watermark),
                    image_height(*watermark),
                    grid_rows(image_height(image), image_height(*watermark)),
                    grid_columns(image_width(image), image_width(*watermark)),
                )
                &&& forall|px: int, py: int|
                    inside(px, py, image_width(image), image_height(image)) ==> stamp_result_known(
                        image_pixels(image)[(px, py)],
                        #[trigger] image_pixels(out)[(px, py)],
                        covering_pixel(
                            image_pixels(*watermark),
                            image_width(*watermark),
                            image_height(*watermark),
                            px,
                            py,
                        ),
                        covering_row(px, image_width(*watermark)) < grid_rows(
                            image_height(image),
                            image_height(*watermark),
                        ) && covering_column(py, image_height(*watermark)) < grid_columns(
                            image_width(image),
                            image_width(*watermark),
                        ),
                    )
            },
            Err(e) => tiling_failure(
                image_width(image),
                image_height(image),
                image_width(*watermark),
                image_height(*watermark),
            ) == Some(e),
        },
{
    let bw: u32 = image.width();
    let bh: u32 = image.height();
    let tw: u32 = watermark.width();
    let th: u32 = watermark.height();
    if tw == 0 || th == 0 {
        return Err(TileError::EmptyTile);
    }
    let rows: u64 = (bh as u64 + ROW_SLACK as u64) / (th as u64);
    let columns: u64 = (bw as u64 + COLUMN_SLACK as u64) / (tw as u64);
    if product(rows, tw) > i64::MAX as u128 || product(columns, th) > i64::MAX as u128 {
        return Err(TileError::GridTooLarge);
    }
    let ghost base = image_pixels(image);
    let ghost tile = image_pixels(*watermark);
    let mut out = image;
    let mut i: u64 = 0;
    while i < rows
        invariant
            i <= rows,
            tw > 0,
            th > 0,
            rows * tw <= i64::MAX,
            columns * th <= i64::MAX,
            tw == image_width(*watermark),
            th == image_height(*watermark),
            tile == image_pixels(*watermark),
            image_width(out) == bw,
            image_height(out) == bh,
            image_pixels(out) == stamped_rows(
                base,
                bw as int,
                bh as int,
                tile,
                tw as int,
                th as int,
                i as int,
                columns as int,
            ),
            forall|px: int, py: int|
                inside(px, py, bw as int, bh as int) ==> stamp_result_known(
                    base[(px, py)],
                    #[trigger] image_pixels(out)[(px, py)],
                    covering_pixel(tile, tw as int, th as int, px, py),
                    stamped_before(
                        covering_row(px, tw as int),
                        covering_column(py, th as int),
                        columns as int,
                        i as int,
                        0,
                    ),
                ),
        decreases rows - i,
    {
        let x: i64 = stamp_at(i, rows, tw, SHIFT_LEFT);
        let ghost row_start = image_pixels(out);
        let mut j: u64 = 0;
        while j < columns
            invariant
                j <= columns,
                i < rows,
                tw > 0,
                th > 0,
                x == stamp_x(i as int, tw as int),
                columns * th <= i64::MAX,
                tw == image_width(*watermark),
                th == image_height(*watermark),
                tile == image_pixels(*watermark),
                image_width(out) == bw,
                image_height(out) == bh,
                image_pixels(out) == stamped_row(
                    row_start,
                    bw as int,
                    bh as int,
                    tile,
                    tw as int,
                    th as int,
                    i as int,
                    j as int,
                ),
                forall|px: int, py: int|
                    inside(px, py, bw as int, bh as int) ==> stamp_result_known(
                        base[(px, py)],
                        #[trigger] image_pixels(out)[(px, py)],
                        covering_pixel(tile, tw as int, th as int, px, py),
                        stamped_before(
                            covering_row(px, tw as int),
                            covering_column(py, th as int),
                            columns as int,
                            i as int,
                            j as int,
                        ),
                    ),
            decreases columns - j,
        {
            let y: i64 = stamp_at(j, columns, th, SHIFT_UP);
            let ghost before = image_pixels(out);
            overlay(&mut out, watermark, x, y);
            assert forall|px: int, py: int| inside(px, py, bw as int, bh as int) implies stamp_result_known(
                base[(px, py)],
                #[trigger] image_pixels(out)[(px, py)],
                covering_pixel(tile, tw as int, th as int, px, py),
                stamped_before(
                    covering_row(px, tw as int),
                    covering_column(py, th as int),
                    columns as int,
                    i as int,
                    j + 1,
                ),
            ) by {
                lemma_one_stamp_covers(tw as int, SHIFT_LEFT as int, px, i as int);
                lemma_one_stamp_covers(th as int, SHIFT_UP as int, py, j as int);
                assert(stamp_result_known(
                    base[(px, py)],
                    before[(px, py)],
                    covering_pixel(tile, tw as int, th as int, px, py),
                    stamped_before(
                        covering_row(px, tw as int),
                        covering_column(py, th as int),
                        columns as int,
                        i as int,
                        j as int,
                    ),
                ));
            }
            j = j + 1;
        }
        i = i + 1;
    }
    Ok(out)
}

/// Whether a tile stamped with its top-left corner at `(x, y)` covers at
/// least one pixel of the base image.
pub open spec fn stamp_meets_base(
    base_width: int,
    base_height: int,
    tile_width: int,
    tile_height: int,
    x: int,
    y: int,
) -> bool {
    &&& x < base_width
    &&& y < base_height
    &&& x + tile_width > 0
    &&& y + tile_height > 0
}

/// A stamp of the grid covers a pixel of the base image exactly when its
/// row starts left of the image's right edge, its column starts above the
/// image's lower edge, and the tile reaches past the shift of the grid.
pub proof fn lemma_stamp_meets_base(
    base_width: int,
    base_height: int,
    tile_width: int,
    tile_height: int,
    row: int,
    column: int,
)
    requires
        tile_width > 0,
        tile_height > 0,
        row >= 0,
        column >= 0,
    ensures
        stamp_meets_base(
            base_width,
            base_height,
            tile_width,
            tile_height,
            stamp_x(row, tile_width),
            stamp_y(column, tile_height),
        ) <==> {
            &&& row * tile_width < base_width + SHIFT_LEFT
            &&& column * tile_height < base_height + SHIFT_UP
            &&& (row + 1) * tile_width > SHIFT_LEFT
            &&& (column + 1) * tile_height > SHIFT_UP
        },
{
    assert((row + 1) * tile_width == row * tile_width + tile_width) by (nonlinear_arith);
    assert((column + 1) * tile_height == column * tile_height + tile_height) by (nonlinear_arith);
}

/// Stamps `watermark` once over `image`, with its top-left corner at
/// `(x, y)`. A pixel that the stamp does not paint stays as it was, and one
/// that the tile covers with alpha 255 becomes the tile's; so a stamp that
/// covers no pixel of the image leaves every pixel of it as it was.
pub fn stamp_once(image: &mut Canvas, watermark: &Canvas, x: i64, y: i64)
    ensures
        image_width(*final(image)) == image_width(*old(image)),
        image_height(*final(image)) == image_height(*old(image)),
        image_pixels(*final(image)) == overlaid_pixels(
            image_pixels(*old(image)),
            image_width(*old(image)),
            image_height(*old(image)),
            image_pixels(*watermark),
            image_width(*watermark),
            image_height(*watermark),
            x as int,
            y as int,
        ),
        forall|px: int, py: int|
            inside(px, py, image_width(*old(image)), image_height(*old(image))) && !stamp_paints(
                image_pixels(*watermark),
                image_width(*watermark),
                image_height(*watermark),
                x as int,
                y as int,
                px,
                py,
            ) ==> #[trigger] image_pixels(*final(image))[(px, py)] == image_pixels(*old(image))[(
                px,
                py,
            )],
        forall|px: int, py: int|
            inside(px, py, image_width(*old(image)), image_height(*old(image))) && inside(
                px - x,
                py - y,
                image_width(*watermark),
                image_height(*watermark),
            ) && image_pixels(*watermark)[(px - x, py - y)].3 == 255
                ==> #[trigger] image_pixels(*final(image))[(px, py)] == image_pixels(*watermark)[(
                px - x,
                py - y,
            )],
        !stamp_meets_base(
            image_width(*old(image)),
            image_height(*old(image)),
            image_width(*watermark),
            image_height(*watermark),
            x as int,
            y as int,
        ) ==> forall|px: int, py: int|
            inside(px, py, image_width(*old(image)), image_height(*old(image)))
                ==> #[trigger] image_pixels(*final(image))[(px, py)] == image_pixels(*old(image))[(
                px,
                py,
            )],
{
    overlay(image, watermark, x, y);
}

} // verus!
