//! Trimming: the fully transparent border of a canvas is cropped away, down
//! to a margin that is kept.

use crate::canvas::{
    alpha_at, column_is_empty, image_height, image_pixels, image_width, is_empty_column,
    is_empty_line, row_is_empty, Canvas,
};
use vstd::prelude::*;

verus! {

/// The trailing run of empty columns is cut down to this many, whatever the
/// margin.
pub const TRAILING_COLUMNS_KEPT: u32 = 50;

/// Why a canvas cannot be trimmed.
#[derive(Clone, Copy, Debug, PartialEq, Eq)]
pub enum TrimError {
    /// Every row of the canvas is empty.
    EmptyCanvas,
    /// The trimmed canvas is larger than a buffer can hold.
    TooLarge,
}

/// How many of `flags` are set in a row, counted from index `from` upwards.
pub open spec fn set_run_from(flags: Seq<bool>, from: int) -> int
    decreases flags.len() - from,
{
    if 0 <= from < flags.len() && flags[from] {
        1 + set_run_from(flags, from + 1)
    } else {
        0
    }
}

/// How many of `flags` are set in a row, counted from index `upto - 1`
/// downwards.
pub open spec fn set_run_upto(flags: Seq<bool>, upto: int) -> int
    decreases upto,
{
    if 0 < upto <= flags.len() && flags[upto - 1] {
        1 + set_run_upto(flags, upto - 1)
    } else {
        0
    }
}

/// The length of the run of set flags at the start of `flags`.
pub open spec fn leading_run(flags: Seq<bool>) -> int {
    set_run_from(flags, 0)
}

/// The length of the run of set flags at the end of `flags`.
pub open spec fn trailing_run(flags: Seq<bool>) -> int {
    set_run_upto(flags, flags.len() as int)
}

/// Where the kept part starts: the leading run less the margin, where that
/// run ends before the flags do and is longer than the margin; else 0.
pub open spec fn crop_start(flags: Seq<bool>, margin: int) -> int {
    let lead = leading_run(flags);
    if lead < flags.len() && lead > margin {
        lead - margin
    } else {
        0
    }
}

/// Where the kept part ends: the trailing run is cut down to `kept` where it
/// is longer.
pub open spec fn crop_end(flags: Seq<bool>, kept: int) -> int {
    let trail = trailing_run(flags);
    if trail > kept {
        flags.len() - (trail - kept)
    } else {
        flags.len() as int
    }
}

/// For each row, whether it is empty.
pub open spec fn row_flags(img: Canvas, alpha: u8) -> Seq<bool> {
    Seq::new(image_height(img) as nat, |y: int| row_is_empty(img, y, alpha))
}

/// For each column, whether it is empty.
pub open spec fn column_flags(img: Canvas, alpha: u8) -> Seq<bool> {
    Seq::new(image_width(img) as nat, |x: int| column_is_empty(img, x, alpha))
}

/// The first row that is kept.
pub open spec fn trim_top(img: Canvas, margin: int, alpha: u8) -> int {
    crop_start(row_flags(img, alpha), margin)
}

/// The row after the last that is kept.
pub open spec fn trim_bottom(img: Canvas, margin: int, alpha: u8) -> int {
    crop_end(row_flags(img, alpha), margin)
}

/// The first column that is kept.
pub open spec fn trim_left(img: Canvas, margin: int, alpha: u8) -> int {
    crop_start(column_flags(img, alpha), margin)
}

/// The column after the last that is kept: the trailing run of empty
/// columns is cut down to `TRAILING_COLUMNS_KEPT`, not to the margin.
pub open spec fn trim_right(img: Canvas, alpha: u8) -> int {
    crop_end(column_flags(img, alpha), TRAILING_COLUMNS_KEPT as int)
}

/// The width of the trimmed canvas.
pub open spec fn trimmed_width(img: Canvas, margin: int, alpha: u8) -> int {
    trim_right(img, alpha) - trim_left(img, margin, alpha)
}

/// The height of the trimmed canvas.
pub open spec fn trimmed_height(img: Canvas, margin: int, alpha: u8) -> int {
    trim_bottom(img, margin, alpha) - trim_top(img, margin, alpha)
}

/// Whether trimming fails, and why. The rows are looked at first, then the
/// size of what would be kept. A margin larger than the canvas is no
/// failure: no border is then wider than the margin, and none is cut.
pub open spec fn trim_failure(img: Canvas, margin: int, alpha: u8) -> Option<TrimError> {
    if leading_run(row_flags(img, alpha)) == image_height(img) {
        Some(TrimError::EmptyCanvas)
    } else if 4 * trimmed_width(img, margin, alpha) * trimmed_height(img, margin, alpha)
        > isize::MAX {
        Some(TrimError::TooLarge)
    } else {
        None
    }
}

/// Whether `tile` is what trimming makes of `img`: trimming does not fail,
/// and `tile` holds the kept part of `img`, moved to `(0, 0)`.
pub open spec fn is_trim_of(tile: Canvas, img: Canvas, margin: int, alpha: u8) -> bool {
    &&& trim_failure(img, margin, alpha) is None
    &&& image_width(tile) == trimmed_width(img, margin, alpha)
    &&& image_height(tile) == trimmed_height(img, margin, alpha)
    &&& forall|x: int, y: int|
        0 <= x < image_width(tile) && 0 <= y < image_height(tile) ==> #[trigger] image_pixels(
            tile,
        )[(x, y)] == image_pixels(img)[(
            x + trim_left(img, margin, alpha),
            y + trim_top(img, margin, alpha),
        )]
}

/// The leading run lies inside the flags, covers set flags only, and ends at
/// a flag that is not set or at the end.
pub proof fn lemma_set_run_from(flags: Seq<bool>, from: int)
    requires
        0 <= from <= flags.len(),
    ensures
        0 <= set_run_from(flags, from) <= flags.len() - from,
        forall|k: int| from <= k < from + set_run_from(flags, from) ==> flags[k],
        from + set_run_from(flags, from) < flags.len() ==> !flags[from + set_run_from(
            flags,
            from,
        )],
    decreases flags.len() - from,
{
    if from < flags.len() && flags[from] {
        lemma_set_run_from(flags, from + 1);
    }
}

/// The trailing run lies inside the flags, covers set flags only, and starts
/// after a flag that is not set or at the start.
pub proof fn lemma_set_run_upto(flags: Seq<bool>, upto: int)
    requires
        0 <= upto <= flags.len(),
    ensures
        0 <= set_run_upto(flags, upto) <= upto,
        forall|k: int| upto - set_run_upto(flags, upto) <= k < upto ==> flags[k],
        upto - set_run_upto(flags, upto) > 0 ==> !flags[upto - set_run_upto(flags, upto) - 1],
    decreases upto,
{
    if 0 < upto && flags[upto - 1] {
        lemma_set_run_upto(flags, upto - 1);
    }
}

/// Where some flag is not set, the leading and the trailing run do not
/// meet: the kept part is never empty, and lies inside the flags.
pub proof fn lemma_crop_bounds(flags: Seq<bool>, margin: int, kept: int)
    requires
        margin >= 0,
        kept >= 0,
        leading_run(flags) < flags.len(),
    ensures
        0 <= crop_start(flags, margin) <= leading_run(flags),
        flags.len() - trailing_run(flags) <= crop_end(flags, kept) <= flags.len(),
        leading_run(flags) + trailing_run(flags) < flags.len(),
        crop_start(flags, margin) < crop_end(flags, kept),
{
    lemma_set_run_from(flags, 0);
    lemma_set_run_upto(flags, flags.len() as int);
    let lead = leading_run(flags);
    let trail = trailing_run(flags);
    assert(!flags[lead]);
    if lead + trail >= flags.len() {
        assert(flags[lead]);
    }
}

/// The length of the run of set flags at the start of `flags`.
pub fn count_leading(flags: &Vec<bool>) -> (n: usize)
    ensures
        n == leading_run(flags@),
{
    let mut i: usize = 0;
    while i < flags.len() && flags[i]
        invariant
            i <= flags.len(),
            set_run_from(flags@, 0) == i + set_run_from(flags@, i as int),
        decreases flags.len() - i,
    {
        i = i + 1;
    }
    i
}

/// The length of the run of set flags at the end of `flags`.
pub fn count_trailing(flags: &Vec<bool>) -> (n: usize)
    ensures
        n == trailing_run(flags@),
{
    let len: usize = flags.len();
    let mut i: usize = len;
    while i > 0 && flags[i - 1]
        invariant
            i <= len,
            len == flags.len(),
            set_run_upto(flags@, len as int) == (len - i) + set_run_upto(flags@, i as int),
        decreases i,
    {
        i = i - 1;
    }
    len - i
}

/// For each row of the canvas, whether it is empty.
pub fn scan_rows(img: &Canvas, alpha: u8) -> (flags: Vec<bool>)
    ensures
        flags@ == row_flags(*img, alpha),
{
    let h: u32 = img.height();
    let mut flags: Vec<bool> = Vec::new();
    let mut y: u32 = 0;
    while y < h
        invariant
            h == image_height(*img),
            y <= h,
            flags@.len() == y,
            forall|k: int| 0 <= k < y ==> flags@[k] == row_is_empty(*img, k, alpha),
        decreases h - y,
    {
        let empty = is_empty_line(y, img, alpha);
        flags.push(empty);
        y = y + 1;
    }
    assert(flags@ =~= row_flags(*img, alpha));
    flags
}

/// For each column of the canvas, whether it is empty.
pub fn scan_columns(img: &Canvas, alpha: u8) -> (flags: Vec<bool>)
    ensures
        flags@ == column_flags(*img, alpha),
{
    let w: u32 = img.width();
    let mut flags: Vec<bool> = Vec::new();
    let mut x: u32 = 0;
    while x < w
        invariant
            w == image_width(*img),
            x <= w,
            flags@.len() == x,
            forall|k: int| 0 <= k < x ==> flags@[k] == column_is_empty(*img, k, alpha),
        decreases w - x,
    {
        let empty = is_empty_column(x, img, alpha);
        flags.push(empty);
        x = x + 1;
    }
    assert(flags@ =~= column_flags(*img, alpha));
    flags
}

/// Where some row is not empty, some column is not empty either.
pub proof fn lemma_some_column_not_empty(img: Canvas, alpha: u8)
    requires
        leading_run(row_flags(img, alpha)) < image_height(img),
    ensures
        leading_run(column_flags(img, alpha)) < image_width(img),
{
    let rows = row_flags(img, alpha);
    let cols = column_flags(img, alpha);
    lemma_set_run_from(rows, 0);
    lemma_set_run_from(cols, 0);
    let y = leading_run(rows);
    assert(!rows[y]);
    assert(!row_is_empty(img, y, alpha));
    if leading_run(cols) >= image_width(img) {
        assert forall|x: int| 0 <= x < image_width(img) implies #[trigger] alpha_at(img, x, y)
            == alpha by {
            assert(cols[x]);
            assert(column_is_empty(img, x, alpha));
        }
        assert(row_is_empty(img, y, alpha));
    }
}

/// A canvas whose first and last row and first and last column are not
/// empty is kept whole: trimming leaves its dimensions unchanged.
pub proof fn lemma_trim_without_empty_border(img: Canvas, margin: int, alpha: u8)
    requires
        margin >= 0,
        image_width(img) > 0,
        image_height(img) > 0,
        !row_is_empty(img, 0, alpha),
        !row_is_empty(img, image_height(img) - 1, alpha),
        !column_is_empty(img, 0, alpha),
        !column_is_empty(img, image_width(img) - 1, alpha),
    ensures
        trim_left(img, margin, alpha) == 0,
        trim_top(img, margin, alpha) == 0,
        trimmed_width(img, margin, alpha) == image_width(img),
        trimmed_height(img, margin, alpha) == image_height(img),
{
    let rows = row_flags(img, alpha);
    let columns = column_flags(img, alpha);
    assert(!rows[0] && !rows[rows.len() - 1]);
    assert(!columns[0] && !columns[columns.len() - 1]);
}

/// Where some row is not empty and an empty border is wider than what is
/// kept of it (the margin; at the right `TRAILING_COLUMNS_KEPT`), trimming
/// makes the canvas strictly narrower or strictly lower, and never wider or
/// higher.
pub proof fn lemma_trim_reduces(img: Canvas, margin: int, alpha: u8)
    requires
        margin >= 0,
        image_width(img) >= 0,
        0 <= leading_run(row_flags(img, alpha)) < image_height(img),
    ensures
        0 < trimmed_width(img, margin, alpha) <= image_width(img),
        0 < trimmed_height(img, margin, alpha) <= image_height(img),
        leading_run(row_flags(img, alpha)) > margin || trailing_run(row_flags(img, alpha)) > margin
            ==> trimmed_height(img, margin, alpha) < image_height(img),
        leading_run(column_flags(img, alpha)) > margin || trailing_run(column_flags(img, alpha))
            > TRAILING_COLUMNS_KEPT ==> trimmed_width(img, margin, alpha) < image_width(img),
{
    lemma_some_column_not_empty(img, alpha);
    lemma_crop_bounds(row_flags(img, alpha), margin, margin);
    lemma_crop_bounds(column_flags(img, alpha), margin, TRAILING_COLUMNS_KEPT as int);
}

/// Where trimming cut into an empty border, what the tile keeps of that
/// border is still empty: its first `margin` rows where rows were cut at the
/// top, its last `margin` rows where rows were cut at the bottom, its first
/// `margin` columns where columns were cut at the left, and its last
/// `TRAILING_COLUMNS_KEPT` columns where columns were cut at the right.
pub proof fn lemma_trim_keeps_empty_margin(tile: Canvas, img: Canvas, margin: int, alpha: u8)
    requires
        margin >= 0,
        image_width(img) >= 0,
        image_height(img) >= 0,
        is_trim_of(tile, img, margin, alpha),
    ensures
        trim_top(img, margin, alpha) > 0 ==> forall|y: int|
            0 <= y < margin ==> #[trigger] row_is_empty(tile, y, alpha),
        trim_bottom(img, margin, alpha) < image_height(img) ==> forall|y: int|
            image_height(tile) - margin <= y < image_height(tile) ==> #[trigger] row_is_empty(
                tile,
                y,
                alpha,
            ),
        trim_left(img, margin, alpha) > 0 ==> forall|x: int|
            0 <= x < margin ==> #[trigger] column_is_empty(tile, x, alpha),
        trim_right(img, alpha) < image_width(img) ==> forall|x: int|
            image_width(tile) - TRAILING_COLUMNS_KEPT <= x < image_width(tile)
                ==> #[trigger] column_is_empty(tile, x, alpha),
{
    let rows = row_flags(img, alpha);
    let columns = column_flags(img, alpha);
    let top = trim_top(img, margin, alpha);
    let left = trim_left(img, margin, alpha);
    lemma_set_run_from(rows, 0);
    lemma_some_column_not_empty(img, alpha);
    lemma_crop_bounds(rows, margin, margin);
    lemma_crop_bounds(columns, margin, TRAILING_COLUMNS_KEPT as int);
    lemma_set_run_from(columns, 0);
    lemma_set_run_upto(rows, rows.len() as int);
    lemma_set_run_upto(columns, columns.len() as int);
    if top > 0 {
        assert forall|y: int| 0 <= y < margin implies #[trigger] row_is_empty(tile, y, alpha) by {
            assert(rows[y + top]);
            assert(row_is_empty(img, y + top, alpha));
            assert forall|x: int| 0 <= x < image_width(tile) implies #[trigger] alpha_at(
                tile,
                x,
                y,
            ) == alpha by {
                assert(alpha_at(img, x + left, y + top) == alpha);
            }
        }
    }
    if trim_bottom(img, margin, alpha) < image_height(img) {
        assert forall|y: int|
            image_height(tile) - margin <= y < image_height(tile) implies #[trigger] row_is_empty(
            tile,
            y,
            alpha,
        ) by {
            assert(rows[y + top]);
            assert(row_is_empty(img, y + top, alpha));
            assert forall|x: int| 0 <= x < image_width(tile) implies #[trigger] alpha_at(
                tile,
                x,
                y,
            ) == alpha by {
                assert(alpha_at(img, x + left, y + top) == alpha);
            }
        }
    }
    if left > 0 {
        assert forall|x: int| 0 <= x < margin implies #[trigger] column_is_empty(
            tile,
            x,
            alpha,
        ) by {
            assert(columns[x + left]);
            assert(column_is_empty(img, x + left, alpha));
            assert forall|y: int| 0 <= y < image_height(tile) implies #[trigger] alpha_at(
                tile,
                x,
                y,
            ) == alpha by {
                assert(alpha_at(img, x + left, y + top) == alpha);
            }
        }
    }
    if trim_right(img, alpha) < image_width(img) {
        assert forall|x: int|
            image_width(tile) - TRAILING_COLUMNS_KEPT <= x < image_width(
                tile,
            ) implies #[trigger] column_is_empty(tile, x, alpha) by {
            assert(columns[x + left]);
            assert(column_is_empty(img, x + left, alpha));
            assert forall|y: int| 0 <= y < image_height(tile) implies #[trigger] alpha_at(
                tile,
                x,
                y,
            ) == alpha by {
                assert(alpha_at(img, x + left, y + top) == alpha);
            }
        }
    }
}

/// How much of a run of `run` is cut where `kept` of it are kept.
pub open spec fn excess(run: int, kept: int) -> int {
    if run > kept {
        run - kept
    } else {
        0
    }
}

/// The smaller of two numbers.
pub open spec fn lesser(a: int, b: int) -> int {
    if a < b {
        a
    } else {
        b
    }
}

/// A run of set flags from `from` up to `end`, which ends at a flag that is
/// not set or at the end of the flags, is the run counted from `from`.
pub proof fn lemma_set_run_from_is(flags: Seq<bool>, from: int, end: int)
    requires
        0 <= from <= end <= flags.len(),
        forall|k: int| from <= k < end ==> flags[k],
        end < flags.len() ==> !flags[end],
    ensures
        set_run_from(flags, from) == end - from,
    decreases end - from,
{
    if from < end {
        lemma_set_run_from_is(flags, from + 1, end);
    }
}

/// A run of set flags from `start` up to `upto`, which starts after a flag
/// that is not set or at the start of the flags, is the run counted down
/// from `upto`.
pub proof fn lemma_set_run_upto_is(flags: Seq<bool>, upto: int, start: int)
    requires
        0 <= start <= upto <= flags.len(),
        forall|k: int| start <= k < upto ==> flags[k],
        start > 0 ==> !flags[start - 1],
    ensures
        set_run_upto(flags, upto) == upto - start,
    decreases upto - start,
{
    if start < upto {
        lemma_set_run_upto_is(flags, upto - 1, start);
    }
}

/// The runs of a window of the flags: where `window` holds the flags from
/// `at` on, starts inside the leading run or before it, ends inside the
/// trailing run or after it, and holds a flag that is not set, its leading
/// and trailing run are what the window leaves of those of the flags.
pub proof fn lemma_runs_of_window(flags: Seq<bool>, window: Seq<bool>, at: int)
    requires
        leading_run(flags) < flags.len(),
        0 <= at <= leading_run(flags),
        flags.len() - trailing_run(flags) <= at + window.len() <= flags.len(),
        forall|k: int| 0 <= k < window.len() ==> window[k] == flags[k + at],
    ensures
        leading_run(window) == leading_run(flags) - at,
        trailing_run(window) == trailing_run(flags) - (flags.len() - at - window.len()),
        leading_run(window) < window.len(),
{
    lemma_set_run_from(flags, 0);
    lemma_set_run_upto(flags, flags.len() as int);
    lemma_crop_bounds(flags, 0, 0);
    let lead = leading_run(flags);
    let trail = trailing_run(flags);
    assert(!flags[lead]);
    assert(!flags[flags.len() - trail - 1]);
    lemma_set_run_from_is(window, 0, lead - at);
    lemma_set_run_upto_is(window, window.len() as int, flags.len() - trail - at);
}

/// The dimensions of the trimmed canvas, where some row is not empty: each
/// empty border loses what it has beyond the margin, the right border what
/// it has beyond `TRAILING_COLUMNS_KEPT`.
pub proof fn lemma_trim_dimensions(img: Canvas, margin: int, alpha: u8)
    requires
        margin >= 0,
        image_width(img) >= 0,
        0 <= leading_run(row_flags(img, alpha)) < image_height(img),
    ensures
        trim_top(img, margin, alpha) == excess(leading_run(row_flags(img, alpha)), margin),
        trim_left(img, margin, alpha) == excess(leading_run(column_flags(img, alpha)), margin),
        trimmed_height(img, margin, alpha) == image_height(img) - excess(
            leading_run(row_flags(img, alpha)),
            margin,
        ) - excess(trailing_run(row_flags(img, alpha)), margin),
        trimmed_width(img, margin, alpha) == image_width(img) - excess(
            leading_run(column_flags(img, alpha)),
            margin,
        ) - excess(trailing_run(column_flags(img, alpha)), TRAILING_COLUMNS_KEPT as int),
{
    lemma_some_column_not_empty(img, alpha);
}

/// Trimming loses no pixel that is not empty: the kept part lies inside the
/// canvas, and every pixel of the canvas outside it has the empty alpha.
pub proof fn lemma_trim_drops_only_empty(img: Canvas, margin: int, alpha: u8)
    requires
        margin >= 0,
        image_width(img) >= 0,
        0 <= leading_run(row_flags(img, alpha)) < image_height(img),
    ensures
        0 <= trim_left(img, margin, alpha) < trim_right(img, alpha) <= image_width(img),
        0 <= trim_top(img, margin, alpha) < trim_bottom(img, margin, alpha) <= image_height(img),
        forall|x: int, y: int|
            0 <= x < image_width(img) && 0 <= y < image_height(img) && !(trim_left(
                img,
                margin,
                alpha,
            ) <= x < trim_right(img, alpha) && trim_top(img, margin, alpha) <= y < trim_bottom(
                img,
                margin,
                alpha,
            )) ==> #[trigger] alpha_at(img, x, y) == alpha,
{
    let rows = row_flags(img, alpha);
    let columns = column_flags(img, alpha);
    lemma_some_column_not_empty(img, alpha);
    lemma_crop_bounds(rows, margin, margin);
    lemma_crop_bounds(columns, margin, TRAILING_COLUMNS_KEPT as int);
    lemma_set_run_from(rows, 0);
    lemma_set_run_from(columns, 0);
    lemma_set_run_upto(rows, rows.len() as int);
    lemma_set_run_upto(columns, columns.len() as int);
    assert forall|x: int, y: int|
        0 <= x < image_width(img) && 0 <= y < image_height(img) && !(trim_left(img, margin, alpha)
            <= x < trim_right(img, alpha) && trim_top(img, margin, alpha) <= y < trim_bottom(
            img,
            margin,
            alpha,
        )) implies #[trigger] alpha_at(img, x, y) == alpha by {
        if y < trim_top(img, margin, alpha) || y >= trim_bottom(img, margin, alpha) {
            assert(rows[y]);
            assert(row_is_empty(img, y, alpha));
        } else {
            assert(columns[x]);
            assert(column_is_empty(img, x, alpha));
        }
    }
}

/// The rows and columns of the tile are empty exactly where those of the
/// canvas are that they were cut from.
pub proof fn lemma_tile_flags(tile: Canvas, img: Canvas, margin: int, alpha: u8)
    requires
        margin >= 0,
        image_width(img) >= 0,
        image_height(img) >= 0,
        is_trim_of(tile, img, margin, alpha),
    ensures
        forall|y: int|
            0 <= y < image_height(tile) ==> #[trigger] row_flags(tile, alpha)[y] == row_flags(
                img,
                alpha,
            )[y + trim_top(img, margin, alpha)],
        forall|x: int|
            0 <= x < image_width(tile) ==> #[trigger] column_flags(tile, alpha)[x] == column_flags(
                img,
                alpha,
            )[x + trim_left(img, margin, alpha)],
{
    let top = trim_top(img, margin, alpha);
    let left = trim_left(img, margin, alpha);
    lemma_set_run_from(row_flags(img, alpha), 0);
    lemma_trim_drops_only_empty(img, margin, alpha);
    assert forall|y: int| 0 <= y < image_height(tile) implies #[trigger] row_flags(tile, alpha)[y]
        == row_flags(img, alpha)[y + top] by {
        if row_is_empty(img, y + top, alpha) {
            assert forall|x: int| 0 <= x < image_width(tile) implies #[trigger] alpha_at(
                tile,
                x,
                y,
            ) == alpha by {
                assert(alpha_at(img, x + left, y + top) == alpha);
            }
        }
        if row_is_empty(tile, y, alpha) {
            assert forall|x: int| 0 <= x < image_width(img) implies #[trigger] alpha_at(
                img,
                x,
                y + top,
            ) == alpha by {
                if left <= x < trim_right(img, alpha) {
                    assert(alpha_at(tile, x - left, y) == alpha);
                }
            }
        }
    }
    assert forall|x: int| 0 <= x < image_width(tile) implies #[trigger] column_flags(
        tile,
        alpha,
    )[x] == column_flags(img, alpha)[x + left] by {
        if column_is_empty(img, x + left, alpha) {
            assert forall|y: int| 0 <= y < image_height(tile) implies #[trigger] alpha_at(
                tile,
                x,
                y,
            ) == alpha by {
                assert(alpha_at(img, x + left, y + top) == alpha);
            }
        }
        if column_is_empty(tile, x, alpha) {
            assert forall|y: int| 0 <= y < image_height(img) implies #[trigger] alpha_at(
                img,
                x + left,
                y,
            ) == alpha by {
                if top <= y < trim_bottom(img, margin, alpha) {
                    assert(alpha_at(tile, x, y - top) == alpha);
                }
            }
        }
    }
}

/// The empty borders of the tile are those of the canvas, cut down: the
/// tile has as many empty rows at the top and at the bottom, and empty
/// columns at the left, as the canvas had, but no more than the margin, and
/// as many empty columns at the right, but no more than
/// `TRAILING_COLUMNS_KEPT`.
pub proof fn lemma_trim_borders(tile: Canvas, img: Canvas, margin: int, alpha: u8)
    requires
        margin >= 0,
        image_width(img) >= 0,
        image_height(img) >= 0,
        is_trim_of(tile, img, margin, alpha),
    ensures
        leading_run(row_flags(tile, alpha)) == lesser(leading_run(row_flags(img, alpha)), margin),
        trailing_run(row_flags(tile, alpha)) == lesser(
            trailing_run(row_flags(img, alpha)),
            margin,
        ),
        leading_run(column_flags(tile, alpha)) == lesser(
            leading_run(column_flags(img, alpha)),
            margin,
        ),
        trailing_run(column_flags(tile, alpha)) == lesser(
            trailing_run(column_flags(img, alpha)),
            TRAILING_COLUMNS_KEPT as int,
        ),
        leading_run(row_flags(tile, alpha)) < image_height(tile),
{
    lemma_set_run_from(row_flags(img, alpha), 0);
    lemma_some_column_not_empty(img, alpha);
    lemma_crop_bounds(row_flags(img, alpha), margin, margin);
    lemma_crop_bounds(column_flags(img, alpha), margin, TRAILING_COLUMNS_KEPT as int);
    lemma_tile_flags(tile, img, margin, alpha);
    lemma_runs_of_window(
        row_flags(img, alpha),
        row_flags(tile, alpha),
        trim_top(img, margin, alpha),
    );
    lemma_runs_of_window(
        column_flags(img, alpha),
        column_flags(tile, alpha),
        trim_left(img, margin, alpha),
    );
}

/// Trimming a tile again, with the same margin and the same empty alpha,
/// changes nothing: it does not fail, and keeps the tile whole.
pub proof fn lemma_trim_twice(tile: Canvas, img: Canvas, margin: int, alpha: u8)
    requires
        margin >= 0,
        image_width(img) >= 0,
        image_height(img) >= 0,
        is_trim_of(tile, img, margin, alpha),
    ensures
        trim_failure(tile, margin, alpha) is None,
        trim_left(tile, margin, alpha) == 0,
        trim_top(tile, margin, alpha) == 0,
        trimmed_width(tile, margin, alpha) == image_width(tile),
        trimmed_height(tile, margin, alpha) == image_height(tile),
{
    lemma_set_run_from(row_flags(img, alpha), 0);
    lemma_trim_reduces(img, margin, alpha);
    lemma_trim_borders(tile, img, margin, alpha);
    assert(row_flags(tile, alpha).len() == image_height(tile));
    assert(column_flags(tile, alpha).len() == image_width(tile));
}

/// Crops the empty border of `rotated` down to `margin` rows at the top and
/// the bottom and `margin` columns at the left, and down to
/// `TRAILING_COLUMNS_KEPT` columns at the right. A row or column is empty
/// when each of its pixels has the alpha value `alpha`. What is kept is
/// copied to a new canvas, with its top-left corner at `(0, 0)`.
pub fn cut_image(rotated: &Canvas, margin: u32, alpha: u8) -> (cut: Result<Canvas, TrimError>)
    ensures
        match cut {
            Ok(tile) => is_trim_of(tile, *rotated, margin as int, alpha),
            Err(e) => trim_failure(*rotated, margin as int, alpha) == Some(e),
        },
{
    let w: u32 = rotated.width();
    let h: u32 = rotated.height();
    let rows = scan_rows(rotated, alpha);
    let lead_rows: usize = count_leading(&rows);
    proof {
        lemma_set_run_from(rows@, 0);
    }
    if lead_rows == h as usize {
        return Err(TrimError::EmptyCanvas);
    }
    let columns = scan_columns(rotated, alpha);
    let lead_columns: usize = count_leading(&columns);
    let trail_rows: usize = count_trailing(&rows);
    let trail_columns: usize = count_trailing(&columns);
    proof {
        lemma_some_column_not_empty(*rotated, alpha);
        lemma_crop_bounds(rows@, margin as int, margin as int);
        lemma_crop_bounds(columns@, margin as int, TRAILING_COLUMNS_KEPT as int);
    }
    let top: u32 = if lead_rows > margin as usize {
        (lead_rows - margin as usize) as u32
    } else {
        0
    };
    let left: u32 = if lead_columns > margin as usize {
        (lead_columns - margin as usize) as u32
    } else {
        0
    };
    let bottom: u32 = if trail_rows > margin as usize {
        h - (trail_rows - margin as usize) as u32
    } else {
        h
    };
    let right: u32 = if trail_columns > TRAILING_COLUMNS_KEPT as usize {
        w - (trail_columns - TRAILING_COLUMNS_KEPT as usize) as u32
    } else {
        w
    };
    assert(top == trim_top(*rotated, margin as int, alpha));
    assert(left == trim_left(*rotated, margin as int, alpha));
    assert(bottom == trim_bottom(*rotated, margin as int, alpha));
    assert(right == trim_right(*rotated, alpha));
    let new_width: u32 = right - left;
    let new_height: u32 = bottom - top;
    let mut tile = match Canvas::new(new_width, new_height) {
        Some(tile) => tile,
        None => {
            return Err(TrimError::TooLarge);
        },
    };
    let mut x: u32 = 0;
    while x < new_width
        invariant
            x <= new_width,
            left + new_width <= w == image_width(*rotated),
            top + new_height <= h == image_height(*rotated),
            image_width(tile) == new_width,
            image_height(tile) == new_height,
            forall|cx: int, cy: int|
                0 <= cx < x && 0 <= cy < new_height ==> #[trigger] image_pixels(tile)[(cx, cy)]
                    == image_pixels(*rotated)[(cx + left, cy + top)],
        decreases new_width - x,
    {
        let mut y: u32 = 0;
        while y < new_height
            invariant
                x < new_width,
                y <= new_height,
                left + new_width <= w == image_width(*rotated),
                top + new_height <= h == image_height(*rotated),
                image_width(tile) == new_width,
                image_height(tile) == new_height,
                forall|cx: int, cy: int|
                    0 <= cx < x && 0 <= cy < new_height ==> #[trigger] image_pixels(tile)[(
                        cx,
                        cy,
                    )] == image_pixels(*rotated)[(cx + left, cy + top)],
                forall|cy: int|
                    0 <= cy < y ==> #[trigger] image_pixels(tile)[(x as int, cy)] == image_pixels(
                        *rotated,
                    )[(x + left, cy + top)],
            decreases new_height - y,
        {
            let p = crate::canvas::pixel(rotated, x + left, y + top);
            crate::canvas::set_pixel(&mut tile, x, y, p);
            y = y + 1;
        }
        x = x + 1;
    }
    Ok(tile)
}

} // verus!
