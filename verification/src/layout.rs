//! Layout of the text lines on the text canvas: one shared start column, and
//! a start row for each line.

use vstd::prelude::*;

verus! {

/// Why the text lines cannot be laid out on the canvas.
#[derive(Clone, Copy, Debug, PartialEq, Eq)]
pub enum LayoutError {
    /// There is no line of text.
    NoText,
    /// A line is wider than the canvas.
    LineTooWide,
    /// The lines, stacked, are higher than the canvas.
    BlockTooHigh,
}

/// Where the lines are drawn: all of them start in column `x`, line `i`
/// starts in row `ys[i]`.
#[derive(Clone, Debug, PartialEq, Eq)]
pub struct TextLayout {
    pub x: i32,
    pub ys: Vec<i32>,
}

/// The height of `length` stacked lines, each `text_height` high, with
/// `margin` rows between two of them.
pub open spec fn block_height(length: int, text_height: int, margin: int) -> int {
    (text_height + margin) * length - margin
}

/// The row in which line `index` of `length` starts, where the block of
/// lines is centred on a canvas `height` high.
pub open spec fn start_height(
    height: int,
    length: int,
    index: int,
    text_height: int,
    margin: int,
) -> int {
    (height - block_height(length, text_height, margin)) / 2 + (text_height + margin) * index
}

/// The greatest width among the measured lines; 0 where there is none.
pub open spec fn widest(sizes: Seq<(u32, u32)>) -> int
    decreases sizes.len(),
{
    if sizes.len() == 0 {
        0
    } else if widest(sizes.drop_last()) > sizes.last().0 {
        widest(sizes.drop_last())
    } else {
        sizes.last().0 as int
    }
}

/// The least width among the measured lines; 0 where there is none.
pub open spec fn narrowest(sizes: Seq<(u32, u32)>) -> int
    decreases sizes.len(),
{
    if sizes.len() == 0 {
        0
    } else if sizes.len() > 1 && narrowest(sizes.drop_last()) < sizes.last().0 {
        narrowest(sizes.drop_last())
    } else {
        sizes.last().0 as int
    }
}

/// The greatest height among the measured lines; 0 where there is none.
pub open spec fn tallest(sizes: Seq<(u32, u32)>) -> int
    decreases sizes.len(),
{
    if sizes.len() == 0 {
        0
    } else if tallest(sizes.drop_last()) > sizes.last().1 {
        tallest(sizes.drop_last())
    } else {
        sizes.last().1 as int
    }
}

/// The column in which a line `text_width` wide starts when it is centred
/// on a canvas `canvas_width` wide.
pub open spec fn centering_offset(canvas_width: int, text_width: int) -> int {
    (canvas_width - text_width) / 2
}

/// The column in which every line starts: the mean of the least and the
/// greatest centering offset, which are those of the widest and of the
/// narrowest line.
pub open spec fn shared_start_x(canvas_width: int, sizes: Seq<(u32, u32)>) -> int {
    (centering_offset(canvas_width, widest(sizes)) + centering_offset(
        canvas_width,
        narrowest(sizes),
    )) / 2
}

/// Whether the layout fails, and why.
pub open spec fn layout_failure(
    canvas_width: int,
    canvas_height: int,
    sizes: Seq<(u32, u32)>,
    margin: int,
) -> Option<LayoutError> {
    if sizes.len() == 0 {
        Some(LayoutError::NoText)
    } else if widest(sizes) > canvas_width {
        Some(LayoutError::LineTooWide)
    } else if block_height(sizes.len() as int, tallest(sizes), margin) > canvas_height {
        Some(LayoutError::BlockTooHigh)
    } else {
        None
    }
}

/// The widest line is as wide as every line, and the narrowest no wider
/// than any; each is the width of one of the lines.
pub proof fn lemma_width_bounds(sizes: Seq<(u32, u32)>)
    requires
        sizes.len() > 0,
    ensures
        forall|i: int| 0 <= i < sizes.len() ==> narrowest(sizes) <= (#[trigger] sizes[i]).0 <= widest(sizes),
        exists|i: int| 0 <= i < sizes.len() && (#[trigger] sizes[i]).0 == widest(sizes),
        exists|i: int| 0 <= i < sizes.len() && (#[trigger] sizes[i]).0 == narrowest(sizes),
    decreases sizes.len(),
{
    let rest = sizes.drop_last();
    let last = sizes.len() - 1;
    if sizes.len() > 1 {
        lemma_width_bounds(rest);
        assert forall|i: int| 0 <= i < sizes.len() implies narrowest(sizes) <= (#[trigger] sizes[i]).0
            <= widest(sizes) by {
            if i < last {
                assert(sizes[i] == rest[i]);
            }
        }
        let i = choose|i: int| 0 <= i < rest.len() && (#[trigger] rest[i]).0 == widest(rest);
        assert(sizes[i] == rest[i]);
        let j = choose|j: int| 0 <= j < rest.len() && (#[trigger] rest[j]).0 == narrowest(rest);
        assert(sizes[j] == rest[j]);
        assert(sizes[last].0 == sizes.last().0);
    } else {
        assert(rest.len() == 0);
        assert(widest(rest) == 0);
        assert(sizes[last].0 == widest(sizes));
        assert(sizes[last].0 == narrowest(sizes));
    }
}

/// Accepts the text where it has a line, before anything is measured or
/// drawn.
pub fn check_text(text: &Vec<String>) -> (checked: Result<(), LayoutError>)
    ensures
        checked == (if text@.len() == 0 {
            Err::<(), LayoutError>(LayoutError::NoText)
        } else {
            Ok::<(), LayoutError>(())
        }),
{
    if text.len() == 0 {
        Err(LayoutError::NoText)
    } else {
        Ok(())
    }
}

/// The row in which line `index` of `length` starts: the block of lines,
/// each `text_height` high with `margin` rows between them, is centred on a
/// canvas `height` high.
pub fn get_start_height(height: u32, length: u32, index: u32, text_height: u32, margin: u32) -> (y:
    i32)
    requires
        0 <= block_height(length as int, text_height as int, margin as int) <= height,
        start_height(height as int, length as int, index as int, text_height as int, margin as int)
            <= i32::MAX,
    ensures
        y == start_height(
            height as int,
            length as int,
            index as int,
            text_height as int,
            margin as int,
        ),
{
    let step: u64 = text_height as u64 + margin as u64;
    assert(0 <= step * length <= 0x1_FFFF_FFFF * 0xFFFF_FFFF) by (nonlinear_arith)
        requires
            0 <= step <= 0x1_FFFF_FFFF,
            0 <= length <= 0xFFFF_FFFF,
    ;
    assert(0 <= step * index <= 0x1_FFFF_FFFF * 0xFFFF_FFFF) by (nonlinear_arith)
        requires
            0 <= step <= 0x1_FFFF_FFFF,
            0 <= index <= 0xFFFF_FFFF,
    ;
    let block: u128 = (step as u128) * (length as u128) - margin as u128;
    let start: u128 = (height as u128 - block) / 2;
    let offset: u128 = (step as u128) * (index as u128);
    (start + offset) as i32
}

/// Lays the measured lines out on a canvas `canvas_width` by
/// `canvas_height`: `sizes[i]` is the width and the height of line `i`.
/// Every line starts in the same column; the lines are stacked, each as
/// high as the tallest, `margin` rows apart, and the block is centred.
pub fn layout_text(canvas_width: u32, canvas_height: u32, sizes: &Vec<(u32, u32)>, margin: u32) -> (laid:
    Result<TextLayout, LayoutError>)
    requires
        canvas_width <= i32::MAX,
        canvas_height <= i32::MAX,
        sizes.len() <= u32::MAX,
    ensures
        match laid {
            Ok(layout) => {
                &&& layout_failure(canvas_width as int, canvas_height as int, sizes@, margin as int)
                    is None
                &&& layout.x == shared_start_x(canvas_width as int, sizes@)
                &&& layout.ys@.len() == sizes@.len()
                &&& forall|i: int|
                    0 <= i < sizes@.len() ==> #[trigger] layout.ys@[i] == start_height(
                        canvas_height as int,
                        sizes@.len() as int,
                        i,
                        tallest(sizes@),
                        margin as int,
                    )
            },
            Err(e) => layout_failure(
                canvas_width as int,
                canvas_height as int,
                sizes@,
                margin as int,
            ) == Some(e),
        },
{
    let n: usize = sizes.len();
    if n == 0 {
        return Err(LayoutError::NoText);
    }
    let mut wide: u32 = 0;
    let mut narrow: u32 = 0;
    let mut tall: u32 = 0;
    let mut i: usize = 0;
    assert(sizes@.take(0).len() == 0);
    while i < n
        invariant
            i <= n == sizes.len(),
            wide == widest(sizes@.take(i as int)),
            narrow == narrowest(sizes@.take(i as int)),
            tall == tallest(sizes@.take(i as int)),
        decreases n - i,
    {
        let (w, h) = sizes[i];
        assert(sizes@.take(i + 1).drop_last() == sizes@.take(i as int));
        assert(sizes@.take(i + 1).last() == sizes@[i as int]);
        if w > wide {
            wide = w;
        }
        if i == 0 || w <= narrow {
            narrow = w;
        }
        if h > tall {
            tall = h;
        }
        i = i + 1;
    }
    assert(sizes@.take(n as int) == sizes@);
    if wide > canvas_width {
        return Err(LayoutError::LineTooWide);
    }
    let step: u64 = tall as u64 + margin as u64;
    assert(0 <= step * n <= 0x1_FFFF_FFFF * 0xFFFF_FFFF) by (nonlinear_arith)
        requires
            0 <= step <= 0x1_FFFF_FFFF,
            0 <= n <= 0xFFFF_FFFF,
    ;
    assert(step * n >= step) by (nonlinear_arith)
        requires
            step >= 0,
            n >= 1,
    ;
    let block: u128 = (step as u128) * (n as u128) - margin as u128;
    if block > canvas_height as u128 {
        return Err(LayoutError::BlockTooHigh);
    }
    proof {
        lemma_width_bounds(sizes@);
    }
    let x: u32 = ((canvas_width - wide) / 2 + (canvas_width - narrow) / 2) / 2;
    let mut ys: Vec<i32> = Vec::new();
    let mut k: usize = 0;
    while k < n
        invariant
            k <= n == sizes.len(),
            n <= u32::MAX,
            canvas_height <= i32::MAX,
            tall == tallest(sizes@),
            0 <= block_height(n as int, tall as int, margin as int) <= canvas_height,
            ys@.len() == k,
            forall|i: int|
                0 <= i < k ==> #[trigger] ys@[i] == start_height(
                    canvas_height as int,
                    n as int,
                    i,
                    tall as int,
                    margin as int,
                ),
        decreases n - k,
    {
        assert(start_height(
            canvas_height as int,
            n as int,
            k as int,
            tall as int,
            margin as int,
        ) <= canvas_height) by (nonlinear_arith)
            requires
                0 <= k < n,
                0 <= (tall + margin) * n - margin <= canvas_height,
                tall >= 0,
                margin >= 0,
                start_height(canvas_height as int, n as int, k as int, tall as int, margin as int)
                    == (canvas_height - ((tall + margin) * n - margin)) / 2 + (tall + margin) * k,
        ;
        let y: i32 = get_start_height(canvas_height, n as u32, k as u32, tall, margin);
        ys.push(y);
        k = k + 1;
    }
    Ok(TextLayout { x: x as i32, ys })
}

} // verus!
