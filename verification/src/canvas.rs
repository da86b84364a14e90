//! The pixel canvas: an `image::RgbaImage`, seen through its dimensions and
//! a map from coordinates to channel values.

use vstd::prelude::*;

verus! {

/// A rectangular buffer of RGBA pixels with 8-bit channels, held as an
/// `image::RgbaImage`. Its contents are known only through [`image_width`],
/// [`image_height`] and [`image_pixels`].
#[verifier::external_body]
pub struct Canvas {
    img: image::RgbaImage,
}

/// The width of a canvas in pixels.
pub uninterp spec fn image_width(img: Canvas) -> int;

/// The height of a canvas in pixels.
pub uninterp spec fn image_height(img: Canvas) -> int;

/// The pixels of a canvas: at `(x, y)` the red, green, blue and alpha channel
/// of the pixel in column `x` and row `y`, for the coordinates inside the
/// canvas.
pub uninterp spec fn image_pixels(img: Canvas) -> Map<
    (int, int),
    (u8, u8, u8, u8),
>;

/// The alpha channel of the pixel at `(x, y)`.
pub open spec fn alpha_at(img: Canvas, x: int, y: int) -> u8 {
    image_pixels(img)[(x, y)].3
}

/// `ImageBuffer::width`: the canvas's width.
#[verifier::external_body]
pub(crate) fn width(img: &Canvas) -> (w: u32)
    ensures
        w == image_width(*img),
{
    img.img.width()
}

/// `ImageBuffer::height`: the canvas's height.
#[verifier::external_body]
pub(crate) fn height(img: &Canvas) -> (h: u32)
    ensures
        h == image_height(*img),
{
    img.img.height()
}

/// `ImageBuffer::get_pixel`: the four channels of the pixel at `(x, y)`,
/// which must lie inside the canvas.
#[verifier::external_body]
pub(crate) fn pixel(img: &Canvas, x: u32, y: u32) -> (p: (u8, u8, u8, u8))
    requires
        x < image_width(*img),
        y < image_height(*img),
    ensures
        p == image_pixels(*img)[(x as int, y as int)],
{
    let c = img.img.get_pixel(x, y).0;
    (c[0], c[1], c[2], c[3])
}

/// `ImageBuffer::put_pixel`: replaces the pixel at `(x, y)`, which must lie
/// inside the canvas, and leaves the dimensions and every other pixel alone.
#[verifier::external_body]
pub(crate) fn set_pixel(img: &mut Canvas, x: u32, y: u32, p: (u8, u8, u8, u8))
    requires
        x < image_width(*old(img)),
        y < image_height(*old(img)),
    ensures
        image_width(*final(img)) == image_width(*old(img)),
        image_height(*final(img)) == image_height(*old(img)),
        image_pixels(*final(img)) == image_pixels(*old(img)).insert((x as int, y as int), p),
{
    img.img.put_pixel(x, y, image::Rgba([p.0, p.1, p.2, p.3]));
}

/// `ImageBuffer::new`: a canvas of the given dimensions whose every channel
/// is zero. The buffer of `4 * w * h` bytes must be one a `Vec` can hold.
#[verifier::external_body]
pub(crate) fn blank(w: u32, h: u32) -> (img: Canvas)
    requires
        4 * w * h <= isize::MAX,
    ensures
        image_width(img) == w,
        image_height(img) == h,
        forall|x: int, y: int|
            0 <= x < w && 0 <= y < h ==> #[trigger] image_pixels(img)[(x, y)] == (0u8, 0u8, 0u8, 0u8),
{
    Canvas { img: image::RgbaImage::new(w, h) }
}

impl Canvas {
    /// A canvas of the given dimensions with every channel zero, or `None`
    /// where its `4 * width * height` bytes are more than a buffer can hold.
    pub fn new(width: u32, height: u32) -> (made: Option<Canvas>)
        ensures
            made is Some <==> 4 * width * height <= isize::MAX,
            made is Some ==> {
                let img = made->Some_0;
                &&& image_width(img) == width
                &&& image_height(img) == height
                &&& forall|x: int, y: int|
                    0 <= x < width && 0 <= y < height ==> #[trigger] image_pixels(img)[(x, y)] == (
                        0u8,
                        0u8,
                        0u8,
                        0u8,
                    )
            },
    {
        let area: u64 = area_of(width, height);
        assert(4 * width * height == 4 * (width * height)) by (nonlinear_arith);
        if area <= (isize::MAX as u64) / 4 {
            Some(blank(width, height))
        } else {
            None
        }
    }

    /// The width in pixels.
    pub fn width(&self) -> (w: u32)
        ensures
            w == image_width(*self),
    {
        width(self)
    }

    /// The height in pixels.
    pub fn height(&self) -> (h: u32)
        ensures
            h == image_height(*self),
    {
        height(self)
    }

    /// The red, green, blue and alpha channel of the pixel at `(x, y)`, or
    /// `None` where that lies outside the canvas.
    pub fn get_pixel(&self, x: u32, y: u32) -> (p: Option<(u8, u8, u8, u8)>)
        ensures
            p == (if x < image_width(*self) && y < image_height(*self) {
                Some(image_pixels(*self)[(x as int, y as int)])
            } else {
                None
            }),
    {
        if x < width(self) && y < height(self) {
            Some(pixel(self, x, y))
        } else {
            None
        }
    }

    /// Replaces the pixel at `(x, y)` and says `true`; outside the canvas it
    /// changes nothing and says `false`.
    pub fn put_pixel(&mut self, x: u32, y: u32, p: (u8, u8, u8, u8)) -> (done: bool)
        ensures
            done == (x < image_width(*old(self)) && y < image_height(*old(self))),
            image_width(*final(self)) == image_width(*old(self)),
            image_height(*final(self)) == image_height(*old(self)),
            image_pixels(*final(self)) == (if done {
                image_pixels(*old(self)).insert((x as int, y as int), p)
            } else {
                image_pixels(*old(self))
            }),
    {
        if x < width(self) && y < height(self) {
            set_pixel(self, x, y, p);
            true
        } else {
            false
        }
    }
}

/// The number of pixels of a `width` by `height` canvas.
pub fn area_of(width: u32, height: u32) -> (area: u64)
    ensures
        area == width * height,
{
    assert(width * height <= 0xFFFF_FFFF * 0xFFFF_FFFF) by (nonlinear_arith)
        requires
            width <= 0xFFFF_FFFF,
            height <= 0xFFFF_FFFF,
    ;
    (width as u64) * (height as u64)
}

/// What `image::imageops::overlay` leaves in the bottom image: the pixels of
/// `bottom`, `bottom_width` by `bottom_height`, after `top`, `top_width` by
/// `top_height`, was blended over them with its top-left corner at `(x, y)`.
pub uninterp spec fn overlaid_pixels(
    bottom: Map<(int, int), (u8, u8, u8, u8)>,
    bottom_width: int,
    bottom_height: int,
    top: Map<(int, int), (u8, u8, u8, u8)>,
    top_width: int,
    top_height: int,
    x: int,
    y: int,
) -> Map<(int, int), (u8, u8, u8, u8)>;

/// Whether `(tx, ty)` is a pixel of an image `width` by `height`.
pub open spec fn inside(tx: int, ty: int, width: int, height: int) -> bool {
    0 <= tx < width && 0 <= ty < height
}

/// `image::imageops::overlay`: blends `top` over `bottom` with its top-left
/// corner at `(x, y)`; what lies outside `bottom` is clipped. The dimensions
/// of `bottom` stay, and its pixels become those named by
/// [`overlaid_pixels`]. Of these the contract says: a pixel that `top` does
/// not cover, or covers with alpha 0, stays as it was, and one that `top`
/// covers with alpha 255 becomes the pixel of `top`.
#[verifier::external_body]
pub(crate) fn overlay(bottom: &mut Canvas, top: &Canvas, x: i64, y: i64)
    ensures
        image_width(*final(bottom)) == image_width(*old(bottom)),
        image_height(*final(bottom)) == image_height(*old(bottom)),
        image_pixels(*final(bottom)) == overlaid_pixels(
            image_pixels(*old(bottom)),
            image_width(*old(bottom)),
            image_height(*old(bottom)),
            image_pixels(*top),
            image_width(*top),
            image_height(*top),
            x as int,
            y as int,
        ),
        forall|px: int, py: int|
            inside(px, py, image_width(*old(bottom)), image_height(*old(bottom))) ==> {
                let before = image_pixels(*old(bottom))[(px, py)];
                let after = #[trigger] image_pixels(*final(bottom))[(px, py)];
                let over = image_pixels(*top)[(px - x, py - y)];
                if inside(px - x, py - y, image_width(*top), image_height(*top)) {
                    (over.3 == 0 ==> after == before) && (over.3 == 255 ==> after == over)
                } else {
                    after == before
                }
            },
{
    image::imageops::overlay(&mut bottom.img, &top.img, x, y);
}

/// Whether every pixel of row `y` has the alpha value `alpha`.
pub open spec fn row_is_empty(img: Canvas, y: int, alpha: u8) -> bool {
    forall|x: int| 0 <= x < image_width(img) ==> #[trigger] alpha_at(img, x, y) == alpha
}

/// Whether every pixel of column `x` has the alpha value `alpha`.
pub open spec fn column_is_empty(img: Canvas, x: int, alpha: u8) -> bool {
    forall|y: int| 0 <= y < image_height(img) ==> #[trigger] alpha_at(img, x, y) == alpha
}

/// Tells whether row `line` holds nothing but pixels of alpha `alpha`.
pub fn is_empty_line(line: u32, img: &Canvas, alpha: u8) -> (empty: bool)
    requires
        line < image_height(*img),
    ensures
        empty == row_is_empty(*img, line as int, alpha),
{
    let w: u32 = width(img);
    let mut i: u32 = 0;
    while i < w
        invariant
            w == image_width(*img),
            line < image_height(*img),
            i <= w,
            forall|x: int| 0 <= x < i ==> #[trigger] alpha_at(*img, x, line as int) == alpha,
        decreases w - i,
    {
        let p = pixel(img, i, line);
        if p.3 != alpha {
            assert(alpha_at(*img, i as int, line as int) != alpha);
            return false;
        }
        i = i + 1;
    }
    true
}

/// Tells whether column `column` holds nothing but pixels of alpha `alpha`.
pub fn is_empty_column(column: u32, img: &Canvas, alpha: u8) -> (empty: bool)
    requires
        column < image_width(*img),
    ensures
        empty == column_is_empty(*img, column as int, alpha),
{
    let h: u32 = height(img);
    let mut i: u32 = 0;
    while i < h
        invariant
            h == image_height(*img),
            column < image_width(*img),
            i <= h,
            forall|y: int| 0 <= y < i ==> #[trigger] alpha_at(*img, column as int, y) == alpha,
        decreases h - i,
    {
        let p = pixel(img, column, i);
        if p.3 != alpha {
            assert(alpha_at(*img, column as int, i as int) != alpha);
            return false;
        }
        i = i + 1;
    }
    true
}

} // verus!
