//! Pixel bitmaps: an RGBA color value and an owned, row-major image buffer,
//! modeled in specifications by `ImageView`.

use vstd::prelude::*;

verus! {

/// One pixel: red, green, blue and alpha channels.
#[derive(Clone, Copy, Debug, PartialEq, Eq, Structural)]
pub struct Rgba {
    pub r: u8,
    pub g: u8,
    pub b: u8,
    pub a: u8,
}

/// The fully transparent black pixel that fresh images are filled with.
pub open spec fn spec_transparent() -> Rgba {
    Rgba { r: 0, g: 0, b: 0, a: 0 }
}

impl Rgba {
    /// A pixel with the given channels.
    pub fn new(r: u8, g: u8, b: u8, a: u8) -> (c: Rgba)
        ensures
            c == (Rgba { r, g, b, a }),
    {
        Rgba { r, g, b, a }
    }

    /// The fully transparent black pixel.
    pub fn transparent() -> (c: Rgba)
        ensures
            c == spec_transparent(),
    {
        Rgba { r: 0, g: 0, b: 0, a: 0 }
    }
}

impl Default for Rgba {
    /// The fully transparent black pixel.
    fn default() -> (c: Rgba)
        ensures
            c == spec_transparent(),
    {
        Rgba { r: 0, g: 0, b: 0, a: 0 }
    }
}

/// Mathematical model of an image: dimensions and a row-major pixel sequence.
#[verifier::ext_equal]
pub ghost struct ImageView {
    pub width: int,
    pub height: int,
    pub pixels: Seq<Rgba>,
}

impl ImageView {
    /// Dimensions are non-negative, fit the machine, and the pixel sequence
    /// covers them.
    pub open spec fn wf(self) -> bool {
        0 <= self.width <= u32::MAX && 0 <= self.height <= u32::MAX && self.pixels.len()
            == self.width * self.height
    }

    /// Whether `(x, y)` lies inside the image.
    pub open spec fn in_bounds(self, x: int, y: int) -> bool {
        0 <= x < self.width && 0 <= y < self.height
    }

    /// The pixel at column `x` of row `y`.
    pub open spec fn pixel(self, x: int, y: int) -> Rgba {
        self.pixels[y * self.width + x]
    }

    /// The image of the given dimensions whose pixel at `(x, y)` is
    /// `f(x, y)`.
    pub open spec fn from_fn(width: int, height: int, f: spec_fn(int, int) -> Rgba) -> ImageView {
        ImageView {
            width,
            height,
            pixels: Seq::new((width * height) as nat, |i: int| f(i % width, i / width)),
        }
    }
}

/// An image built by `ImageView::from_fn` is well formed and reads back the
/// generating function at every in-bounds coordinate.
pub proof fn lemma_from_fn_pixel(width: int, height: int, f: spec_fn(int, int) -> Rgba)
    requires
        0 <= width <= u32::MAX,
        0 <= height <= u32::MAX,
    ensures
        ImageView::from_fn(width, height, f).wf(),
        ImageView::from_fn(width, height, f).width == width,
        ImageView::from_fn(width, height, f).height == height,
        forall|x: int, y: int|
            0 <= x < width && 0 <= y < height ==> #[trigger] ImageView::from_fn(
                width,
                height,
                f,
            ).pixel(x, y) == f(x, y),
{
    assert(width * height >= 0) by (nonlinear_arith)
        requires
            width >= 0,
            height >= 0,
    ;
    assert forall|x: int, y: int| 0 <= x < width && 0 <= y < height implies #[trigger] ImageView::from_fn(
        width,
        height,
        f,
    ).pixel(x, y) == f(x, y) by {
        lemma_rowmajor_compose(x, y, width, height);
    }
}

/// Row-major flattening: a pixel index below `w * h` decomposes into a
/// column below `w` and a row below `h`.
pub proof fn lemma_rowmajor_decompose(i: int, w: int, h: int)
    requires
        0 < w,
        0 <= i < w * h,
    ensures
        0 <= i % w < w,
        0 <= i / w < h,
        (i / w) * w + i % w == i,
{
    vstd::arithmetic::div_mod::lemma_fundamental_div_mod(i, w);
    vstd::arithmetic::div_mod::lemma_mod_bound(i, w);
    assert((i / w) * w == w * (i / w)) by (nonlinear_arith);
    assert(0 <= i / w < h) by (nonlinear_arith)
        requires
            0 < w,
            0 <= i < w * h,
    ;
}

/// Row-major flattening: the index of column `x` of row `y` is below
/// `w * h`, and decomposes back into `x` and `y`.
pub proof fn lemma_rowmajor_compose(x: int, y: int, w: int, h: int)
    requires
        0 <= x < w,
        0 <= y < h,
    ensures
        0 <= y * w + x < w * h,
        (y * w + x) % w == x,
        (y * w + x) / w == y,
{
    assert(0 <= y * w + x < w * h) by (nonlinear_arith)
        requires
            0 <= x < w,
            0 <= y < h,
    ;
    vstd::arithmetic::div_mod::lemma_fundamental_div_mod_converse(y * w + x, w, y, x);
}

/// Two well-formed images of equal dimensions with equal pixels are equal.
pub proof fn lemma_image_ext(a: ImageView, b: ImageView)
    requires
        a.wf(),
        b.wf(),
        a.width == b.width,
        a.height == b.height,
        forall|x: int, y: int| a.in_bounds(x, y) ==> a.pixel(x, y) == b.pixel(x, y),
    ensures
        a == b,
{
    assert forall|i: int| 0 <= i < a.pixels.len() implies a.pixels[i] == b.pixels[i] by {
        assert(a.width > 0) by (nonlinear_arith)
            requires
                0 <= i < a.width * a.height,
                0 <= a.width,
        ;
        lemma_rowmajor_decompose(i, a.width, a.height);
        assert(a.pixel(i % a.width, i / a.width) == b.pixel(i % a.width, i / a.width));
    }
    assert(a.pixels =~= b.pixels);
    assert(a =~= b);
}

/// An owned RGBA image with row-major pixel storage.
pub struct RgbaImage {
    width: u32,
    height: u32,
    pixels: Vec<Rgba>,
}

impl View for RgbaImage {
    type V = ImageView;

    closed spec fn view(&self) -> ImageView {
        ImageView { width: self.width as int, height: self.height as int, pixels: self.pixels@ }
    }
}

impl RgbaImage {
    /// A fresh image of the given dimensions, fully transparent.
    pub fn new(width: u32, height: u32) -> (img: RgbaImage)
        requires
            width as int * height as int <= usize::MAX as int,
        ensures
            img@.wf(),
            img@.width == width as int,
            img@.height == height as int,
            forall|x: int, y: int| img@.in_bounds(x, y) ==> img@.pixel(x, y) == spec_transparent(),
    {
        let n: usize = (width as usize) * (height as usize);
        let pixels: Vec<Rgba> = vec![Rgba::transparent(); n];
        let img = RgbaImage { width, height, pixels };
        proof {
            assert forall|x: int, y: int| img@.in_bounds(x, y) implies img@.pixel(x, y)
                == spec_transparent() by {
                lemma_rowmajor_compose(x, y, img@.width, img@.height);
            }
        }
        img
    }

    /// The image width in pixels.
    pub fn width(&self) -> (w: u32)
        ensures
            w as int == self@.width,
    {
        self.width
    }

    /// The image height in pixels.
    pub fn height(&self) -> (h: u32)
        ensures
            h as int == self@.height,
    {
        self.height
    }

    /// The pixel at column `x` of row `y`.
    pub fn pixel(&self, x: u32, y: u32) -> (c: Rgba)
        requires
            self@.wf(),
            self@.in_bounds(x as int, y as int),
        ensures
            c == self@.pixel(x as int, y as int),
    {
        let n: usize = self.pixels.len();
        proof {
            lemma_rowmajor_compose(x as int, y as int, self@.width, self@.height);
        }
        let i: usize = (y as usize) * (self.width as usize) + (x as usize);
        self.pixels[i]
    }

    /// Overwrites the pixel at column `x` of row `y`.
    pub fn set_pixel(&mut self, x: u32, y: u32, c: Rgba)
        requires
            old(self)@.wf(),
            old(self)@.in_bounds(x as int, y as int),
        ensures
            final(self)@.wf(),
            final(self)@.width == old(self)@.width,
            final(self)@.height == old(self)@.height,
            final(self)@.pixels == old(self)@.pixels.update(
                y as int * old(self)@.width + x as int,
                c,
            ),
            final(self)@.pixel(x as int, y as int) == c,
            forall|px: int, py: int|
                old(self)@.in_bounds(px, py) && !(px == x as int && py == y as int)
                    ==> final(self)@.pixel(px, py) == old(self)@.pixel(px, py),
    {
        let n: usize = self.pixels.len();
        proof {
            lemma_rowmajor_compose(x as int, y as int, self@.width, self@.height);
        }
        let i: usize = (y as usize) * (self.width as usize) + (x as usize);
        self.pixels[i] = c;
        proof {
            assert forall|px: int, py: int|
                old(self)@.in_bounds(px, py) && !(px == x as int && py == y as int) implies self@.pixel(
                px,
                py,
            ) == old(self)@.pixel(px, py) by {
                lemma_rowmajor_compose(px, py, old(self)@.width, old(self)@.height);
                lemma_rowmajor_compose(x as int, y as int, old(self)@.width, old(self)@.height);
            }
        }
    }
}

} // verus!
