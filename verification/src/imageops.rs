//! Blitting primitives: copying or alpha-compositing one image into another
//! at a signed offset, with clipping at the destination edges.

use vstd::prelude::*;

use crate::rgba_image::{
    lemma_from_fn_pixel, lemma_image_ext, ImageView, Rgba, RgbaImage,
};

verus! {

/// `x * y` is bounded by the product of the bounds.
pub(crate) proof fn lemma_mul_le(x: int, y: int, bx: int, by: int)
    requires
        0 <= x <= bx,
        0 <= y <= by,
    ensures
        0 <= x * y <= bx * by,
{
    assert(0 <= x * y <= bx * by) by (nonlinear_arith)
        requires
            0 <= x <= bx,
            0 <= y <= by,
    ;
}

/// Integer alpha compositing of `top` over `bottom`: each color channel is
/// the alpha-weighted average, and the result alpha adds the bottom alpha
/// scaled by the remaining transparency.
pub open spec fn spec_blend(top: Rgba, bottom: Rgba) -> Rgba {
    let a = top.a as int;
    Rgba {
        r: ((top.r as int * a + bottom.r as int * (255 - a)) / 255) as u8,
        g: ((top.g as int * a + bottom.g as int * (255 - a)) / 255) as u8,
        b: ((top.b as int * a + bottom.b as int * (255 - a)) / 255) as u8,
        a: (a + bottom.a as int * (255 - a) / 255) as u8,
    }
}

/// A fully opaque `top` replaces `bottom`; a fully transparent `top` leaves
/// `bottom` unchanged.
pub proof fn lemma_blend_extremes(top: Rgba, bottom: Rgba)
    ensures
        top.a == 255 ==> spec_blend(top, bottom) == top,
        top.a == 0 ==> spec_blend(top, bottom) == bottom,
{
    if top.a == 255 {
        assert(top.r as int * 255 + bottom.r as int * (255 - 255) == 255 * (top.r as int))
            by (nonlinear_arith);
        assert(top.g as int * 255 + bottom.g as int * (255 - 255) == 255 * (top.g as int))
            by (nonlinear_arith);
        assert(top.b as int * 255 + bottom.b as int * (255 - 255) == 255 * (top.b as int))
            by (nonlinear_arith);
        assert(bottom.a as int * (255 - 255) == 0) by (nonlinear_arith);
        vstd::arithmetic::div_mod::lemma_div_multiples_vanish(top.r as int, 255);
        vstd::arithmetic::div_mod::lemma_div_multiples_vanish(top.g as int, 255);
        vstd::arithmetic::div_mod::lemma_div_multiples_vanish(top.b as int, 255);
        vstd::arithmetic::div_mod::lemma_div_of0(255);
    }
    if top.a == 0 {
        assert(top.r as int * 0 + bottom.r as int * (255 - 0) == 255 * (bottom.r as int))
            by (nonlinear_arith);
        assert(top.g as int * 0 + bottom.g as int * (255 - 0) == 255 * (bottom.g as int))
            by (nonlinear_arith);
        assert(top.b as int * 0 + bottom.b as int * (255 - 0) == 255 * (bottom.b as int))
            by (nonlinear_arith);
        assert(bottom.a as int * (255 - 0) == 255 * (bottom.a as int)) by (nonlinear_arith);
        vstd::arithmetic::div_mod::lemma_div_multiples_vanish(bottom.r as int, 255);
        vstd::arithmetic::div_mod::lemma_div_multiples_vanish(bottom.g as int, 255);
        vstd::arithmetic::div_mod::lemma_div_multiples_vanish(bottom.b as int, 255);
        vstd::arithmetic::div_mod::lemma_div_multiples_vanish(bottom.a as int, 255);
    }
}

/// One channel value blended in executable integer arithmetic.
fn blend_channel(t: u8, b: u8, a: u32) -> (c: u8)
    requires
        a <= 255,
    ensures
        c as int == (t as int * a as int + b as int * (255 - a as int)) / 255,
{
    let na: u32 = 255 - a;
    proof {
        lemma_mul_le(t as int, a as int, 255, a as int);
        lemma_mul_le(b as int, na as int, 255, na as int);
        vstd::arithmetic::div_mod::lemma_div_is_ordered(
            t as int * a as int + b as int * na as int,
            65025,
            255,
        );
        vstd::arithmetic::div_mod::lemma_div_pos_is_pos(
            t as int * a as int + b as int * na as int,
            255,
        );
    }
    let num: u32 = t as u32 * a + b as u32 * na;
    (num / 255) as u8
}

/// Alpha compositing of `top` over `bottom` in executable arithmetic.
pub fn blend(top: Rgba, bottom: Rgba) -> (c: Rgba)
    ensures
        c == spec_blend(top, bottom),
{
    let a: u32 = top.a as u32;
    let na: u32 = 255 - a;
    let r = blend_channel(top.r, bottom.r, a);
    let g = blend_channel(top.g, bottom.g, a);
    let b = blend_channel(top.b, bottom.b, a);
    proof {
        lemma_mul_le(bottom.a as int, na as int, 255, 255);
        lemma_mul_le(bottom.a as int, na as int, 255, na as int);
        vstd::arithmetic::div_mod::lemma_div_is_ordered(
            bottom.a as int * na as int,
            255 * na as int,
            255,
        );
        vstd::arithmetic::div_mod::lemma_div_multiples_vanish(na as int, 255);
        vstd::arithmetic::div_mod::lemma_div_pos_is_pos(bottom.a as int * na as int, 255);
    }
    let al: u32 = a + bottom.a as u32 * na / 255;
    Rgba::new(r, g, b, al as u8)
}

/// How a blit combines one incoming pixel with the pixel already present:
/// plain overwrite, or alpha compositing.
pub open spec fn spec_combined(blendmode: bool, t: Rgba, b: Rgba) -> Rgba {
    if blendmode {
        spec_blend(t, b)
    } else {
        t
    }
}

/// Whether destination coordinate `(px, py)` is covered by a copy of `top`
/// placed at `(x, y)`.
pub open spec fn spec_covered(top: ImageView, x: int, y: int, px: int, py: int) -> bool {
    x <= px < x + top.width && y <= py < y + top.height
}

/// The result of blitting `top` into `bottom` at `(x, y)`: covered pixels
/// are combined, everything else is unchanged, and anything outside the
/// destination is clipped away.
pub open spec fn spec_blit(
    bottom: ImageView,
    top: ImageView,
    x: int,
    y: int,
    blendmode: bool,
) -> ImageView {
    ImageView::from_fn(
        bottom.width,
        bottom.height,
        |px: int, py: int|
            if spec_covered(top, x, y, px, py) {
                spec_combined(blendmode, top.pixel(px - x, py - y), bottom.pixel(px, py))
            } else {
                bottom.pixel(px, py)
            },
    )
}

/// The blit restricted to the top pixels before row `rows`, plus the pixels
/// of row `rows` before column `cols` — the state in the middle of the
/// row-major blit loop.
pub open spec fn spec_blit_upto(
    bottom: ImageView,
    top: ImageView,
    x: int,
    y: int,
    blendmode: bool,
    rows: int,
    cols: int,
) -> ImageView {
    ImageView::from_fn(
        bottom.width,
        bottom.height,
        |px: int, py: int|
            if spec_covered(top, x, y, px, py) && (py - y < rows || (py - y == rows && px - x
                < cols)) {
                spec_combined(blendmode, top.pixel(px - x, py - y), bottom.pixel(px, py))
            } else {
                bottom.pixel(px, py)
            },
    )
}

/// Before any top pixel is processed the destination is unchanged.
pub(crate) proof fn lemma_blit_upto_zero(bottom: ImageView, top: ImageView, x: int, y: int, blendmode: bool)
    requires
        bottom.wf(),
    ensures
        spec_blit_upto(bottom, top, x, y, blendmode, 0, 0) == bottom,
{
    lemma_from_fn_pixel(
        bottom.width,
        bottom.height,
        |px: int, py: int|
            if spec_covered(top, x, y, px, py) && (py - y < 0 || (py - y == 0 && px - x < 0)) {
                spec_combined(blendmode, top.pixel(px - x, py - y), bottom.pixel(px, py))
            } else {
                bottom.pixel(px, py)
            },
    );
    lemma_image_ext(spec_blit_upto(bottom, top, x, y, blendmode, 0, 0), bottom);
}

/// Processing top pixel `(c, r)` changes at most its destination pixel, to
/// the combination of that top pixel with the original destination pixel.
pub(crate) proof fn lemma_blit_upto_step(
    bottom: ImageView,
    top: ImageView,
    x: int,
    y: int,
    blendmode: bool,
    r: int,
    c: int,
)
    requires
        bottom.wf(),
        top.wf(),
        0 <= r < top.height,
        0 <= c < top.width,
    ensures
        spec_blit_upto(bottom, top, x, y, blendmode, r, c + 1).wf(),
        spec_blit_upto(bottom, top, x, y, blendmode, r, c + 1).width == bottom.width,
        spec_blit_upto(bottom, top, x, y, blendmode, r, c + 1).height == bottom.height,
        forall|px: int, py: int|
            bottom.in_bounds(px, py) ==> #[trigger] spec_blit_upto(
                bottom,
                top,
                x,
                y,
                blendmode,
                r,
                c + 1,
            ).pixel(px, py) == if px == x + c && py == y + r {
                spec_combined(blendmode, top.pixel(c, r), bottom.pixel(px, py))
            } else {
                spec_blit_upto(bottom, top, x, y, blendmode, r, c).pixel(px, py)
            },
        bottom.in_bounds(x + c, y + r) ==> spec_blit_upto(bottom, top, x, y, blendmode, r, c).pixel(
            x + c,
            y + r,
        ) == bottom.pixel(x + c, y + r),
{
    let f1 = |px: int, py: int|
        if spec_covered(top, x, y, px, py) && (py - y < r || (py - y == r && px - x < c + 1)) {
            spec_combined(blendmode, top.pixel(px - x, py - y), bottom.pixel(px, py))
        } else {
            bottom.pixel(px, py)
        };
    let f0 = |px: int, py: int|
        if spec_covered(top, x, y, px, py) && (py - y < r || (py - y == r && px - x < c)) {
            spec_combined(blendmode, top.pixel(px - x, py - y), bottom.pixel(px, py))
        } else {
            bottom.pixel(px, py)
        };
    lemma_from_fn_pixel(bottom.width, bottom.height, f1);
    lemma_from_fn_pixel(bottom.width, bottom.height, f0);
}

/// Finishing a row is the same as standing at the start of the next row.
pub(crate) proof fn lemma_blit_upto_row(
    bottom: ImageView,
    top: ImageView,
    x: int,
    y: int,
    blendmode: bool,
    r: int,
)
    requires
        bottom.wf(),
        top.wf(),
    ensures
        spec_blit_upto(bottom, top, x, y, blendmode, r, top.width) == spec_blit_upto(
            bottom,
            top,
            x,
            y,
            blendmode,
            r + 1,
            0,
        ),
{
    let f1 = |px: int, py: int|
        if spec_covered(top, x, y, px, py) && (py - y < r || (py - y == r && px - x < top.width)) {
            spec_combined(blendmode, top.pixel(px - x, py - y), bottom.pixel(px, py))
        } else {
            bottom.pixel(px, py)
        };
    let f0 = |px: int, py: int|
        if spec_covered(top, x, y, px, py) && (py - y < r + 1 || (py - y == r + 1 && px - x < 0)) {
            spec_combined(blendmode, top.pixel(px - x, py - y), bottom.pixel(px, py))
        } else {
            bottom.pixel(px, py)
        };
    lemma_from_fn_pixel(bottom.width, bottom.height, f1);
    lemma_from_fn_pixel(bottom.width, bottom.height, f0);
    lemma_image_ext(
        spec_blit_upto(bottom, top, x, y, blendmode, r, top.width),
        spec_blit_upto(bottom, top, x, y, blendmode, r + 1, 0),
    );
}

/// Having processed every top row completes the blit.
pub(crate) proof fn lemma_blit_upto_full(bottom: ImageView, top: ImageView, x: int, y: int, blendmode: bool)
    requires
        bottom.wf(),
        top.wf(),
    ensures
        spec_blit_upto(bottom, top, x, y, blendmode, top.height, 0) == spec_blit(
            bottom,
            top,
            x,
            y,
            blendmode,
        ),
{
    let f1 = |px: int, py: int|
        if spec_covered(top, x, y, px, py) && (py - y < top.height || (py - y == top.height && px
            - x < 0)) {
            spec_combined(blendmode, top.pixel(px - x, py - y), bottom.pixel(px, py))
        } else {
            bottom.pixel(px, py)
        };
    let f0 = |px: int, py: int|
        if spec_covered(top, x, y, px, py) {
            spec_combined(blendmode, top.pixel(px - x, py - y), bottom.pixel(px, py))
        } else {
            bottom.pixel(px, py)
        };
    lemma_from_fn_pixel(bottom.width, bottom.height, f1);
    lemma_from_fn_pixel(bottom.width, bottom.height, f0);
    lemma_image_ext(
        spec_blit_upto(bottom, top, x, y, blendmode, top.height, 0),
        spec_blit(bottom, top, x, y, blendmode),
    );
}

/// Row-major blit of `top` into `bottom` at offset `(x, y)`, clipped to the
/// destination, combining pixels as `blendmode` says.
#[verifier::loop_isolation(false)]
fn blit(bottom: &mut RgbaImage, top: &RgbaImage, x: i64, y: i64, blendmode: bool)
    requires
        old(bottom)@.wf(),
        top@.wf(),
        -0x1000_0000_0000 <= x <= 0x1000_0000_0000,
        -0x1000_0000_0000 <= y <= 0x1000_0000_0000,
    ensures
        final(bottom)@ == spec_blit(old(bottom)@, top@, x as int, y as int, blendmode),
        final(bottom)@.wf(),
{
    let bw = bottom.width();
    let bh = bottom.height();
    let tw = top.width();
    let th = top.height();
    proof {
        lemma_blit_upto_zero(old(bottom)@, top@, x as int, y as int, blendmode);
    }
    let mut ty: u32 = 0;
    while ty < th
        invariant
            0 <= ty <= th,
            bottom@.wf(),
            bottom@ == spec_blit_upto(old(bottom)@, top@, x as int, y as int, blendmode, ty as int, 0),
        decreases th - ty,
    {
        let mut tx: u32 = 0;
        while tx < tw
            invariant
                0 <= tx <= tw,
                0 <= ty < th,
                bottom@.wf(),
                bottom@ == spec_blit_upto(
                    old(bottom)@,
                    top@,
                    x as int,
                    y as int,
                    blendmode,
                    ty as int,
                    tx as int,
                ),
            decreases tw - tx,
        {
            proof {
                lemma_blit_upto_step(
                    old(bottom)@,
                    top@,
                    x as int,
                    y as int,
                    blendmode,
                    ty as int,
                    tx as int,
                );
            }
            let px: i64 = x + tx as i64;
            let py: i64 = y + ty as i64;
            if 0 <= px && px < bw as i64 && 0 <= py && py < bh as i64 {
                let t = top.pixel(tx, ty);
                let under = bottom.pixel(px as u32, py as u32);
                let c = if blendmode {
                    blend(t, under)
                } else {
                    t
                };
                bottom.set_pixel(px as u32, py as u32, c);
                proof {
                    lemma_image_ext(
                        bottom@,
                        spec_blit_upto(
                            old(bottom)@,
                            top@,
                            x as int,
                            y as int,
                            blendmode,
                            ty as int,
                            tx as int + 1,
                        ),
                    );
                }
            } else {
                proof {
                    lemma_image_ext(
                        bottom@,
                        spec_blit_upto(
                            old(bottom)@,
                            top@,
                            x as int,
                            y as int,
                            blendmode,
                            ty as int,
                            tx as int + 1,
                        ),
                    );
                }
            }
            tx = tx + 1;
        }
        proof {
            lemma_blit_upto_row(old(bottom)@, top@, x as int, y as int, blendmode, ty as int);
        }
        ty = ty + 1;
    }
    proof {
        lemma_blit_upto_full(old(bottom)@, top@, x as int, y as int, blendmode);
    }
}

/// Copies `top` verbatim into `bottom` at `(x, y)`, clipped to the
/// destination; covered pixels are overwritten, alpha included.
pub fn replace(bottom: &mut RgbaImage, top: &RgbaImage, x: i64, y: i64)
    requires
        old(bottom)@.wf(),
        top@.wf(),
        -0x1000_0000_0000 <= x <= 0x1000_0000_0000,
        -0x1000_0000_0000 <= y <= 0x1000_0000_0000,
    ensures
        final(bottom)@ == spec_blit(old(bottom)@, top@, x as int, y as int, false),
        final(bottom)@.wf(),
{
    blit(bottom, top, x, y, false)
}

/// Alpha-composites `top` over `bottom` at `(x, y)`, clipped to the
/// destination.
pub fn overlay(bottom: &mut RgbaImage, top: &RgbaImage, x: i64, y: i64)
    requires
        old(bottom)@.wf(),
        top@.wf(),
        -0x1000_0000_0000 <= x <= 0x1000_0000_0000,
        -0x1000_0000_0000 <= y <= 0x1000_0000_0000,
    ensures
        final(bottom)@ == spec_blit(old(bottom)@, top@, x as int, y as int, true),
        final(bottom)@.wf(),
{
    blit(bottom, top, x, y, true)
}

} // verus!
