//! Shared value types and constants: pattern geometry, identifier aliases,
//! the finite symmetry group (rotations and flips) applied to patterns, and
//! the decode/blit primitive that turns raw packed pattern data into a
//! transformed, scaled pixel rectangle.

use vstd::prelude::*;

use crate::imageops::{
    lemma_blit_upto_full, lemma_blit_upto_row, lemma_blit_upto_step, lemma_blit_upto_zero,
    spec_blit, spec_blit_upto,
};
use crate::rgba_image::{lemma_from_fn_pixel, lemma_image_ext, spec_transparent, ImageView, Rgba, RgbaImage};

verus! {

/// Side length, in pixels, of one pattern cell.
pub const PATTERN_SIZE: u32 = 8;

/// Number of colors in one palette row.
pub const NUM_PALETTE_COL: usize = 16;

/// Largest accepted integer upscaling factor.
pub const PIXEL_SCALE_MAX: i32 = 8;

/// Pattern code: index into the pattern table.
pub type Code = u32;

/// Palette code: index into the palette table.
pub type Palette = u32;

/// Pattern code: index into the pattern table.
pub type BgCode = u32;

/// Palette code: index into the palette table.
pub type BgPalette = u32;

/// Symmetry applied to a background cell.
pub type BgSymmetry = Symmetry;

/// Pattern code of a sprite.
pub type SpCode = u32;

/// Palette code of a sprite.
pub type SpPalette = u32;

/// Symmetry applied to a sprite.
pub type SpSymmetry = Symmetry;

/// An element of the symmetry group of the square: a horizontal mirror
/// applied first (for the `Mirror*` variants), then a counted quarter-turn
/// rotation.
#[derive(Clone, Copy, Debug, PartialEq, Eq, Structural)]
pub enum Symmetry {
    Normal,
    Rotate90,
    Rotate180,
    Rotate270,
    Mirror,
    MirrorRotate90,
    MirrorRotate180,
    MirrorRotate270,
}

/// Whether the symmetry includes the horizontal mirror.
pub open spec fn spec_mirrored(s: Symmetry) -> bool {
    match s {
        Symmetry::Normal => false,
        Symmetry::Rotate90 => false,
        Symmetry::Rotate180 => false,
        Symmetry::Rotate270 => false,
        Symmetry::Mirror => true,
        Symmetry::MirrorRotate90 => true,
        Symmetry::MirrorRotate180 => true,
        Symmetry::MirrorRotate270 => true,
    }
}

/// Number of quarter turns applied after the optional mirror.
pub open spec fn spec_rotation(s: Symmetry) -> int {
    match s {
        Symmetry::Normal => 0,
        Symmetry::Rotate90 => 1,
        Symmetry::Rotate180 => 2,
        Symmetry::Rotate270 => 3,
        Symmetry::Mirror => 0,
        Symmetry::MirrorRotate90 => 1,
        Symmetry::MirrorRotate180 => 2,
        Symmetry::MirrorRotate270 => 3,
    }
}

/// The symmetry with the given mirror flag and quarter-turn count.
pub open spec fn spec_from_parts(mirrored: bool, rotation: int) -> Symmetry {
    if !mirrored {
        if rotation == 0 {
            Symmetry::Normal
        } else if rotation == 1 {
            Symmetry::Rotate90
        } else if rotation == 2 {
            Symmetry::Rotate180
        } else {
            Symmetry::Rotate270
        }
    } else {
        if rotation == 0 {
            Symmetry::Mirror
        } else if rotation == 1 {
            Symmetry::MirrorRotate90
        } else if rotation == 2 {
            Symmetry::MirrorRotate180
        } else {
            Symmetry::MirrorRotate270
        }
    }
}

/// Group composition: `spec_compose(a, b)` is the transform that applies `a`
/// first and then `b`.
pub open spec fn spec_compose(a: Symmetry, b: Symmetry) -> Symmetry {
    if spec_mirrored(b) {
        spec_from_parts(!spec_mirrored(a), (spec_rotation(b) - spec_rotation(a) + 4) % 4)
    } else {
        spec_from_parts(spec_mirrored(a), (spec_rotation(a) + spec_rotation(b)) % 4)
    }
}

/// Whether the symmetry turns the pattern by an odd number of quarter turns,
/// so that its pixel footprint is transposed.
pub open spec fn spec_has_rotate90(s: Symmetry) -> bool {
    spec_rotation(s) == 1 || spec_rotation(s) == 3
}

impl Symmetry {
    /// Whether the symmetry includes the horizontal mirror.
    pub fn is_mirrored(self) -> (r: bool)
        ensures
            r == spec_mirrored(self),
    {
        match self {
            Symmetry::Mirror => true,
            Symmetry::MirrorRotate90 => true,
            Symmetry::MirrorRotate180 => true,
            Symmetry::MirrorRotate270 => true,
            _ => false,
        }
    }

    /// Number of quarter turns applied after the optional mirror.
    pub fn rotation(self) -> (r: u8)
        ensures
            r as int == spec_rotation(self),
    {
        match self {
            Symmetry::Normal => 0,
            Symmetry::Rotate90 => 1,
            Symmetry::Rotate180 => 2,
            Symmetry::Rotate270 => 3,
            Symmetry::Mirror => 0,
            Symmetry::MirrorRotate90 => 1,
            Symmetry::MirrorRotate180 => 2,
            Symmetry::MirrorRotate270 => 3,
        }
    }

    /// The symmetry with the given mirror flag and quarter-turn count.
    pub fn from_parts(mirrored: bool, rotation: u8) -> (r: Symmetry)
        requires
            rotation < 4,
        ensures
            r == spec_from_parts(mirrored, rotation as int),
    {
        if !mirrored {
            if rotation == 0 {
                Symmetry::Normal
            } else if rotation == 1 {
                Symmetry::Rotate90
            } else if rotation == 2 {
                Symmetry::Rotate180
            } else {
                Symmetry::Rotate270
            }
        } else {
            if rotation == 0 {
                Symmetry::Mirror
            } else if rotation == 1 {
                Symmetry::MirrorRotate90
            } else if rotation == 2 {
                Symmetry::MirrorRotate180
            } else {
                Symmetry::MirrorRotate270
            }
        }
    }

    /// Group composition: the transform that applies `self` first, then
    /// `other`.
    pub fn compose(self, other: Symmetry) -> (r: Symmetry)
        ensures
            r == spec_compose(self, other),
    {
        let m1 = self.is_mirrored();
        let r1 = self.rotation();
        let m2 = other.is_mirrored();
        let r2 = other.rotation();
        if m2 {
            Symmetry::from_parts(!m1, (r2 + 4 - r1) % 4)
        } else {
            Symmetry::from_parts(m1, (r1 + r2) % 4)
        }
    }

    /// Whether the symmetry transposes the pattern's pixel footprint.
    pub fn has_rotate90(self) -> (r: bool)
        ensures
            r == spec_has_rotate90(self),
    {
        match self {
            Symmetry::Rotate90 => true,
            Symmetry::Rotate270 => true,
            Symmetry::MirrorRotate90 => true,
            Symmetry::MirrorRotate270 => true,
            _ => false,
        }
    }

    /// A fixed symmetry other than the default one, used to seed sentinel
    /// values that must not compare equal to a default-initialized cell.
    pub fn non_default() -> (r: Symmetry)
        ensures
            r == Symmetry::Rotate180,
            r != Symmetry::Normal,
    {
        Symmetry::Rotate180
    }
}

impl Default for Symmetry {
    /// The identity transform.
    fn default() -> (r: Symmetry)
        ensures
            r == Symmetry::Normal,
    {
        Symmetry::Normal
    }
}

/// Effective footprint of a pattern under a symmetry, in pattern cells: a
/// quarter-turn-class rotation transposes the rectangle.
pub open spec fn spec_eff_dims(s: Symmetry, w: int, h: int) -> (int, int) {
    if spec_has_rotate90(s) {
        (h, w)
    } else {
        (w, h)
    }
}

/// Source pixel of a transformed pattern: the pattern pixel that lands on
/// coordinate `(ex, ey)` of the transformed image, for a source pixel grid
/// of `w0 x h0`.
pub open spec fn spec_source_coords(s: Symmetry, ex: int, ey: int, w0: int, h0: int) -> (int, int) {
    match s {
        Symmetry::Normal => (ex, ey),
        Symmetry::Rotate90 => (ey, h0 - 1 - ex),
        Symmetry::Rotate180 => (w0 - 1 - ex, h0 - 1 - ey),
        Symmetry::Rotate270 => (w0 - 1 - ey, ex),
        Symmetry::Mirror => (w0 - 1 - ex, ey),
        Symmetry::MirrorRotate90 => (w0 - 1 - ey, h0 - 1 - ex),
        Symmetry::MirrorRotate180 => (ex, h0 - 1 - ey),
        Symmetry::MirrorRotate270 => (ey, ex),
    }
}

/// Color index of pattern pixel `(px, py)`: the pattern packs one byte per
/// pixel, eight pixels to a `u64` word (leftmost pixel in the highest
/// byte), `w` words to a pixel row; the low four bits of the byte select
/// the palette color, index zero meaning transparent.
pub open spec fn spec_pattern_index(w: int, data: Seq<u64>, px: int, py: int) -> u64 {
    let word = data[py * w + px / 8];
    let byte = (word >> (((7 - (px % 8)) * 8) as u64)) & 0xff;
    byte & 0x0f
}

/// Decoded color of pattern pixel `(px, py)` under a palette row.
pub open spec fn spec_pattern_color(w: int, data: Seq<u64>, palette: Seq<Rgba>, px: int, py: int) -> Rgba {
    let i = spec_pattern_index(w, data, px, py);
    if i == 0 {
        spec_transparent()
    } else {
        palette[i as int]
    }
}

/// Pixel `(dx, dy)` of the transformed, scaled rendering of a `w x h` cell
/// pattern: undo the integer upscale, then map through the symmetry, then
/// decode.
pub open spec fn spec_pattern_pixel(
    w: int,
    h: int,
    data: Seq<u64>,
    palette: Seq<Rgba>,
    s: Symmetry,
    sx: int,
    sy: int,
    dx: int,
    dy: int,
) -> Rgba {
    let src = spec_source_coords(s, dx / sx, dy / sy, w * 8, h * 8);
    spec_pattern_color(w, data, palette, src.0, src.1)
}

/// The pixel generator of the transformed, scaled rendering.
pub open spec fn spec_pattern_fn(
    w: int,
    h: int,
    data: Seq<u64>,
    palette: Seq<Rgba>,
    s: Symmetry,
    sx: int,
    sy: int,
) -> spec_fn(int, int) -> Rgba {
    |dx: int, dy: int| spec_pattern_pixel(w, h, data, palette, s, sx, sy, dx, dy)
}

/// The complete transformed, scaled rendering of a `w x h` cell pattern.
pub open spec fn spec_texture_image(
    w: int,
    h: int,
    data: Seq<u64>,
    palette: Seq<Rgba>,
    s: Symmetry,
    sx: int,
    sy: int,
) -> ImageView {
    ImageView::from_fn(
        spec_eff_dims(s, w, h).0 * 8 * sx,
        spec_eff_dims(s, w, h).1 * 8 * sy,
        spec_pattern_fn(w, h, data, palette, s, sx, sy),
    )
}

/// The result of drawing a pattern into `dest` at `(ox, oy)`: the target
/// rectangle holds the transformed, scaled rendering, and every other pixel
/// is unchanged.
pub open spec fn spec_draw(
    dest: ImageView,
    w: int,
    h: int,
    data: Seq<u64>,
    palette: Seq<Rgba>,
    s: Symmetry,
    ox: int,
    oy: int,
    sx: int,
    sy: int,
) -> ImageView {
    spec_blit(dest, spec_texture_image(w, h, data, palette, s, sx, sy), ox, oy, false)
}

/// A non-negative value below `n * d` divides by `d` to below `n`.
pub(crate) proof fn lemma_div_below(x: int, d: int, n: int)
    requires
        0 <= x,
        0 < d,
        x < n * d,
    ensures
        0 <= x / d < n,
{
    vstd::arithmetic::div_mod::lemma_div_pos_is_pos(x, d);
    vstd::arithmetic::div_mod::lemma_fundamental_div_mod(x, d);
    vstd::arithmetic::div_mod::lemma_mod_bound(x, d);
    assert(x / d < n) by (nonlinear_arith)
        requires
            0 < d,
            x == d * (x / d) + x % d,
            0 <= x % d < d,
            x < n * d,
    ;
}

/// `Symmetry::Normal` is the identity of the composition.
pub proof fn lemma_compose_identity(s: Symmetry)
    ensures
        spec_compose(s, Symmetry::Normal) == s,
        spec_compose(Symmetry::Normal, s) == s,
{
}

/// The composition is associative.
pub proof fn lemma_compose_assoc(a: Symmetry, b: Symmetry, c: Symmetry)
    ensures
        spec_compose(spec_compose(a, b), c) == spec_compose(a, spec_compose(b, c)),
{
}

/// The pattern pixel that lands on `(ex, ey)` of the transformed image.
fn source_coords(s: Symmetry, ex: u32, ey: u32, w0: u32, h0: u32) -> (r: (u32, u32))
    requires
        w0 >= 1,
        h0 >= 1,
        spec_has_rotate90(s) ==> ex < h0 && ey < w0,
        !spec_has_rotate90(s) ==> ex < w0 && ey < h0,
    ensures
        r.0 < w0,
        r.1 < h0,
        r.0 as int == spec_source_coords(s, ex as int, ey as int, w0 as int, h0 as int).0,
        r.1 as int == spec_source_coords(s, ex as int, ey as int, w0 as int, h0 as int).1,
{
    match s {
        Symmetry::Normal => (ex, ey),
        Symmetry::Rotate90 => (ey, h0 - 1 - ex),
        Symmetry::Rotate180 => (w0 - 1 - ex, h0 - 1 - ey),
        Symmetry::Rotate270 => (w0 - 1 - ey, ex),
        Symmetry::Mirror => (w0 - 1 - ex, ey),
        Symmetry::MirrorRotate90 => (w0 - 1 - ey, h0 - 1 - ex),
        Symmetry::MirrorRotate180 => (ex, h0 - 1 - ey),
        Symmetry::MirrorRotate270 => (ey, ex),
    }
}

/// Decodes one pattern pixel of the transformed, scaled rendering.
fn decode_pixel(
    w: u32,
    h: u32,
    data: &Vec<u64>,
    palette: &[Rgba; NUM_PALETTE_COL],
    symmetry: Symmetry,
    scale: (u32, u32),
    dx: u32,
    dy: u32,
) -> (c: Rgba)
    requires
        w >= 1,
        h >= 1,
        w as int * 8 <= u32::MAX,
        h as int * 8 <= u32::MAX,
        data@.len() == w as int * h as int * 8,
        scale.0 >= 1,
        scale.1 >= 1,
        (dx as int) < spec_eff_dims(symmetry, w as int, h as int).0 * 8 * scale.0 as int,
        (dy as int) < spec_eff_dims(symmetry, w as int, h as int).1 * 8 * scale.1 as int,
    ensures
        c == spec_pattern_pixel(
            w as int,
            h as int,
            data@,
            palette@,
            symmetry,
            scale.0 as int,
            scale.1 as int,
            dx as int,
            dy as int,
        ),
{
    let w0: u32 = w * 8;
    let h0: u32 = h * 8;
    proof {
        if spec_has_rotate90(symmetry) {
            lemma_div_below(dx as int, scale.0 as int, h0 as int);
            lemma_div_below(dy as int, scale.1 as int, w0 as int);
        } else {
            lemma_div_below(dx as int, scale.0 as int, w0 as int);
            lemma_div_below(dy as int, scale.1 as int, h0 as int);
        }
    }
    let ex: u32 = dx / scale.0;
    let ey: u32 = dy / scale.1;
    let src = source_coords(symmetry, ex, ey, w0, h0);
    let sx: u32 = src.0;
    let sy: u32 = src.1;
    proof {
        lemma_div_below(sx as int, 8, w as int);
        crate::rgba_image::lemma_rowmajor_compose(
            sx as int / 8,
            sy as int,
            w as int,
            h0 as int,
        );
        assert(w as int * (h0 as int) == w as int * h as int * 8) by (nonlinear_arith)
            requires
                h0 == h * 8,
        ;
    }
    let n: usize = data.len();
    let wx: u32 = sx / 8;
    let widx: usize = (sy as usize) * (w as usize) + (wx as usize);
    let word: u64 = data[widx];
    let sh: u32 = (7 - (sx % 8)) * 8;
    let byte: u64 = (word >> (sh as u64)) & 0xff;
    let ci: u64 = byte & 0x0f;
    proof {
        assert(byte & 0x0f < 16) by (bit_vector);
    }
    if ci == 0 {
        Rgba::transparent()
    } else {
        palette[ci as usize]
    }
}

/// Fills the target rectangle of `dest` at `offset` with the transformed,
/// scaled rendering of a packed `pattern_dims` cell pattern under a palette
/// row: the decode/blit primitive behind every texture.
#[verifier::loop_isolation(false)]
pub fn draw(
    pattern_dims: (u32, u32),
    data: &Vec<u64>,
    palette: &[Rgba; NUM_PALETTE_COL],
    symmetry: Symmetry,
    offset: (u32, u32),
    scale: (u32, u32),
    dest: &mut RgbaImage,
)
    requires
        old(dest)@.wf(),
        pattern_dims.0 >= 1,
        pattern_dims.1 >= 1,
        pattern_dims.0 as int * 8 <= u32::MAX,
        pattern_dims.1 as int * 8 <= u32::MAX,
        data@.len() == pattern_dims.0 as int * pattern_dims.1 as int * 8,
        scale.0 >= 1,
        scale.1 >= 1,
        offset.0 as int + spec_eff_dims(symmetry, pattern_dims.0 as int, pattern_dims.1 as int).0
            * 8 * scale.0 as int <= old(dest)@.width,
        offset.1 as int + spec_eff_dims(symmetry, pattern_dims.0 as int, pattern_dims.1 as int).1
            * 8 * scale.1 as int <= old(dest)@.height,
    ensures
        final(dest)@ == spec_draw(
            old(dest)@,
            pattern_dims.0 as int,
            pattern_dims.1 as int,
            data@,
            palette@,
            symmetry,
            offset.0 as int,
            offset.1 as int,
            scale.0 as int,
            scale.1 as int,
        ),
        final(dest)@.wf(),
{
    let w = pattern_dims.0;
    let h = pattern_dims.1;
    let (ew, eh) = if symmetry.has_rotate90() {
        (h, w)
    } else {
        (w, h)
    };
    proof {
        assert(ew as int * 8 <= ew as int * 8 * scale.0 as int && eh as int * 8 <= eh as int * 8
            * scale.1 as int) by (nonlinear_arith)
            requires
                scale.0 >= 1,
                scale.1 >= 1,
                ew >= 0,
                eh >= 0,
        ;
    }
    let tw: u32 = ew * 8 * scale.0;
    let th: u32 = eh * 8 * scale.1;
    let ghost top = spec_texture_image(
        w as int,
        h as int,
        data@,
        palette@,
        symmetry,
        scale.0 as int,
        scale.1 as int,
    );
    proof {
        lemma_from_fn_pixel(
            tw as int,
            th as int,
            spec_pattern_fn(
                w as int,
                h as int,
                data@,
                palette@,
                symmetry,
                scale.0 as int,
                scale.1 as int,
            ),
        );
        lemma_blit_upto_zero(old(dest)@, top, offset.0 as int, offset.1 as int, false);
    }
    let mut ty: u32 = 0;
    while ty < th
        invariant
            0 <= ty <= th,
            dest@.wf(),
            dest@ == spec_blit_upto(
                old(dest)@,
                top,
                offset.0 as int,
                offset.1 as int,
                false,
                ty as int,
                0,
            ),
        decreases th - ty,
    {
        let mut tx: u32 = 0;
        while tx < tw
            invariant
                0 <= tx <= tw,
                0 <= ty < th,
                dest@.wf(),
                dest@ == spec_blit_upto(
                    old(dest)@,
                    top,
                    offset.0 as int,
                    offset.1 as int,
                    false,
                    ty as int,
                    tx as int,
                ),
            decreases tw - tx,
        {
            proof {
                lemma_blit_upto_step(
                    old(dest)@,
                    top,
                    offset.0 as int,
                    offset.1 as int,
                    false,
                    ty as int,
                    tx as int,
                );
            }
            let c = decode_pixel(w, h, data, palette, symmetry, scale, tx, ty);
            dest.set_pixel(offset.0 + tx, offset.1 + ty, c);
            proof {
                lemma_image_ext(
                    dest@,
                    spec_blit_upto(
                        old(dest)@,
                        top,
                        offset.0 as int,
                        offset.1 as int,
                        false,
                        ty as int,
                        tx as int + 1,
                    ),
                );
            }
            tx = tx + 1;
        }
        proof {
            lemma_blit_upto_row(old(dest)@, top, offset.0 as int, offset.1 as int, false, ty as int);
        }
        ty = ty + 1;
    }
    proof {
        lemma_blit_upto_full(old(dest)@, top, offset.0 as int, offset.1 as int, false);
    }
}

} // verus!
