//! The texture bank: a memoizing cache from (pattern code, palette code,
//! symmetry) triples to rendered bitmaps, generated exactly once per key and
//! shared by reference counting thereafter.

use std::rc::Rc;

use vstd::prelude::*;

use crate::bgsp_common::{
    draw, spec_eff_dims, spec_texture_image, Code, Palette, Symmetry, NUM_PALETTE_COL,
    PATTERN_SIZE, PIXEL_SCALE_MAX,
};
use crate::imageops::{spec_blit, spec_covered};
use crate::rgba_image::{
    lemma_from_fn_pixel, lemma_image_ext, ImageView, Rgba, RgbaImage,
};

verus! {

/// Largest accepted pattern side, in cells: keeps every rendered bitmap
/// comfortably inside machine limits at any accepted pixel scale.
pub const MAX_PATTERN_CELLS: u32 = 512;

/// One pattern table entry: width and height in cells, and the packed pixel
/// words.
pub open spec fn spec_wf_pattern(p: Option<(u32, u32, Vec<u64>)>) -> bool {
    match p {
        None => true,
        Some(t) => t.0 <= MAX_PATTERN_CELLS && t.1 <= MAX_PATTERN_CELLS && t.2@.len() == t.0 as int
            * t.1 as int * 8,
    }
}

/// The pixel scale accepted at construction: coerced into
/// `[1, PIXEL_SCALE_MAX]`.
pub open spec fn spec_clamp_scale(s: int) -> int {
    if s < 1 {
        1
    } else if s > PIXEL_SCALE_MAX as int {
        PIXEL_SCALE_MAX as int
    } else {
        s
    }
}

/// Mathematical model of a texture bank: the immutable tables, the clamped
/// pixel scale, and the cached keys in insertion order.
#[verifier::ext_equal]
pub ghost struct BankView {
    pub patterns: Seq<Option<(u32, u32, Vec<u64>)>>,
    pub palettes: Seq<Seq<Rgba>>,
    pub scale: int,
    pub cached: Seq<(Code, Palette, Symmetry)>,
}

impl BankView {
    /// The scale is in range and every pattern entry is well formed.
    pub open spec fn wf(self) -> bool {
        &&& 1 <= self.scale <= PIXEL_SCALE_MAX as int
        &&& forall|i: int| 0 <= i < self.patterns.len() ==> spec_wf_pattern(#[trigger] self.patterns[i])
        &&& forall|i: int| 0 <= i < self.palettes.len() ==> (#[trigger] self.palettes[i]).len()
            == NUM_PALETTE_COL as int
        &&& self.cached.no_duplicates()
    }

    /// What `texture` resolves a key to, independent of the cache: `None`
    /// for a code outside the table, a hole in the table, or a zero-area
    /// effective footprint or missing palette row; otherwise the rendered
    /// bitmap of the pattern under that palette, symmetry and scale.
    pub open spec fn spec_texture(self, code: Code, palette: Palette, s: Symmetry) -> Option<
        ImageView,
    > {
        if code as int >= self.patterns.len() {
            None
        } else {
            match self.patterns[code as int] {
                None => None,
                Some(t) => {
                    let eff = spec_eff_dims(s, t.0 as int, t.1 as int);
                    if eff.0 <= 0 || eff.1 <= 0 {
                        None
                    } else if palette as int >= self.palettes.len() {
                        None
                    } else {
                        Some(
                            spec_texture_image(
                                t.0 as int,
                                t.1 as int,
                                t.2@,
                                self.palettes[palette as int],
                                s,
                                self.scale,
                                self.scale,
                            ),
                        )
                    }
                },
            }
        }
    }
}

/// Two banks with the same tables and scale resolve every key to the same
/// bitmap, whatever their caches hold: the cache can only memoize.
pub proof fn lemma_texture_deterministic(
    a: BankView,
    b: BankView,
    code: Code,
    palette: Palette,
    s: Symmetry,
)
    requires
        a.patterns == b.patterns,
        a.palettes == b.palettes,
        a.scale == b.scale,
    ensures
        a.spec_texture(code, palette, s) == b.spec_texture(code, palette, s),
{
}

/// A pattern code outside the populated range of the table never resolves
/// to a texture.
pub proof fn lemma_missing_pattern_no_texture(v: BankView, code: Code, palette: Palette, s: Symmetry)
    requires
        code as int >= v.patterns.len() || v.patterns[code as int] is None,
    ensures
        v.spec_texture(code, palette, s) is None,
{
}

/// The bank invariant includes well-formedness of the model.
pub proof fn lemma_inv_implies_wf(bank: &TextureBank)
    requires
        bank.inv(),
    ensures
        bank@.wf(),
{
}

/// A key that resolves to a texture resolves to a well-formed image.
pub proof fn lemma_spec_texture_wf(v: BankView, code: Code, palette: Palette, s: Symmetry)
    requires
        v.wf(),
        v.spec_texture(code, palette, s) is Some,
    ensures
        v.spec_texture(code, palette, s)->Some_0.wf(),
{
    let t = v.patterns[code as int]->Some_0;
    let eff = spec_eff_dims(s, t.0 as int, t.1 as int);
    assert(spec_wf_pattern(v.patterns[code as int]));
    crate::imageops::lemma_mul_le(eff.0 * 8, v.scale, 4096, 8);
    crate::imageops::lemma_mul_le(eff.1 * 8, v.scale, 4096, 8);
    lemma_from_fn_pixel(
        eff.0 * 8 * v.scale,
        eff.1 * 8 * v.scale,
        crate::bgsp_common::spec_pattern_fn(
            t.0 as int,
            t.1 as int,
            t.2@,
            v.palettes[palette as int],
            s,
            v.scale,
            v.scale,
        ),
    );
}

/// Blitting `top` over an equally sized image at the origin yields `top`.
proof fn lemma_blit_exact(bottom: ImageView, top: ImageView)
    requires
        bottom.wf(),
        top.wf(),
        bottom.width == top.width,
        bottom.height == top.height,
    ensures
        spec_blit(bottom, top, 0, 0, false) == top,
{
    let f = |px: int, py: int|
        if spec_covered(top, 0, 0, px, py) {
            crate::imageops::spec_combined(false, top.pixel(px - 0, py - 0), bottom.pixel(px, py))
        } else {
            bottom.pixel(px, py)
        };
    lemma_from_fn_pixel(bottom.width, bottom.height, f);
    lemma_image_ext(spec_blit(bottom, top, 0, 0, false), top);
}

/// The texture bank. It owns the immutable pattern and palette tables, the
/// fixed pixel scale, and the cache of rendered bitmaps.
pub struct TextureBank {
    pattern_tbl: Vec<Option<(u32, u32, Vec<u64>)>>,
    palette_tbl: Vec<[Rgba; NUM_PALETTE_COL]>,
    pixel_scale: i32,
    texture_cache: Vec<((Code, Palette, Symmetry), Rc<RgbaImage>)>,
}

impl View for TextureBank {
    type V = BankView;

    closed spec fn view(&self) -> BankView {
        BankView {
            patterns: self.pattern_tbl@,
            palettes: Seq::new(self.palette_tbl@.len(), |i: int| self.palette_tbl@[i]@),
            scale: self.pixel_scale as int,
            cached: Seq::new(self.texture_cache@.len(), |i: int| self.texture_cache@[i].0),
        }
    }
}

impl TextureBank {
    /// The view is well formed and every cache entry holds exactly the
    /// bitmap that a fresh render of its key would produce.
    pub closed spec fn inv(self) -> bool {
        &&& self@.wf()
        &&& forall|i: int|
            0 <= i < self.texture_cache@.len() ==> self@.spec_texture(
                (#[trigger] self.texture_cache@[i]).0.0,
                self.texture_cache@[i].0.1,
                self.texture_cache@[i].0.2,
            ) == Some(self.texture_cache@[i].1@)
    }

    /// A bank over the given tables, with the pixel scale coerced into
    /// `[1, PIXEL_SCALE_MAX]` and an empty cache.
    pub fn new(
        pattern_tbl: Vec<Option<(u32, u32, Vec<u64>)>>,
        palette_tbl: Vec<[Rgba; NUM_PALETTE_COL]>,
        pixel_scale: i32,
    ) -> (bank: TextureBank)
        requires
            forall|i: int| 0 <= i < pattern_tbl@.len() ==> spec_wf_pattern(#[trigger] pattern_tbl@[i]),
        ensures
            bank.inv(),
            bank@.patterns == pattern_tbl@,
            bank@.palettes == Seq::new(palette_tbl@.len(), |i: int| palette_tbl@[i]@),
            bank@.scale == spec_clamp_scale(pixel_scale as int),
            bank@.cached.len() == 0,
    {
        let scale = if pixel_scale < 1 {
            1
        } else if pixel_scale > PIXEL_SCALE_MAX {
            PIXEL_SCALE_MAX
        } else {
            pixel_scale
        };
        let bank = TextureBank {
            pattern_tbl,
            palette_tbl,
            pixel_scale: scale,
            texture_cache: Vec::new(),
        };
        proof {
            assert(bank@.cached =~= Seq::<(Code, Palette, Symmetry)>::empty());
        }
        bank
    }

    /// The pixel scale every texture is rendered at.
    pub fn pixel_scale(&self) -> (s: i32)
        ensures
            s as int == self@.scale,
    {
        self.pixel_scale
    }

    /// Drops every cached entry; bitmaps already handed out stay valid.
    /// Future lookups render afresh.
    pub fn clear_cache(&mut self)
        requires
            old(self).inv(),
        ensures
            final(self).inv(),
            final(self)@.patterns == old(self)@.patterns,
            final(self)@.palettes == old(self)@.palettes,
            final(self)@.scale == old(self)@.scale,
            final(self)@.cached.len() == 0,
    {
        self.texture_cache.clear();
        proof {
            assert(self@.cached =~= Seq::<(Code, Palette, Symmetry)>::empty());
        }
    }

    /// Number of distinct keys currently cached.
    pub fn cashed_num(&self) -> (n: usize)
        ensures
            n as int == self@.cached.len(),
    {
        self.texture_cache.len()
    }

    /// The rendered bitmap for a key: a shared handle to the cached bitmap
    /// on a hit, and on a miss a fresh render that is cached before it is
    /// returned; `None` when the key resolves to nothing, which callers
    /// treat as "skip this draw".
    #[verifier::loop_isolation(false)]
    pub fn texture(&mut self, pattern_no: Code, palette_no: Palette, symmetry: Symmetry) -> (r:
        Option<Rc<RgbaImage>>)
        requires
            old(self).inv(),
        ensures
            final(self).inv(),
            final(self)@.patterns == old(self)@.patterns,
            final(self)@.palettes == old(self)@.palettes,
            final(self)@.scale == old(self)@.scale,
            match r {
                Some(img) => old(self)@.spec_texture(pattern_no, palette_no, symmetry) == Some(img@)
                    && img@.wf(),
                None => old(self)@.spec_texture(pattern_no, palette_no, symmetry) is None,
            },
            r is Some <==> old(self)@.spec_texture(pattern_no, palette_no, symmetry) is Some,
            r is Some ==> final(self)@.cached.contains((pattern_no, palette_no, symmetry)),
            old(self)@.cached.contains((pattern_no, palette_no, symmetry)) || r is None
                ==> final(self)@.cached == old(self)@.cached,
            !old(self)@.cached.contains((pattern_no, palette_no, symmetry)) && r is Some
                ==> final(self)@.cached == old(self)@.cached.push(
                (pattern_no, palette_no, symmetry),
            ),
    {
        let ghost key = (pattern_no, palette_no, symmetry);
        let n = self.texture_cache.len();
        let mut i: usize = 0;
        while i < n
            invariant
                0 <= i <= n,
                n == self.texture_cache@.len(),
                forall|j: int| 0 <= j < i ==> #[trigger] self@.cached[j] != key,
            decreases n - i,
        {
            let e = &self.texture_cache[i];
            if e.0.0 == pattern_no && e.0.1 == palette_no && e.0.2 == symmetry {
                proof {
                    let entry = self.texture_cache@[i as int];
                    assert(*e == entry);
                    assert(entry.0.0 == pattern_no && entry.0.1 == palette_no && entry.0.2
                        == symmetry);
                    assert(self@.spec_texture(entry.0.0, entry.0.1, entry.0.2) == Some(entry.1@));
                    assert(entry.0 =~= key);
                    assert(self@.cached[i as int] == key);
                    assert(self@.cached.contains(key));
                    lemma_spec_texture_wf(self@, pattern_no, palette_no, symmetry);
                }
                return Some(rc_image_clone(&e.1));
            }
            i = i + 1;
        }
        proof {
            assert(!old(self)@.cached.contains(key));
        }
        if pattern_no as usize >= self.pattern_tbl.len() {
            return None;
        }
        let w: u32;
        let h: u32;
        match &self.pattern_tbl[pattern_no as usize] {
            None => {
                return None;
            },
            Some(info) => {
                w = info.0;
                h = info.1;
            },
        }
        let (ew, eh) = if !symmetry.has_rotate90() {
            (w, h)
        } else {
            (h, w)
        };
        if ew == 0 || eh == 0 {
            return None;
        }
        if palette_no as usize >= self.palette_tbl.len() {
            return None;
        }
        proof {
            assert(spec_wf_pattern(self@.patterns[pattern_no as int]));
        }
        let scale: u32 = self.pixel_scale as u32;
        proof {
            crate::imageops::lemma_mul_le(ew as int * 8, scale as int, 4096, 8);
            crate::imageops::lemma_mul_le(eh as int * 8, scale as int, 4096, 8);
        }
        let tw: u32 = ew * PATTERN_SIZE * scale;
        let th: u32 = eh * PATTERN_SIZE * scale;
        proof {
            crate::imageops::lemma_mul_le(tw as int, th as int, 0x8000, 0x8000);
        }
        let mut buffer = RgbaImage::new(tw, th);
        let ghost blank = buffer@;
        let ghost palette_row = self@.palettes[palette_no as int];
        let ghost t_img = crate::bgsp_common::spec_texture_image(
            w as int,
            h as int,
            self@.patterns[pattern_no as int]->Some_0.2@,
            palette_row,
            symmetry,
            scale as int,
            scale as int,
        );
        match &self.pattern_tbl[pattern_no as usize] {
            None => {
                return None;
            },
            Some(info) => {
                draw(
                    (w, h),
                    &info.2,
                    &self.palette_tbl[palette_no as usize],
                    symmetry,
                    (0, 0),
                    (scale, scale),
                    &mut buffer,
                );
            },
        }
        proof {
            lemma_from_fn_pixel(
                tw as int,
                th as int,
                crate::bgsp_common::spec_pattern_fn(
                    w as int,
                    h as int,
                    old(self)@.patterns[pattern_no as int]->Some_0.2@,
                    palette_row,
                    symmetry,
                    scale as int,
                    scale as int,
                ),
            );
            lemma_blit_exact(blank, t_img);
            assert(buffer@ == t_img);
            assert(old(self)@.spec_texture(pattern_no, palette_no, symmetry) == Some(buffer@));
        }
        let rc = Rc::new(buffer);
        let result = Some(rc_image_clone(&rc));
        self.texture_cache.push(((pattern_no, palette_no, symmetry), rc));
        proof {
            assert(self@.patterns == old(self)@.patterns);
            assert(self@.palettes =~= old(self)@.palettes);
            assert(self@.cached =~= old(self)@.cached.push(key));
            assert(self@.cached[self@.cached.len() - 1] == key);
            assert(self@.cached.contains(key));
            assert forall|a: int, b: int| 0 <= a < b < self@.cached.len() implies self@.cached[a]
                != self@.cached[b] by {
                if b == self@.cached.len() - 1 {
                    assert(self@.cached[b] == key);
                    assert(!old(self)@.cached.contains(key));
                    assert(old(self)@.cached[a] == self@.cached[a]);
                }
            }
        }
        result
    }
}

/// A second shared handle to the same reference-counted bitmap.
fn rc_image_clone(img: &Rc<RgbaImage>) -> (r: Rc<RgbaImage>)
    ensures
        r == *img,
{
    img.clone()
}

} // verus!
