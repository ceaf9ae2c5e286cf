//! The sprite compositor: a fixed pool of sprite slots, rendered by sorting
//! the pool on a composite priority/index key and alpha-overlaying the
//! surviving sprites, highest key first, into a fresh viewport image.

use vstd::prelude::*;

use crate::bgsp_common::{spec_compose, SpSymmetry, Symmetry};
use crate::classic_sprite::{spec_default_sprite, ClassicSprite};
use crate::imageops::{overlay, spec_blit};
use crate::rgba_image::{
    lemma_from_fn_pixel, lemma_image_ext, spec_transparent, ImageView, RgbaImage,
};
use crate::texture_bank::{lemma_texture_deterministic, BankView, TextureBank};

verus! {

/// The composite sort key of the sprite in slot `idx`: priority in the
/// high bits, the slot index in the low 12 bits, so ties in priority are
/// broken by slot index.
pub open spec fn spec_sort_key(s: ClassicSprite, idx: int) -> int {
    s.priority * 4096 + idx
}

/// Strict lexicographic order on (key, slot index) pairs.
pub open spec fn spec_pair_lt(a: (int, int), b: (int, int)) -> bool {
    a.0 < b.0 || (a.0 == b.0 && a.1 < b.1)
}

/// Strictly ascending by `spec_pair_lt`.
pub open spec fn spec_pairs_sorted(s: Seq<(int, int)>) -> bool {
    forall|i: int, j: int| 0 <= i < j < s.len() ==> spec_pair_lt(#[trigger] s[i], #[trigger] s[j])
}

/// `x` inserted before the first strictly greater element of `s`.
pub open spec fn spec_insert_sorted(s: Seq<(int, int)>, x: (int, int)) -> Seq<(int, int)>
    decreases s.len(),
{
    if s.len() == 0 {
        seq![x]
    } else if spec_pair_lt(x, s[0]) {
        seq![x] + s
    } else {
        seq![s[0]] + spec_insert_sorted(s.drop_first(), x)
    }
}

/// The (key, index) pairs of the first `n` slots, in ascending key order.
pub open spec fn spec_order_keys(sprites: Seq<ClassicSprite>, n: int) -> Seq<(int, int)>
    decreases n,
{
    if n <= 0 {
        Seq::empty()
    } else {
        spec_insert_sorted(
            spec_order_keys(sprites, n - 1),
            (spec_sort_key(sprites[n - 1], n - 1), n - 1),
        )
    }
}

/// Inserting a fresh element keeps the pairs sorted, grows the length by
/// one, and adds exactly that element.
proof fn lemma_insert_sorted_props(s: Seq<(int, int)>, x: (int, int))
    requires
        spec_pairs_sorted(s),
        forall|j: int| 0 <= j < s.len() ==> #[trigger] s[j] != x,
    ensures
        spec_pairs_sorted(spec_insert_sorted(s, x)),
        spec_insert_sorted(s, x).len() == s.len() + 1,
        forall|e: (int, int)|
            #[trigger] spec_insert_sorted(s, x).contains(e) <==> (s.contains(e) || e == x),
    decreases s.len(),
{
    let r = spec_insert_sorted(s, x);
    if s.len() == 0 {
        assert forall|e: (int, int)| #[trigger] r.contains(e) <==> (s.contains(e) || e == x) by {
            if r.contains(e) {
                let k = choose|k: int| 0 <= k < r.len() && r[k] == e;
                assert(e == x);
            }
            if e == x {
                assert(r[0] == e);
            }
        }
    } else if spec_pair_lt(x, s[0]) {
        assert forall|i: int, j: int| 0 <= i < j < r.len() implies spec_pair_lt(
            #[trigger] r[i],
            #[trigger] r[j],
        ) by {
            if i > 0 {
                assert(r[i] == s[i - 1] && r[j] == s[j - 1]);
            } else {
                assert(r[j] == s[j - 1]);
                if j - 1 > 0 {
                    assert(spec_pair_lt(s[0], s[j - 1]));
                }
            }
        }
        assert forall|e: (int, int)| #[trigger] r.contains(e) <==> (s.contains(e) || e == x) by {
            if r.contains(e) {
                let k = choose|k: int| 0 <= k < r.len() && r[k] == e;
                if k > 0 {
                    assert(s[k - 1] == e);
                    assert(s.contains(e));
                }
            }
            if s.contains(e) {
                let k = choose|k: int| 0 <= k < s.len() && s[k] == e;
                assert(r[k + 1] == e);
            }
            if e == x {
                assert(r[0] == e);
            }
        }
    } else {
        let s1 = s.drop_first();
        assert forall|j: int| 0 <= j < s1.len() implies #[trigger] s1[j] != x by {
            assert(s1[j] == s[j + 1]);
        }
        assert forall|i: int, j: int| 0 <= i < j < s1.len() implies spec_pair_lt(
            #[trigger] s1[i],
            #[trigger] s1[j],
        ) by {
            assert(s1[i] == s[i + 1] && s1[j] == s[j + 1]);
        }
        lemma_insert_sorted_props(s1, x);
        let r1 = spec_insert_sorted(s1, x);
        // s[0] is below x and below every element of s1, hence below all of r1.
        assert(s[0] != x);
        assert(spec_pair_lt(s[0], x));
        assert forall|i: int, j: int| 0 <= i < j < r.len() implies spec_pair_lt(
            #[trigger] r[i],
            #[trigger] r[j],
        ) by {
            if i == 0 {
                assert(r[j] == r1[j - 1]);
                assert(r1.contains(r1[j - 1]));
                let e = r1[j - 1];
                if e == x {
                } else {
                    assert(s1.contains(e));
                    let k = choose|k: int| 0 <= k < s1.len() && s1[k] == e;
                    assert(s1[k] == s[k + 1]);
                    assert(spec_pair_lt(s[0], s[k + 1]));
                }
            } else {
                assert(r[i] == r1[i - 1] && r[j] == r1[j - 1]);
            }
        }
        assert forall|e: (int, int)| #[trigger] r.contains(e) <==> (s.contains(e) || e == x) by {
            if r.contains(e) {
                let k = choose|k: int| 0 <= k < r.len() && r[k] == e;
                if k == 0 {
                    assert(s[0] == e);
                    assert(s.contains(e));
                } else {
                    assert(r1[k - 1] == e);
                    assert(r1.contains(e));
                    if s1.contains(e) {
                        let k2 = choose|k2: int| 0 <= k2 < s1.len() && s1[k2] == e;
                        assert(s[k2 + 1] == e);
                        assert(s.contains(e));
                    }
                }
            }
            if s.contains(e) {
                let k = choose|k: int| 0 <= k < s.len() && s[k] == e;
                if k == 0 {
                    assert(r[0] == e);
                } else {
                    assert(s1[k - 1] == e);
                    assert(s1.contains(e));
                    assert(r1.contains(e));
                    let k2 = choose|k2: int| 0 <= k2 < r1.len() && r1[k2] == e;
                    assert(r[k2 + 1] == e);
                }
            }
            if e == x {
                assert(r1.contains(e));
                let k2 = choose|k2: int| 0 <= k2 < r1.len() && r1[k2] == e;
                assert(r[k2 + 1] == e);
            }
        }
    }
}

/// The order sequence of the first `n` slots: one pair per slot, strictly
/// sorted, each pair carrying its slot's key.
proof fn lemma_order_keys_props(sprites: Seq<ClassicSprite>, n: int)
    requires
        0 <= n,
    ensures
        spec_order_keys(sprites, n).len() == n,
        spec_pairs_sorted(spec_order_keys(sprites, n)),
        forall|j: int|
            0 <= j < n ==> {
                let p = #[trigger] spec_order_keys(sprites, n)[j];
                0 <= p.1 < n && p.0 == spec_sort_key(sprites[p.1], p.1)
            },
        forall|i: int|
            0 <= i < n ==> #[trigger] spec_order_keys(sprites, n).contains(
                (spec_sort_key(sprites[i], i), i),
            ),
    decreases n,
{
    if n > 0 {
        lemma_order_keys_props(sprites, n - 1);
        let prev = spec_order_keys(sprites, n - 1);
        let x = (spec_sort_key(sprites[n - 1], n - 1), n - 1);
        assert forall|j: int| 0 <= j < prev.len() implies #[trigger] prev[j] != x by {
            assert(prev[j].1 < n - 1);
        }
        lemma_insert_sorted_props(prev, x);
        let o = spec_order_keys(sprites, n);
        assert forall|j: int|
            0 <= j < n implies {
            let p = #[trigger] o[j];
            0 <= p.1 < n && p.0 == spec_sort_key(sprites[p.1], p.1)
        } by {
            assert(o.contains(o[j]));
            let e = o[j];
            if e == x {
            } else {
                assert(prev.contains(e));
                let k = choose|k: int| 0 <= k < prev.len() && prev[k] == e;
            }
        }
        assert forall|i: int|
            0 <= i < n implies #[trigger] o.contains((spec_sort_key(sprites[i], i), i)) by {
            if i < n - 1 {
                assert(prev.contains((spec_sort_key(sprites[i], i), i)));
            }
        }
    }
}

/// Inserting at the scan position — after every smaller element, before
/// the first greater one — is what `spec_insert_sorted` does.
proof fn lemma_insert_sorted_at(s: Seq<(int, int)>, x: (int, int), p: int)
    requires
        spec_pairs_sorted(s),
        0 <= p <= s.len(),
        forall|j: int| 0 <= j < p ==> spec_pair_lt(#[trigger] s[j], x),
        p < s.len() ==> spec_pair_lt(x, s[p]),
    ensures
        spec_insert_sorted(s, x) == s.insert(p, x),
    decreases s.len(),
{
    let r = spec_insert_sorted(s, x);
    if s.len() == 0 {
        assert(r =~= s.insert(0, x));
    } else if p == 0 {
        assert(spec_pair_lt(x, s[0]));
        assert(r =~= s.insert(0, x));
    } else {
        assert(spec_pair_lt(s[0], x));
        assert(!spec_pair_lt(x, s[0]));
        let s1 = s.drop_first();
        assert forall|i: int, j: int| 0 <= i < j < s1.len() implies spec_pair_lt(
            #[trigger] s1[i],
            #[trigger] s1[j],
        ) by {
            assert(s1[i] == s[i + 1] && s1[j] == s[j + 1]);
        }
        assert forall|j: int| 0 <= j < p - 1 implies spec_pair_lt(#[trigger] s1[j], x) by {
            assert(s1[j] == s[j + 1]);
        }
        assert(p - 1 < s1.len() ==> spec_pair_lt(x, s1[p - 1]));
        lemma_insert_sorted_at(s1, x, p - 1);
        assert(r =~= s.insert(p, x));
    }
}

/// A fully transparent image of the given dimensions: what every render
/// call starts from.
pub open spec fn spec_blank(w: int, h: int) -> ImageView {
    ImageView::from_fn(w, h, |x: int, y: int| spec_transparent())
}

/// Whether the compositor skips a sprite entirely: invisible, or outside
/// the inflated viewport margin sized to the largest expected sprite
/// footprint.
pub open spec fn spec_culled(sp: ClassicSprite, view_w: int, view_h: int) -> bool {
    !sp.visible || sp.pos.x < -72 || sp.pos.x >= view_w + 8 || sp.pos.y < -72 || sp.pos.y >= view_h
        + 8
}

/// One sprite's contribution: skipped when culled or when its key resolves
/// to no texture, otherwise its texture alpha-composited at its scaled
/// position. The compositor's base symmetry is composed, base first, with
/// the sprite's own.
pub open spec fn spec_draw_sprite(
    img: ImageView,
    bank: BankView,
    sp: ClassicSprite,
    base: Symmetry,
    scale: int,
    view_w: int,
    view_h: int,
) -> ImageView {
    if spec_culled(sp, view_w, view_h) {
        img
    } else {
        match bank.spec_texture(sp.code, sp.palette, spec_compose(base, sp.symmetry)) {
            Some(t) => spec_blit(img, t, sp.pos.x * scale, sp.pos.y * scale, true),
            None => img,
        }
    }
}

/// The image after drawing the `t` sprites with the highest keys, in
/// descending key order: the highest key is painted first (furthest back),
/// later sprites overlay on top.
pub open spec fn spec_draw_prefix(
    img0: ImageView,
    bank: BankView,
    sprites: Seq<ClassicSprite>,
    order: Seq<(int, int)>,
    base: Symmetry,
    scale: int,
    view_w: int,
    view_h: int,
    t: int,
) -> ImageView
    decreases t,
{
    if t <= 0 {
        img0
    } else {
        let prev = spec_draw_prefix(img0, bank, sprites, order, base, scale, view_w, view_h, t - 1);
        spec_draw_sprite(
            prev,
            bank,
            sprites[order[order.len() - t].1],
            base,
            scale,
            view_w,
            view_h,
        )
    }
}

/// The complete composited frame: every slot sorted by key, survivors
/// drawn from the highest key down onto a fresh transparent viewport image.
pub open spec fn spec_sp_render(
    sprites: Seq<ClassicSprite>,
    bank: BankView,
    base: Symmetry,
    scale: int,
    view_w: int,
    view_h: int,
) -> ImageView {
    spec_draw_prefix(
        spec_blank(view_w * scale, view_h * scale),
        bank,
        sprites,
        spec_order_keys(sprites, sprites.len() as int),
        base,
        scale,
        view_w,
        view_h,
        sprites.len() as int,
    )
}

/// A culled sprite contributes nothing to the frame.
pub proof fn lemma_culled_sprite_draws_nothing(
    img: ImageView,
    bank: BankView,
    sp: ClassicSprite,
    base: Symmetry,
    scale: int,
    view_w: int,
    view_h: int,
)
    requires
        spec_culled(sp, view_w, view_h),
    ensures
        spec_draw_sprite(img, bank, sp, base, scale, view_w, view_h) == img,
{
}

/// Mathematical model of the sprite compositor.
#[verifier::ext_equal]
pub ghost struct SpView {
    pub sprites: Seq<ClassicSprite>,
    pub base_symmetry: Symmetry,
    pub scale: int,
}

/// The sprite compositor: a fixed pool of sprite slots sharing one pixel
/// scale and one base symmetry.
pub struct SpResources {
    sp: Vec<ClassicSprite>,
    pixel_scale: i32,
    base_symmetry: SpSymmetry,
}

impl View for SpResources {
    type V = SpView;

    closed spec fn view(&self) -> SpView {
        SpView {
            sprites: self.sp@,
            base_symmetry: self.base_symmetry,
            scale: self.pixel_scale as int,
        }
    }
}

impl SpResources {
    /// The pixel scale is in range and the pool size fits comfortably in
    /// the machine.
    pub closed spec fn inv(self) -> bool {
        &&& 1 <= self@.scale <= crate::bgsp_common::PIXEL_SCALE_MAX as int
        &&& self@.sprites.len() <= 0x1000_0000
    }

    /// A pool of `max_sprites` default-initialized (invisible) slots,
    /// drawing through the given bank's scale.
    pub fn with_base_symmetry(
        max_sprites: usize,
        texture_bank: &TextureBank,
        base_symmetry: SpSymmetry,
    ) -> (r: SpResources)
        requires
            texture_bank.inv(),
            max_sprites <= 0x1000_0000,
        ensures
            r.inv(),
            r@.sprites.len() == max_sprites,
            forall|i: int| 0 <= i < max_sprites ==> r@.sprites[i] == spec_default_sprite(),
            r@.base_symmetry == base_symmetry,
            r@.scale == texture_bank@.scale,
    {
        proof {
            crate::texture_bank::lemma_inv_implies_wf(texture_bank);
        }
        let mut sp: Vec<ClassicSprite> = Vec::with_capacity(max_sprites);
        let mut i: usize = 0;
        while i < max_sprites
            invariant
                0 <= i <= max_sprites,
                sp@.len() == i,
                forall|j: int| 0 <= j < i ==> sp@[j] == spec_default_sprite(),
            decreases max_sprites - i,
        {
            sp.push(ClassicSprite { ..Default::default() });
            i = i + 1;
        }
        let pixel_scale = texture_bank.pixel_scale();
        SpResources { sp, pixel_scale, base_symmetry }
    }

    /// A pool with the default (identity) base symmetry.
    pub fn new(num_sprites: usize, texture_bank: &TextureBank) -> (r: SpResources)
        requires
            texture_bank.inv(),
            num_sprites <= 0x1000_0000,
        ensures
            r.inv(),
            r@.sprites.len() == num_sprites,
            forall|i: int| 0 <= i < num_sprites ==> r@.sprites[i] == spec_default_sprite(),
            r@.base_symmetry == Symmetry::Normal,
            r@.scale == texture_bank@.scale,
    {
        let base_symmetry = SpSymmetry::default();
        Self::with_base_symmetry(num_sprites, texture_bank, base_symmetry)
    }

    /// Mutable access to the sprite in one slot. Indexing outside the pool
    /// is a programmer error and faults.
    pub fn sp(&mut self, sp_no: usize) -> (s: &mut ClassicSprite)
        requires
            old(self).inv(),
            sp_no < old(self)@.sprites.len(),
        ensures
            *s == old(self)@.sprites[sp_no as int],
            final(self)@.sprites == old(self)@.sprites.update(sp_no as int, *final(s)),
            final(self)@.base_symmetry == old(self)@.base_symmetry,
            final(self)@.scale == old(self)@.scale,
            final(self).inv(),
    {
        &mut self.sp[sp_no]
    }

    /// Capacity of the pool: fixed at construction.
    pub fn max_sprites(&self) -> (r: usize)
        ensures
            r as int == self@.sprites.len(),
    {
        self.sp.len()
    }

    /// The integer upscaling factor inherited from the texture bank.
    pub fn pixel_scale(&self) -> (r: i32)
        ensures
            r as int == self@.scale,
    {
        self.pixel_scale
    }

    /// The whole-pool orientation applied at render time.
    pub fn base_symmetry(&self) -> (r: SpSymmetry)
        ensures
            r == self@.base_symmetry,
    {
        self.base_symmetry
    }

    /// Changes the whole-pool orientation; takes effect at the next render
    /// call, which always redraws everything.
    pub fn set_base_symmetry(&mut self, base_symmetry: SpSymmetry)
        requires
            old(self).inv(),
        ensures
            final(self).inv(),
            final(self)@ == (SpView { base_symmetry, ..old(self)@ }),
    {
        self.base_symmetry = base_symmetry;
    }

    /// Composites one frame: allocates a fresh transparent viewport image,
    /// sorts every slot by priority-then-index key, and alpha-overlays the
    /// visible, on-screen, texture-resolving sprites from the highest key
    /// down, so the lowest key ends up visually on top.
    #[verifier::loop_isolation(false)]
    pub fn rendering(&mut self, texture_bank: &mut TextureBank, view_w: i32, view_h: i32) -> (r:
        RgbaImage)
        requires
            old(self).inv(),
            old(texture_bank).inv(),
            old(texture_bank)@.scale == old(self)@.scale,
            0 <= view_w,
            0 <= view_h,
            view_w as int * old(self)@.scale <= i32::MAX as int,
            view_h as int * old(self)@.scale <= i32::MAX as int,
            (view_w as int * old(self)@.scale) * (view_h as int * old(self)@.scale) <= usize::MAX
                as int,
        ensures
            *final(self) == *old(self),
            final(texture_bank).inv(),
            final(texture_bank)@.patterns == old(texture_bank)@.patterns,
            final(texture_bank)@.palettes == old(texture_bank)@.palettes,
            final(texture_bank)@.scale == old(texture_bank)@.scale,
            r@.wf(),
            r@.width == view_w as int * old(self)@.scale,
            r@.height == view_h as int * old(self)@.scale,
            r@ == spec_sp_render(
                old(self)@.sprites,
                old(texture_bank)@,
                old(self)@.base_symmetry,
                old(self)@.scale,
                view_w as int,
                view_h as int,
            ),
    {
        let n = self.sp.len();
        let ghost gsprites = self@.sprites;
        proof {
            lemma_order_keys_props(gsprites, n as int);
        }
        let ghost gorder = spec_order_keys(gsprites, n as int);
        let mut order: Vec<(i64, usize)> = Vec::new();
        let mut idx: usize = 0;
        while idx < n
            invariant
                0 <= idx <= n,
                order@.len() == spec_order_keys(gsprites, idx as int).len(),
                forall|j: int|
                    0 <= j < order@.len() ==> (#[trigger] order@[j]).0 as int == spec_order_keys(
                        gsprites,
                        idx as int,
                    )[j].0 && order@[j].1 as int == spec_order_keys(gsprites, idx as int)[j].1,
            decreases n - idx,
        {
            proof {
                lemma_order_keys_props(gsprites, idx as int);
            }
            let ghost prev = spec_order_keys(gsprites, idx as int);
            let key: i64 = (self.sp[idx].priority as i64) * 4096 + idx as i64;
            let ghost x = (key as int, idx as int);
            proof {
                assert(x == (spec_sort_key(gsprites[idx as int], idx as int), idx as int));
            }
            let mut pos: usize = 0;
            while pos < order.len() && (order[pos].0 < key || (order[pos].0 == key && order[pos].1
                < idx))
                invariant
                    0 <= pos <= order@.len(),
                    forall|j: int| 0 <= j < pos ==> spec_pair_lt(#[trigger] prev[j], x),
                decreases order@.len() - pos,
            {
                pos = pos + 1;
            }
            proof {
                if (pos as int) < prev.len() {
                    assert(prev[pos as int].1 < idx as int);
                    assert(prev[pos as int] != x);
                    assert(spec_pair_lt(x, prev[pos as int]));
                }
                lemma_insert_sorted_at(prev, x, pos as int);
            }
            order.insert(pos, (key, idx));
            proof {
                assert forall|j: int|
                    0 <= j < order@.len() implies (#[trigger] order@[j]).0 as int
                    == spec_order_keys(gsprites, idx as int + 1)[j].0 && order@[j].1 as int
                    == spec_order_keys(gsprites, idx as int + 1)[j].1 by {
                    assert(spec_order_keys(gsprites, idx as int + 1) == prev.insert(pos as int, x));
                }
            }
            idx = idx + 1;
        }
        let scale: i32 = self.pixel_scale;
        let iw: i32 = view_w * scale;
        let ih: i32 = view_h * scale;
        let mut image_buffer = RgbaImage::new(iw as u32, ih as u32);
        proof {
            lemma_from_fn_pixel(
                iw as int,
                ih as int,
                |x: int, y: int| spec_transparent(),
            );
            lemma_image_ext(image_buffer@, spec_blank(iw as int, ih as int));
        }
        let mut t: usize = 0;
        while t < n
            invariant
                0 <= t <= n,
                texture_bank.inv(),
                texture_bank@.patterns == old(texture_bank)@.patterns,
                texture_bank@.palettes == old(texture_bank)@.palettes,
                texture_bank@.scale == old(texture_bank)@.scale,
                *self == *old(self),
                order@.len() == n,
                forall|j: int|
                    0 <= j < n ==> (#[trigger] order@[j]).0 as int == gorder[j].0 && order@[j].1
                        as int == gorder[j].1,
                image_buffer@.wf(),
                image_buffer@.width == iw as int,
                image_buffer@.height == ih as int,
                image_buffer@ == spec_draw_prefix(
                    spec_blank(iw as int, ih as int),
                    old(texture_bank)@,
                    gsprites,
                    gorder,
                    old(self)@.base_symmetry,
                    old(self)@.scale,
                    view_w as int,
                    view_h as int,
                    t as int,
                ),
            decreases n - t,
        {
            let pair = order[n - 1 - t];
            let sp_no: usize = pair.1;
            proof {
                assert(gorder[n - 1 - t as int].1 == sp_no as int);
                assert(0 <= gorder[n - 1 - t as int].1 < n as int);
            }
            let a_sp = self.sp[sp_no];
            if !a_sp.visible || a_sp.pos.x < -72 || a_sp.pos.x as i64 >= view_w as i64 + 8
                || a_sp.pos.y < -72 || a_sp.pos.y as i64 >= view_h as i64 + 8 {
                proof {
                    assert(spec_culled(a_sp, view_w as int, view_h as int));
                }
            } else {
                let symmetry = self.base_symmetry.compose(a_sp.symmetry);
                let ghost bpre = texture_bank@;
                let t_opt = texture_bank.texture(a_sp.code, a_sp.palette, symmetry);
                proof {
                    lemma_texture_deterministic(
                        bpre,
                        old(texture_bank)@,
                        a_sp.code,
                        a_sp.palette,
                        symmetry,
                    );
                    assert(-0x4_0000_0000 <= a_sp.pos.x as int * scale as int <= 0x4_0000_0000
                        && -0x4_0000_0000 <= a_sp.pos.y as int * scale as int <= 0x4_0000_0000)
                        by (nonlinear_arith)
                        requires
                            -0x8000_0000 <= a_sp.pos.x as int <= 0x8000_0000,
                            -0x8000_0000 <= a_sp.pos.y as int <= 0x8000_0000,
                            1 <= scale as int <= 8,
                    ;
                }
                match t_opt {
                    Some(tex) => {
                        let bx: i64 = a_sp.pos.x as i64 * scale as i64;
                        let by: i64 = a_sp.pos.y as i64 * scale as i64;
                        overlay(&mut image_buffer, &*tex, bx, by);
                    },
                    None => {},
                }
            }
            t = t + 1;
        }
        image_buffer
    }
}

} // verus!
