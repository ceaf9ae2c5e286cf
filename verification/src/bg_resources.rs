//! The background plane: a toroidal grid of attributed characters with a
//! shadow copy of the last rendered state, re-rendering only the cells that
//! changed since the previous frame into a persistent output bitmap.

use vstd::prelude::*;

use crate::bgsp_common::{
    spec_compose, BgCode, BgPalette, BgSymmetry, Symmetry, PATTERN_SIZE, PIXEL_SCALE_MAX,
};
use crate::imageops::{replace, spec_blit};
use crate::rgba_image::{spec_transparent, ImageView, RgbaImage};
use crate::texture_bank::{lemma_texture_deterministic, BankView, TextureBank};

verus! {

/// Marker planted in the shadow buffer at construction so that the first
/// render pass sees every cell as changed; outside the range of codes a
/// fresh plane holds.
pub const DIRTY_MARK: u32 = 0x1000_0000;

/// Palette selection and symmetry of one cell, without its pattern code.
#[derive(Clone, Copy, Debug, PartialEq, Eq, Structural)]
pub struct CharAttributes {
    pub palette: BgPalette,
    pub symmetry: BgSymmetry,
}

impl CharAttributes {
    /// Attributes with the given palette and symmetry.
    pub fn new(palette: BgPalette, symmetry: BgSymmetry) -> (r: CharAttributes)
        ensures
            r == (CharAttributes { palette, symmetry }),
    {
        CharAttributes { palette, symmetry }
    }
}

impl Default for CharAttributes {
    /// Palette zero with the identity symmetry.
    fn default() -> (r: CharAttributes)
        ensures
            r == (CharAttributes { palette: 0, symmetry: Symmetry::Normal }),
    {
        CharAttributes { palette: 0, symmetry: Symmetry::Normal }
    }
}

/// The state of one fresh, cleared cell.
pub open spec fn spec_default_achar() -> AChar {
    AChar { code: 0, palette: 0, symmetry: Symmetry::Normal }
}

/// The shadow sentinel: never equal to any cell of a fresh plane, so the
/// first render pass redraws everything.
pub open spec fn spec_force_dirty() -> AChar {
    AChar { code: DIRTY_MARK, palette: DIRTY_MARK, symmetry: Symmetry::Rotate180 }
}

/// An attributed character: the full renderable state of one cell.
/// Equality is by value on all three fields and is the basis of
/// dirty-diffing.
#[derive(Clone, Copy, Debug, PartialEq, Eq, Structural)]
pub struct AChar {
    pub code: BgCode,
    pub palette: BgPalette,
    pub symmetry: BgSymmetry,
}

impl AChar {
    /// A cell with the given code, palette and symmetry.
    pub fn new(code: BgCode, palette: BgPalette, symmetry: BgSymmetry) -> (r: AChar)
        ensures
            r == (AChar { code, palette, symmetry }),
    {
        AChar { code, palette, symmetry }
    }

    /// The shadow sentinel value.
    pub fn force_dirty() -> (r: AChar)
        ensures
            r == spec_force_dirty(),
    {
        AChar { code: DIRTY_MARK, palette: DIRTY_MARK, symmetry: Symmetry::non_default() }
    }
}

impl Default for AChar {
    /// The fresh cell state: code zero, palette zero, identity symmetry.
    fn default() -> (r: AChar)
        ensures
            r == spec_default_achar(),
    {
        AChar { code: 0, palette: 0, symmetry: Symmetry::Normal }
    }
}

/// Largest accepted plane width, in cells.
const WIDTH_MAX: i32 = 8192;

/// Largest accepted plane height, in cells.
const HEIGHT_MAX: i32 = 8192;

/// A requested plane dimension coerced to at least 1 and at most the
/// maximum.
pub open spec fn spec_clamp_dim(v: int) -> int {
    if v > 0 {
        if v > 8192 {
            8192
        } else {
            v
        }
    } else {
        1
    }
}

/// Pixel count of the plane's output bitmap.
pub open spec fn spec_plane_pixels(w: int, h: int, scale: int) -> int {
    (w * 8 * scale) * (h * 8 * scale)
}

/// Mathematical model of a background plane.
#[verifier::ext_equal]
pub ghost struct BgView {
    pub width: int,
    pub height: int,
    pub cells: Seq<AChar>,
    pub shadow: Seq<AChar>,
    pub base_symmetry: Symmetry,
    pub scale: int,
    pub image: ImageView,
}

impl BgView {
    /// Total cell count of the flattened grid.
    pub open spec fn linear(self) -> int {
        self.width * self.height
    }

    /// Where a signed index lands on the toroidal grid: floor modulo, so
    /// any integer, however far out of range, maps onto some cell.
    pub open spec fn wrap(self, idx: int) -> int {
        idx % self.linear()
    }

    /// The cell any signed index resolves to.
    pub open spec fn cell_at(self, idx: int) -> AChar {
        self.cells[self.wrap(idx)]
    }

    /// The flattened index addressed by `(x, y)` before wrapping.
    pub open spec fn at(self, x: int, y: int) -> int {
        x + y * self.width
    }

    /// The same model with the cell buffer replaced.
    pub open spec fn with_cells(self, cells: Seq<AChar>) -> BgView {
        BgView { cells, ..self }
    }

    /// Dimensions are clamped, buffers cover the grid, the scale is in
    /// range, and the output bitmap has the grid's pixel dimensions.
    pub open spec fn wf(self) -> bool {
        &&& 1 <= self.width <= 8192
        &&& 1 <= self.height <= 8192
        &&& self.cells.len() == self.linear()
        &&& self.shadow.len() == self.linear()
        &&& 1 <= self.scale <= PIXEL_SCALE_MAX as int
        &&& self.image.wf()
        &&& self.image.width == self.width * 8 * self.scale
        &&& self.image.height == self.height * 8 * self.scale
    }
}

/// The flattened address of machine-sized cell coordinates stays far
/// inside the 64-bit range.
proof fn lemma_at_bounds(v: BgView, x: int, y: int)
    requires
        1 <= v.width <= 8192,
        -0x8000_0000 <= x <= 0x8000_0000,
        -0x8000_0000 <= y <= 0x8000_0000,
    ensures
        -0x4000_0000_0000_0000 <= y * v.width <= 0x4000_0000_0000_0000,
        -0x4000_0000_0000_0000 <= v.at(x, y) <= 0x4000_0000_0000_0000,
{
    assert(-0x2000_0000_0000 <= y * v.width <= 0x2000_0000_0000) by (nonlinear_arith)
        requires
            1 <= v.width <= 8192,
            -0x8000_0000 <= y <= 0x8000_0000,
    ;
}

/// Whether flattened cell `j` is hit by a run of `n` consecutive wrapped
/// writes starting at signed index `start`.
pub open spec fn spec_written(j: int, start: int, n: int, len: int) -> bool {
    exists|k: int| 0 <= k < n && #[trigger] ((start + k) % len) == j
}

/// No cell is hit by an empty run.
proof fn lemma_written_zero(start: int, len: int)
    ensures
        forall|j: int| !spec_written(j, start, 0, len),
{
}

/// Extending a run by one hits exactly the wrapped end of the run more.
proof fn lemma_written_step(start: int, i: int, len: int)
    requires
        len > 0,
        0 <= i,
    ensures
        forall|j: int|
            #[trigger] spec_written(j, start, i + 1, len) <==> (spec_written(j, start, i, len) || j
                == (start + i) % len),
{
    assert forall|j: int|
        #[trigger] spec_written(j, start, i + 1, len) <==> (spec_written(j, start, i, len) || j == (
        start + i) % len) by {
        if spec_written(j, start, i + 1, len) {
            let k = choose|k: int| 0 <= k < i + 1 && #[trigger] ((start + k) % len) == j;
            if k < i {
                assert(spec_written(j, start, i, len));
            }
        }
        if spec_written(j, start, i, len) {
            let k = choose|k: int| 0 <= k < i && #[trigger] ((start + k) % len) == j;
            assert(0 <= k < i + 1 && (start + k) % len == j);
            assert(spec_written(j, start, i + 1, len));
        }
        if j == (start + i) % len {
            assert(0 <= i < i + 1 && (start + i) % len == j);
            assert(spec_written(j, start, i + 1, len));
        }
    }
}

/// Any signed index and its translates by whole multiples of the linear
/// size resolve to the same cell, and index `-1` resolves to the last
/// cell: the wrap-around addressing law.
pub proof fn lemma_wraparound(v: BgView, i: int, k: int)
    requires
        v.wf(),
    ensures
        v.cell_at(i + k * v.linear()) == v.cell_at(i),
        v.cell_at(-1) == v.cells[v.linear() - 1],
{
    let l = v.linear();
    lemma_linear_bounds(v);
    assert(l * k == k * l) by (nonlinear_arith);
    vstd::arithmetic::div_mod::lemma_mod_multiples_vanish(k, i, l);
    vstd::arithmetic::div_mod::lemma_mod_multiples_vanish(1, -1, l);
    vstd::arithmetic::div_mod::lemma_small_mod((l - 1) as nat, l as nat);
}

/// The linear size of a well-formed plane is positive and bounded.
proof fn lemma_linear_bounds(v: BgView)
    requires
        1 <= v.width <= 8192,
        1 <= v.height <= 8192,
    ensures
        1 <= v.linear() <= 0x400_0000,
{
    assert(1 <= v.width * v.height <= 0x400_0000) by (nonlinear_arith)
        requires
            1 <= v.width <= 8192,
            1 <= v.height <= 8192,
    ;
}

/// How many cells differ between the two buffers among the first `n`: what
/// one render pass redraws.
pub open spec fn spec_diff_count(cells: Seq<AChar>, shadow: Seq<AChar>, n: int) -> int
    decreases n,
{
    if n <= 0 {
        0
    } else {
        spec_diff_count(cells, shadow, n - 1) + if cells[n - 1] != shadow[n - 1] {
            1int
        } else {
            0int
        }
    }
}

/// A buffer never differs from itself: a render pass over an unchanged
/// plane redraws nothing.
pub proof fn lemma_diff_count_identical(cells: Seq<AChar>, n: int)
    ensures
        spec_diff_count(cells, cells, n) == 0,
    decreases n,
{
    if n > 0 {
        lemma_diff_count_identical(cells, n - 1);
    }
}

/// Buffers that differ everywhere are redrawn everywhere: the sentinel
/// shadow of a fresh plane forces a full first render.
pub proof fn lemma_diff_count_all(cells: Seq<AChar>, shadow: Seq<AChar>, n: int)
    requires
        forall|j: int| 0 <= j < n ==> cells[j] != shadow[j],
    ensures
        spec_diff_count(cells, shadow, n) == if n >= 0 {
            n
        } else {
            0
        },
    decreases n,
{
    if n > 0 {
        lemma_diff_count_all(cells, shadow, n - 1);
    }
}

/// The redraw count never exceeds the cell count.
proof fn lemma_diff_count_le(cells: Seq<AChar>, shadow: Seq<AChar>, n: int)
    requires
        0 <= n,
    ensures
        0 <= spec_diff_count(cells, shadow, n) <= n,
    decreases n,
{
    if n > 0 {
        lemma_diff_count_le(cells, shadow, n - 1);
    }
}

/// Floor modulo: non-negative for any dividend once the divisor is
/// positive.
fn u_mod(x: i64, p: i64) -> (r: i64)
    requires
        -0x4000_0000_0000_0000 <= x,
        0 < p <= 0x4000_0000,
    ensures
        r as int == (x as int) % (p as int),
        0 <= r < p,
{
    proof {
        vstd::arithmetic::div_mod::lemma_mod_bound(x as int, p as int);
    }
    if x >= 0 {
        x % p
    } else {
        let nx: i64 = -x;
        let m: i64 = nx % p;
        proof {
            vstd::arithmetic::div_mod::lemma_fundamental_div_mod(nx as int, p as int);
            vstd::arithmetic::div_mod::lemma_mod_bound(nx as int, p as int);
            let q = nx as int / p as int;
            assert(p as int * (-q) == -(p as int * q) && p as int * (-q - 1) == -(p as int * q)
                - p as int) by (nonlinear_arith);
            if m == 0 {
                assert(x as int == p as int * (-q) + 0);
                vstd::arithmetic::div_mod::lemma_mod_multiples_vanish(-q, 0, p as int);
                vstd::arithmetic::div_mod::lemma_small_mod(0nat, p as nat);
            } else {
                assert(x as int == p as int * (-q - 1) + (p as int - m as int));
                vstd::arithmetic::div_mod::lemma_mod_multiples_vanish(
                    -q - 1,
                    p as int - m as int,
                    p as int,
                );
                vstd::arithmetic::div_mod::lemma_small_mod((p - m) as nat, p as nat);
            }
        }
        if m == 0 {
            0
        } else {
            p - m
        }
    }
}


/// A cell with its palette and symmetry replaced, keeping its code.
pub open spec fn spec_with_attributes(c: AChar, a: CharAttributes) -> AChar {
    AChar { palette: a.palette, symmetry: a.symmetry, ..c }
}

/// The palette and symmetry of a cell.
pub open spec fn spec_attributes_of(c: AChar) -> CharAttributes {
    CharAttributes { palette: c.palette, symmetry: c.symmetry }
}

/// A cell with its pattern code replaced.
pub open spec fn spec_with_code(c: AChar, code: BgCode) -> AChar {
    AChar { code, ..c }
}

/// A cell with its palette replaced.
pub open spec fn spec_with_palette(c: AChar, palette: BgPalette) -> AChar {
    AChar { palette, ..c }
}

/// A cell with its symmetry replaced.
pub open spec fn spec_with_symmetry(c: AChar, symmetry: BgSymmetry) -> AChar {
    AChar { symmetry, ..c }
}

/// One cell's contribution to the output bitmap: the texture for its code,
/// palette and composed symmetry, overwritten (not blended) at the cell's
/// pixel position; a cell with no resolvable texture leaves the bitmap
/// untouched.
pub open spec fn spec_cell_step(
    img: ImageView,
    bank: BankView,
    cell: AChar,
    x: int,
    y: int,
    base: Symmetry,
    scale: int,
) -> ImageView {
    match bank.spec_texture(cell.code, cell.palette, spec_compose(cell.symmetry, base)) {
        Some(t) => spec_blit(img, t, x * 8 * scale, y * 8 * scale, false),
        None => img,
    }
}

/// A cell whose key resolves to no texture leaves the output bitmap
/// untouched: resource absence propagates as "skip this draw".
pub proof fn lemma_unresolved_cell_draws_nothing(
    img: ImageView,
    bank: BankView,
    cell: AChar,
    x: int,
    y: int,
    base: Symmetry,
    scale: int,
)
    requires
        bank.spec_texture(cell.code, cell.palette, spec_compose(cell.symmetry, base)) is None,
    ensures
        spec_cell_step(img, bank, cell, x, y, base, scale) == img,
{
}

/// The output bitmap after one render pass over the first `n` cells in
/// row-major order: each cell that differs from its shadow contributes its
/// texture, all others leave the bitmap as it was.
pub open spec fn spec_render_upto(
    img: ImageView,
    bank: BankView,
    cells: Seq<AChar>,
    shadow: Seq<AChar>,
    width: int,
    base: Symmetry,
    scale: int,
    n: int,
) -> ImageView
    decreases n,
{
    if n <= 0 {
        img
    } else {
        let prev = spec_render_upto(img, bank, cells, shadow, width, base, scale, n - 1);
        if cells[n - 1] != shadow[n - 1] {
            spec_cell_step(prev, bank, cells[n - 1], (n - 1) % width, (n - 1) / width, base, scale)
        } else {
            prev
        }
    }
}

/// The background plane.
pub struct BgResources {
    rect_size: (i32, i32),
    linear_size: i32,
    cur_buffer: Vec<AChar>,
    alt_buffer: Vec<AChar>,
    pixel_scale: i32,
    base_symmetry: BgSymmetry,
    rendered_image: RgbaImage,
}

impl View for BgResources {
    type V = BgView;

    closed spec fn view(&self) -> BgView {
        BgView {
            width: self.rect_size.0 as int,
            height: self.rect_size.1 as int,
            cells: self.cur_buffer@,
            shadow: self.alt_buffer@,
            base_symmetry: self.base_symmetry,
            scale: self.pixel_scale as int,
            image: self.rendered_image@,
        }
    }
}

impl BgResources {
    /// The model is well formed and the cached linear size is the grid's.
    pub closed spec fn inv(self) -> bool {
        &&& self@.wf()
        &&& self.linear_size as int == self@.linear()
    }

    /// A plane of the clamped size, drawing through the given bank's scale,
    /// with every cell defaulted, the shadow seeded with the sentinel, and
    /// a transparent output bitmap.
    pub fn with_base_symmetry(
        rect_size: (i32, i32),
        texture_bank: &TextureBank,
        base_symmetry: BgSymmetry,
    ) -> (r: BgResources)
        requires
            texture_bank.inv(),
            spec_plane_pixels(
                spec_clamp_dim(rect_size.0 as int),
                spec_clamp_dim(rect_size.1 as int),
                texture_bank@.scale,
            ) <= usize::MAX as int,
        ensures
            r.inv(),
            r@.wf(),
            r@.width == spec_clamp_dim(rect_size.0 as int),
            r@.height == spec_clamp_dim(rect_size.1 as int),
            r@.base_symmetry == base_symmetry,
            r@.scale == texture_bank@.scale,
            forall|j: int| 0 <= j < r@.linear() ==> r@.cells[j] == spec_default_achar(),
            forall|j: int| 0 <= j < r@.linear() ==> r@.shadow[j] == spec_force_dirty(),
            forall|x: int, y: int|
                r@.image.in_bounds(x, y) ==> r@.image.pixel(x, y) == spec_transparent(),
    {
        proof {
            crate::texture_bank::lemma_inv_implies_wf(texture_bank);
        }
        let width: i32 = if rect_size.0 > 0 {
            if rect_size.0 > WIDTH_MAX {
                WIDTH_MAX
            } else {
                rect_size.0
            }
        } else {
            1
        };
        let height: i32 = if rect_size.1 > 0 {
            if rect_size.1 > HEIGHT_MAX {
                HEIGHT_MAX
            } else {
                rect_size.1
            }
        } else {
            1
        };
        proof {
            assert(1 <= width as int * height as int <= 0x400_0000) by (nonlinear_arith)
                requires
                    1 <= width <= 8192,
                    1 <= height <= 8192,
            ;
        }
        let linear_size: i32 = width * height;
        let cur_buffer: Vec<AChar> = vec![AChar::default(); linear_size as usize];
        let alt_buffer: Vec<AChar> = vec![AChar::force_dirty(); linear_size as usize];
        let pixel_scale = texture_bank.pixel_scale();
        proof {
            crate::imageops::lemma_mul_le(width as int * 8, pixel_scale as int, 65536, 8);
            crate::imageops::lemma_mul_le(height as int * 8, pixel_scale as int, 65536, 8);
        }
        let iw: i32 = width * (PATTERN_SIZE as i32) * pixel_scale;
        let ih: i32 = height * (PATTERN_SIZE as i32) * pixel_scale;
        let rendered_image = RgbaImage::new(iw as u32, ih as u32);
        BgResources {
            rect_size: (width, height),
            linear_size,
            cur_buffer,
            alt_buffer,
            pixel_scale,
            base_symmetry,
            rendered_image,
        }
    }

    /// A plane with the default (identity) base symmetry.
    pub fn new(rect_size: (i32, i32), texture_bank: &TextureBank) -> (r: BgResources)
        requires
            texture_bank.inv(),
            spec_plane_pixels(
                spec_clamp_dim(rect_size.0 as int),
                spec_clamp_dim(rect_size.1 as int),
                texture_bank@.scale,
            ) <= usize::MAX as int,
        ensures
            r.inv(),
            r@.wf(),
            r@.width == spec_clamp_dim(rect_size.0 as int),
            r@.height == spec_clamp_dim(rect_size.1 as int),
            r@.base_symmetry == Symmetry::Normal,
            r@.scale == texture_bank@.scale,
            forall|j: int| 0 <= j < r@.linear() ==> r@.cells[j] == spec_default_achar(),
            forall|j: int| 0 <= j < r@.linear() ==> r@.shadow[j] == spec_force_dirty(),
            forall|x: int, y: int|
                r@.image.in_bounds(x, y) ==> r@.image.pixel(x, y) == spec_transparent(),
    {
        let base_symmetry = BgSymmetry::default();
        Self::with_base_symmetry(rect_size, texture_bank, base_symmetry)
    }

    /// Width of the grid in cells.
    pub fn width(&self) -> (r: i32)
        ensures
            r as int == self@.width,
    {
        self.rect_size.0
    }

    /// Height of the grid in cells.
    pub fn height(&self) -> (r: i32)
        ensures
            r as int == self@.height,
    {
        self.rect_size.1
    }

    /// Both grid dimensions in cells.
    pub fn rect_size(&self) -> (r: (i32, i32))
        ensures
            r.0 as int == self@.width,
            r.1 as int == self@.height,
    {
        self.rect_size
    }

    /// Total cell count of the flattened grid.
    pub fn linear_size(&self) -> (r: i32)
        requires
            self.inv(),
        ensures
            r as int == self@.linear(),
    {
        self.linear_size
    }

    /// The integer upscaling factor inherited from the texture bank.
    pub fn pixel_scale(&self) -> (r: i32)
        ensures
            r as int == self@.scale,
    {
        self.pixel_scale
    }

    /// The whole-plane orientation applied at render time.
    pub fn base_symmetry(&self) -> (r: BgSymmetry)
        ensures
            r == self@.base_symmetry,
    {
        self.base_symmetry
    }

    /// Changes the whole-plane orientation. This marks nothing dirty: only
    /// cells that differ from their shadow for other reasons pick up the
    /// new orientation at the next render pass.
    pub fn set_base_symmetry(&mut self, base_symmetry: BgSymmetry) -> (ret: &mut BgResources)
        requires
            old(self).inv(),
        ensures
            ret.inv(),
            ret@ == (BgView { base_symmetry, ..old(self)@ }),
            *final(self) == *final(ret),
    {
        self.base_symmetry = base_symmetry;
        self
    }

    /// The cell behind a wrapped linear index.
    fn _get_achar(&self, idx: i64) -> (r: AChar)
        requires
            self.inv(),
            -0x4000_0000_0000_0000 <= idx,
        ensures
            r == self@.cell_at(idx as int),
    {
        proof {
            lemma_linear_bounds(self@);
        }
        let idx = u_mod(idx, self.linear_size as i64) as usize;
        self.cur_buffer[idx]
    }

    /// Overwrites the cell behind a wrapped linear index.
    fn _set_achar(&mut self, idx: i64, achar: &AChar)
        requires
            old(self).inv(),
            -0x4000_0000_0000_0000 <= idx,
        ensures
            final(self).inv(),
            final(self)@ == old(self)@.with_cells(
                old(self)@.cells.update(old(self)@.wrap(idx as int), *achar),
            ),
    {
        proof {
            lemma_linear_bounds(self@);
        }
        let idx = u_mod(idx, self.linear_size as i64) as usize;
        self.cur_buffer[idx] = *achar;
    }

    /// The cell at a signed linear index, wrapped onto the grid.
    pub fn get_achar(&self, idx: i32) -> (r: AChar)
        requires
            self.inv(),
        ensures
            r == self@.cell_at(idx as int),
    {
        self._get_achar(idx as i64)
    }

    /// The cell at `(x, y)`, with the flattened index wrapped onto the
    /// grid.
    pub fn get_achar_at(&self, x: i32, y: i32) -> (r: AChar)
        requires
            self.inv(),
        ensures
            r == self@.cell_at(self@.at(x as int, y as int)),
    {
        proof {
            lemma_at_bounds(self@, x as int, y as int);
        }
        let idx: i64 = x as i64 + y as i64 * self.rect_size.0 as i64;
        self._get_achar(idx)
    }

    /// Overwrites the cell at a signed linear index.
    pub fn set_achar(&mut self, idx: i32, achar: &AChar) -> (ret: &mut BgResources)
        requires
            old(self).inv(),
        ensures
            ret.inv(),
            ret@ == old(self)@.with_cells(
                old(self)@.cells.update(old(self)@.wrap(idx as int), *achar),
            ),
            *final(self) == *final(ret),
    {
        self._set_achar(idx as i64, achar);
        self
    }

    /// Overwrites `n` consecutive cells starting at a signed linear index;
    /// consecutive in the flattened, wrapped address space, so a run may
    /// spill across row boundaries and around the end of the grid.
    #[verifier::loop_isolation(false)]
    pub fn set_achar_n(&mut self, idx: i32, achar: &AChar, n: i32) -> (ret: &mut BgResources)
        requires
            old(self).inv(),
        ensures
            ret.inv(),
            ret@ == old(self)@.with_cells(ret@.cells),
            ret@.cells.len() == old(self)@.cells.len(),
            forall|j: int|
                0 <= j < old(self)@.linear() ==> ret@.cells[j] == if spec_written(
                    j,
                    idx as int,
                    n as int,
                    old(self)@.linear(),
                ) {
                    *achar
                } else {
                    old(self)@.cells[j]
                },
            *final(self) == *final(ret),
    {
        proof {
            lemma_linear_bounds(old(self)@);
            lemma_written_zero(idx as int, old(self)@.linear());
        }
        let mut i: i32 = 0;
        while i < n
            invariant
                0 <= i,
                i <= n || i == 0,
                self.inv(),
                self@ == old(self)@.with_cells(self@.cells),
                self@.cells.len() == old(self)@.cells.len(),
                forall|j: int|
                    0 <= j < old(self)@.linear() ==> self@.cells[j] == if spec_written(
                        j,
                        idx as int,
                        i as int,
                        old(self)@.linear(),
                    ) {
                        *achar
                    } else {
                        old(self)@.cells[j]
                    },
            decreases n - i,
        {
            proof {
                lemma_written_step(idx as int, i as int, old(self)@.linear());
            }
            self._set_achar(idx as i64 + i as i64, achar);
            i = i + 1;
        }
        self
    }

    /// Overwrites the cell at `(x, y)`.
    pub fn set_achar_at(&mut self, x: i32, y: i32, achar: &AChar) -> (ret: &mut BgResources)
        requires
            old(self).inv(),
        ensures
            ret.inv(),
            ret@ == old(self)@.with_cells(
                old(self)@.cells.update(old(self)@.wrap(old(self)@.at(x as int, y as int)), *achar),
            ),
            *final(self) == *final(ret),
    {
        proof {
            lemma_at_bounds(self@, x as int, y as int);
        }
        let idx: i64 = x as i64 + y as i64 * self.rect_size.0 as i64;
        self._set_achar(idx, achar);
        self
    }

    /// Overwrites `n` consecutive cells starting at `(x, y)`, wrapping
    /// through the flattened address space.
    #[verifier::loop_isolation(false)]
    pub fn set_achar_n_at(&mut self, x: i32, y: i32, achar: &AChar, n: i32) -> (ret:
        &mut BgResources)
        requires
            old(self).inv(),
        ensures
            ret.inv(),
            ret@ == old(self)@.with_cells(ret@.cells),
            ret@.cells.len() == old(self)@.cells.len(),
            forall|j: int|
                0 <= j < old(self)@.linear() ==> ret@.cells[j] == if spec_written(
                    j,
                    old(self)@.at(x as int, y as int),
                    n as int,
                    old(self)@.linear(),
                ) {
                    *achar
                } else {
                    old(self)@.cells[j]
                },
            *final(self) == *final(ret),
    {
        proof {
            lemma_at_bounds(self@, x as int, y as int);
        }
        let idx: i64 = x as i64 + y as i64 * self.rect_size.0 as i64;
        proof {
            lemma_linear_bounds(old(self)@);
            lemma_written_zero(old(self)@.at(x as int, y as int), old(self)@.linear());
        }
        let mut i: i32 = 0;
        while i < n
            invariant
                0 <= i,
                i <= n || i == 0,
                self.inv(),
                idx as int == old(self)@.at(x as int, y as int),
                self@ == old(self)@.with_cells(self@.cells),
                self@.cells.len() == old(self)@.cells.len(),
                forall|j: int|
                    0 <= j < old(self)@.linear() ==> self@.cells[j] == if spec_written(
                        j,
                        old(self)@.at(x as int, y as int),
                        i as int,
                        old(self)@.linear(),
                    ) {
                        *achar
                    } else {
                        old(self)@.cells[j]
                    },
            decreases n - i,
        {
            proof {
                lemma_written_step(old(self)@.at(x as int, y as int), i as int, old(self)@.linear());
            }
            self._set_achar(idx + i as i64, achar);
            i = i + 1;
        }
        self
    }

    /// Overwrites every cell of the plane with one value.
    #[verifier::loop_isolation(false)]
    pub fn fill_achar(&mut self, achar: &AChar) -> (ret: &mut BgResources)
        requires
            old(self).inv(),
        ensures
            ret.inv(),
            ret@ == old(self)@.with_cells(ret@.cells),
            ret@.cells.len() == old(self)@.cells.len(),
            forall|j: int| 0 <= j < old(self)@.linear() ==> ret@.cells[j] == *achar,
            *final(self) == *final(ret),
    {
        proof {
            lemma_linear_bounds(old(self)@);
        }
        let linear = self.linear_size;
        let mut i: i32 = 0;
        while i < linear
            invariant
                0 <= i <= linear,
                linear as int == old(self)@.linear(),
                self.inv(),
                self@ == old(self)@.with_cells(self@.cells),
                self@.cells.len() == old(self)@.cells.len(),
                forall|j: int| 0 <= j < i ==> self@.cells[j] == *achar,
                forall|j: int| i <= j < old(self)@.linear() ==> self@.cells[j] == old(self)@.cells[j],
            decreases linear - i,
        {
            proof {
                vstd::arithmetic::div_mod::lemma_small_mod(i as nat, old(self)@.linear() as nat);
            }
            self._set_achar(i as i64, achar);
            i = i + 1;
        }
        self
    }

    /// Resets every cell to the default attributed character.
    pub fn clear(&mut self) -> (ret: &mut BgResources)
        requires
            old(self).inv(),
        ensures
            ret.inv(),
            ret@ == old(self)@.with_cells(ret@.cells),
            ret@.cells.len() == old(self)@.cells.len(),
            forall|j: int| 0 <= j < old(self)@.linear() ==> ret@.cells[j] == spec_default_achar(),
            *final(self) == *final(ret),
    {
        let achar: AChar = Default::default();
        self.fill_achar(&achar)
    }


    /// One render pass: walks the grid in row-major order; every cell whose
    /// current value differs from its shadow has the shadow refreshed and
    /// its texture, keyed by code, palette and its symmetry composed with
    /// the plane's base symmetry, overwritten into the persistent output
    /// bitmap at the cell's pixel position. Returns how many cells were
    /// redrawn.
    #[verifier::loop_isolation(false)]
    pub fn rendering(&mut self, texture_bank: &mut TextureBank) -> (done: i32)
        requires
            old(self).inv(),
            old(texture_bank).inv(),
            old(texture_bank)@.scale == old(self)@.scale,
        ensures
            final(self).inv(),
            final(texture_bank).inv(),
            final(texture_bank)@.patterns == old(texture_bank)@.patterns,
            final(texture_bank)@.palettes == old(texture_bank)@.palettes,
            final(texture_bank)@.scale == old(texture_bank)@.scale,
            final(self)@ == (BgView {
                shadow: old(self)@.cells,
                image: spec_render_upto(
                    old(self)@.image,
                    old(texture_bank)@,
                    old(self)@.cells,
                    old(self)@.shadow,
                    old(self)@.width,
                    old(self)@.base_symmetry,
                    old(self)@.scale,
                    old(self)@.linear(),
                ),
                ..old(self)@
            }),
            done as int == spec_diff_count(old(self)@.cells, old(self)@.shadow, old(self)@.linear()),
    {
        proof {
            lemma_linear_bounds(old(self)@);
        }
        let linear = self.linear_size;
        let width = self.rect_size.0;
        let mut done: i32 = 0;
        let mut idx: i32 = 0;
        while idx < linear
            invariant
                0 <= idx <= linear,
                0 <= done <= idx,
                self.inv(),
                texture_bank.inv(),
                texture_bank@.patterns == old(texture_bank)@.patterns,
                texture_bank@.palettes == old(texture_bank)@.palettes,
                texture_bank@.scale == old(texture_bank)@.scale,
                self@.cells == old(self)@.cells,
                self@.width == old(self)@.width,
                self@.height == old(self)@.height,
                self@.base_symmetry == old(self)@.base_symmetry,
                self@.scale == old(self)@.scale,
                self@.shadow.len() == old(self)@.shadow.len(),
                forall|j: int| 0 <= j < idx ==> self@.shadow[j] == old(self)@.cells[j],
                forall|j: int| idx <= j < old(self)@.linear() ==> self@.shadow[j] == old(self)@.shadow[j],
                done as int == spec_diff_count(old(self)@.cells, old(self)@.shadow, idx as int),
                self@.image == spec_render_upto(
                    old(self)@.image,
                    old(texture_bank)@,
                    old(self)@.cells,
                    old(self)@.shadow,
                    old(self)@.width,
                    old(self)@.base_symmetry,
                    old(self)@.scale,
                    idx as int,
                ),
            decreases linear - idx,
        {
            let cur = self.cur_buffer[idx as usize];
            let alt = self.alt_buffer[idx as usize];
            if cur != alt {
                self.alt_buffer[idx as usize] = cur;
                let sym = cur.symmetry.compose(self.base_symmetry);
                let ghost bpre = texture_bank@;
                let t_opt = texture_bank.texture(cur.code, cur.palette, sym);
                proof {
                    lemma_texture_deterministic(
                        bpre,
                        old(texture_bank)@,
                        cur.code,
                        cur.palette,
                        sym,
                    );
                    crate::bgsp_common::lemma_div_below(
                        idx as int,
                        width as int,
                        self@.height,
                    );
                    assert((idx as int) < self@.width * self@.height);
                    assert(self@.width * self@.height == self@.height * self@.width)
                        by (nonlinear_arith);
                }
                let x: i32 = idx % width;
                let y: i32 = idx / width;
                proof {
                    crate::imageops::lemma_mul_le(x as int * 8, self@.scale, 65536, 8);
                    crate::imageops::lemma_mul_le(y as int * 8, self@.scale, 65536, 8);
                }
                match t_opt {
                    Some(t) => {
                        let bx: i64 = x as i64 * (PATTERN_SIZE as i64) * (self.pixel_scale as i64);
                        let by: i64 = y as i64 * (PATTERN_SIZE as i64) * (self.pixel_scale as i64);
                        replace(&mut self.rendered_image, &*t, bx, by);
                    },
                    None => {},
                }
                done = done + 1;
            }
            idx = idx + 1;
        }
        proof {
            assert(self@.shadow =~= old(self)@.cells);
            assert(self@ =~= (BgView {
                shadow: old(self)@.cells,
                image: spec_render_upto(
                    old(self)@.image,
                    old(texture_bank)@,
                    old(self)@.cells,
                    old(self)@.shadow,
                    old(self)@.width,
                    old(self)@.base_symmetry,
                    old(self)@.scale,
                    old(self)@.linear(),
                ),
                ..old(self)@
            }));
        }
        done
    }

    /// Read-only access to the persistent output bitmap, valid until the
    /// next render pass mutates it in place.
    pub fn rendered_image(&self) -> (r: &RgbaImage)
        ensures
            r@ == self@.image,
    {
        &self.rendered_image
    }

    /// The palette and symmetry behind a wrapped linear index.
    fn _get_attributes(&self, idx: i64) -> (r: CharAttributes)
        requires
            self.inv(),
            -0x4000_0000_0000_0000 <= idx,
        ensures
            r == spec_attributes_of(self@.cell_at(idx as int)),
    {
        proof {
            lemma_linear_bounds(self@);
        }
        let i = u_mod(idx, self.linear_size as i64) as usize;
        CharAttributes { palette: self.cur_buffer[i].palette, symmetry: self.cur_buffer[i].symmetry }
    }

    /// Overwrites the palette and symmetry behind a wrapped linear index.
    fn _set_attributes(&mut self, idx: i64, attributes: &CharAttributes)
        requires
            old(self).inv(),
            -0x4000_0000_0000_0000 <= idx,
        ensures
            final(self).inv(),
            final(self)@ == old(self)@.with_cells(
                old(self)@.cells.update(
                    old(self)@.wrap(idx as int),
                    spec_with_attributes(old(self)@.cells[old(self)@.wrap(idx as int)], *attributes),
                ),
            ),
    {
        proof {
            lemma_linear_bounds(self@);
        }
        let i = u_mod(idx, self.linear_size as i64) as usize;
        let mut c = self.cur_buffer[i];
        c.palette = attributes.palette;
        c.symmetry = attributes.symmetry;
        self.cur_buffer[i] = c;
    }

    /// The palette and symmetry of the cell at a signed linear index, wrapped onto the
    /// grid.
    pub fn get_attributes(&self, idx: i32) -> (r: CharAttributes)
        requires
            self.inv(),
        ensures
            r == spec_attributes_of(self@.cell_at(idx as int)),
    {
        self._get_attributes(idx as i64)
    }

    /// The palette and symmetry of the cell at `(x, y)`.
    pub fn get_attributes_at(&self, x: i32, y: i32) -> (r: CharAttributes)
        requires
            self.inv(),
        ensures
            r == spec_attributes_of(self@.cell_at(self@.at(x as int, y as int))),
    {
        proof {
            lemma_at_bounds(self@, x as int, y as int);
        }
        let idx: i64 = x as i64 + y as i64 * self.rect_size.0 as i64;
        self._get_attributes(idx)
    }

    /// Overwrites the palette and symmetry of the cell at a signed linear index.
    pub fn set_attributes(&mut self, idx: i32, attributes: &CharAttributes) -> (ret: &mut BgResources)
        requires
            old(self).inv(),
        ensures
            ret.inv(),
            ret@ == old(self)@.with_cells(
                old(self)@.cells.update(
                    old(self)@.wrap(idx as int),
                    spec_with_attributes(old(self)@.cells[old(self)@.wrap(idx as int)], *attributes),
                ),
            ),
            *final(self) == *final(ret),
    {
        self._set_attributes(idx as i64, attributes);
        self
    }

    /// Overwrites the palette and symmetry of `n` consecutive cells starting at a signed
    /// linear index, wrapping through the flattened address space.
    #[verifier::loop_isolation(false)]
    pub fn set_attributes_n(&mut self, idx: i32, attributes: &CharAttributes, n: i32) -> (ret: &mut BgResources)
        requires
            old(self).inv(),
        ensures
            ret.inv(),
            ret@ == old(self)@.with_cells(ret@.cells),
            ret@.cells.len() == old(self)@.cells.len(),
            forall|j: int|
                0 <= j < old(self)@.linear() ==> ret@.cells[j] == if spec_written(
                    j,
                    idx as int,
                    n as int,
                    old(self)@.linear(),
                ) {
                    spec_with_attributes(old(self)@.cells[j], *attributes)
                } else {
                    old(self)@.cells[j]
                },
            *final(self) == *final(ret),
    {
        proof {
            lemma_linear_bounds(old(self)@);
            lemma_written_zero(idx as int, old(self)@.linear());
        }
        let mut i: i32 = 0;
        while i < n
            invariant
                0 <= i,
                i <= n || i == 0,
                self.inv(),
                self@ == old(self)@.with_cells(self@.cells),
                self@.cells.len() == old(self)@.cells.len(),
                forall|j: int|
                    0 <= j < old(self)@.linear() ==> self@.cells[j] == if spec_written(
                        j,
                        idx as int,
                        i as int,
                        old(self)@.linear(),
                    ) {
                        spec_with_attributes(old(self)@.cells[j], *attributes)
                    } else {
                        old(self)@.cells[j]
                    },
            decreases n - i,
        {
            proof {
                lemma_written_step(idx as int, i as int, old(self)@.linear());
            }
            self._set_attributes(idx as i64 + i as i64, attributes);
            i = i + 1;
        }
        self
    }

    /// Overwrites the palette and symmetry of the cell at `(x, y)`.
    pub fn set_attributes_at(&mut self, x: i32, y: i32, attributes: &CharAttributes) -> (ret: &mut BgResources)
        requires
            old(self).inv(),
        ensures
            ret.inv(),
            ret@ == old(self)@.with_cells(
                old(self)@.cells.update(
                    old(self)@.wrap(old(self)@.at(x as int, y as int)),
                    spec_with_attributes(
                        old(self)@.cells[old(self)@.wrap(old(self)@.at(x as int, y as int))],
                        *attributes,
                    ),
                ),
            ),
            *final(self) == *final(ret),
    {
        proof {
            lemma_at_bounds(self@, x as int, y as int);
        }
        let idx: i64 = x as i64 + y as i64 * self.rect_size.0 as i64;
        self._set_attributes(idx, attributes);
        self
    }

    /// Overwrites the palette and symmetry of `n` consecutive cells starting at `(x, y)`,
    /// wrapping through the flattened address space.
    #[verifier::loop_isolation(false)]
    pub fn set_attributes_n_at(&mut self, x: i32, y: i32, attributes: &CharAttributes, n: i32) -> (ret: &mut BgResources)
        requires
            old(self).inv(),
        ensures
            ret.inv(),
            ret@ == old(self)@.with_cells(ret@.cells),
            ret@.cells.len() == old(self)@.cells.len(),
            forall|j: int|
                0 <= j < old(self)@.linear() ==> ret@.cells[j] == if spec_written(
                    j,
                    old(self)@.at(x as int, y as int),
                    n as int,
                    old(self)@.linear(),
                ) {
                    spec_with_attributes(old(self)@.cells[j], *attributes)
                } else {
                    old(self)@.cells[j]
                },
            *final(self) == *final(ret),
    {
        proof {
            lemma_at_bounds(self@, x as int, y as int);
        }
        let idx: i64 = x as i64 + y as i64 * self.rect_size.0 as i64;
        proof {
            lemma_linear_bounds(old(self)@);
            lemma_written_zero(old(self)@.at(x as int, y as int), old(self)@.linear());
        }
        let mut i: i32 = 0;
        while i < n
            invariant
                0 <= i,
                i <= n || i == 0,
                self.inv(),
                idx as int == old(self)@.at(x as int, y as int),
                self@ == old(self)@.with_cells(self@.cells),
                self@.cells.len() == old(self)@.cells.len(),
                forall|j: int|
                    0 <= j < old(self)@.linear() ==> self@.cells[j] == if spec_written(
                        j,
                        old(self)@.at(x as int, y as int),
                        i as int,
                        old(self)@.linear(),
                    ) {
                        spec_with_attributes(old(self)@.cells[j], *attributes)
                    } else {
                        old(self)@.cells[j]
                    },
            decreases n - i,
        {
            proof {
                lemma_written_step(old(self)@.at(x as int, y as int), i as int, old(self)@.linear());
            }
            self._set_attributes(idx + i as i64, attributes);
            i = i + 1;
        }
        self
    }

    /// Overwrites the palette and symmetry of every cell of the plane.
    #[verifier::loop_isolation(false)]
    pub fn fill_attributes(&mut self, attributes: &CharAttributes) -> (ret: &mut BgResources)
        requires
            old(self).inv(),
        ensures
            ret.inv(),
            ret@ == old(self)@.with_cells(ret@.cells),
            ret@.cells.len() == old(self)@.cells.len(),
            forall|j: int|
                0 <= j < old(self)@.linear() ==> ret@.cells[j] == spec_with_attributes(old(self)@.cells[j], *attributes),
            *final(self) == *final(ret),
    {
        proof {
            lemma_linear_bounds(old(self)@);
        }
        let linear = self.linear_size;
        let mut i: i32 = 0;
        while i < linear
            invariant
                0 <= i <= linear,
                self.inv(),
                self@ == old(self)@.with_cells(self@.cells),
                self@.cells.len() == old(self)@.cells.len(),
                forall|j: int| 0 <= j < i ==> self@.cells[j] == spec_with_attributes(old(self)@.cells[j], *attributes),
                forall|j: int| i <= j < old(self)@.linear() ==> self@.cells[j] == old(self)@.cells[j],
            decreases linear - i,
        {
            proof {
                vstd::arithmetic::div_mod::lemma_small_mod(i as nat, old(self)@.linear() as nat);
            }
            self._set_attributes(i as i64, attributes);
            i = i + 1;
        }
        self
    }

    /// The pattern code behind a wrapped linear index.
    fn _get_code(&self, idx: i64) -> (r: BgCode)
        requires
            self.inv(),
            -0x4000_0000_0000_0000 <= idx,
        ensures
            r == self@.cell_at(idx as int).code,
    {
        proof {
            lemma_linear_bounds(self@);
        }
        let i = u_mod(idx, self.linear_size as i64) as usize;
        self.cur_buffer[i].code
    }

    /// Overwrites the pattern code behind a wrapped linear index.
    fn _set_code(&mut self, idx: i64, code: BgCode)
        requires
            old(self).inv(),
            -0x4000_0000_0000_0000 <= idx,
        ensures
            final(self).inv(),
            final(self)@ == old(self)@.with_cells(
                old(self)@.cells.update(
                    old(self)@.wrap(idx as int),
                    spec_with_code(old(self)@.cells[old(self)@.wrap(idx as int)], code),
                ),
            ),
    {
        proof {
            lemma_linear_bounds(self@);
        }
        let i = u_mod(idx, self.linear_size as i64) as usize;
        let mut c = self.cur_buffer[i];
        c.code = code;
        self.cur_buffer[i] = c;
    }

    /// The pattern code of the cell at a signed linear index, wrapped onto the
    /// grid.
    pub fn get_code(&self, idx: i32) -> (r: BgCode)
        requires
            self.inv(),
        ensures
            r == self@.cell_at(idx as int).code,
    {
        self._get_code(idx as i64)
    }

    /// The pattern code of the cell at `(x, y)`.
    pub fn get_code_at(&self, x: i32, y: i32) -> (r: BgCode)
        requires
            self.inv(),
        ensures
            r == self@.cell_at(self@.at(x as int, y as int)).code,
    {
        proof {
            lemma_at_bounds(self@, x as int, y as int);
        }
        let idx: i64 = x as i64 + y as i64 * self.rect_size.0 as i64;
        self._get_code(idx)
    }

    /// Overwrites the pattern code of the cell at a signed linear index.
    pub fn set_code(&mut self, idx: i32, code: BgCode) -> (ret: &mut BgResources)
        requires
            old(self).inv(),
        ensures
            ret.inv(),
            ret@ == old(self)@.with_cells(
                old(self)@.cells.update(
                    old(self)@.wrap(idx as int),
                    spec_with_code(old(self)@.cells[old(self)@.wrap(idx as int)], code),
                ),
            ),
            *final(self) == *final(ret),
    {
        self._set_code(idx as i64, code);
        self
    }

    /// Overwrites the pattern code of `n` consecutive cells starting at a signed
    /// linear index, wrapping through the flattened address space.
    #[verifier::loop_isolation(false)]
    pub fn set_code_n(&mut self, idx: i32, code: BgCode, n: i32) -> (ret: &mut BgResources)
        requires
            old(self).inv(),
        ensures
            ret.inv(),
            ret@ == old(self)@.with_cells(ret@.cells),
            ret@.cells.len() == old(self)@.cells.len(),
            forall|j: int|
                0 <= j < old(self)@.linear() ==> ret@.cells[j] == if spec_written(
                    j,
                    idx as int,
                    n as int,
                    old(self)@.linear(),
                ) {
                    spec_with_code(old(self)@.cells[j], code)
                } else {
                    old(self)@.cells[j]
                },
            *final(self) == *final(ret),
    {
        proof {
            lemma_linear_bounds(old(self)@);
            lemma_written_zero(idx as int, old(self)@.linear());
        }
        let mut i: i32 = 0;
        while i < n
            invariant
                0 <= i,
                i <= n || i == 0,
                self.inv(),
                self@ == old(self)@.with_cells(self@.cells),
                self@.cells.len() == old(self)@.cells.len(),
                forall|j: int|
                    0 <= j < old(self)@.linear() ==> self@.cells[j] == if spec_written(
                        j,
                        idx as int,
                        i as int,
                        old(self)@.linear(),
                    ) {
                        spec_with_code(old(self)@.cells[j], code)
                    } else {
                        old(self)@.cells[j]
                    },
            decreases n - i,
        {
            proof {
                lemma_written_step(idx as int, i as int, old(self)@.linear());
            }
            self._set_code(idx as i64 + i as i64, code);
            i = i + 1;
        }
        self
    }

    /// Overwrites the pattern code of the cell at `(x, y)`.
    pub fn set_code_at(&mut self, x: i32, y: i32, code: BgCode) -> (ret: &mut BgResources)
        requires
            old(self).inv(),
        ensures
            ret.inv(),
            ret@ == old(self)@.with_cells(
                old(self)@.cells.update(
                    old(self)@.wrap(old(self)@.at(x as int, y as int)),
                    spec_with_code(
                        old(self)@.cells[old(self)@.wrap(old(self)@.at(x as int, y as int))],
                        code,
                    ),
                ),
            ),
            *final(self) == *final(ret),
    {
        proof {
            lemma_at_bounds(self@, x as int, y as int);
        }
        let idx: i64 = x as i64 + y as i64 * self.rect_size.0 as i64;
        self._set_code(idx, code);
        self
    }

    /// Overwrites the pattern code of `n` consecutive cells starting at `(x, y)`,
    /// wrapping through the flattened address space.
    #[verifier::loop_isolation(false)]
    pub fn set_code_n_at(&mut self, x: i32, y: i32, code: BgCode, n: i32) -> (ret: &mut BgResources)
        requires
            old(self).inv(),
        ensures
            ret.inv(),
            ret@ == old(self)@.with_cells(ret@.cells),
            ret@.cells.len() == old(self)@.cells.len(),
            forall|j: int|
                0 <= j < old(self)@.linear() ==> ret@.cells[j] == if spec_written(
                    j,
                    old(self)@.at(x as int, y as int),
                    n as int,
                    old(self)@.linear(),
                ) {
                    spec_with_code(old(self)@.cells[j], code)
                } else {
                    old(self)@.cells[j]
                },
            *final(self) == *final(ret),
    {
        proof {
            lemma_at_bounds(self@, x as int, y as int);
        }
        let idx: i64 = x as i64 + y as i64 * self.rect_size.0 as i64;
        proof {
            lemma_linear_bounds(old(self)@);
            lemma_written_zero(old(self)@.at(x as int, y as int), old(self)@.linear());
        }
        let mut i: i32 = 0;
        while i < n
            invariant
                0 <= i,
                i <= n || i == 0,
                self.inv(),
                idx as int == old(self)@.at(x as int, y as int),
                self@ == old(self)@.with_cells(self@.cells),
                self@.cells.len() == old(self)@.cells.len(),
                forall|j: int|
                    0 <= j < old(self)@.linear() ==> self@.cells[j] == if spec_written(
                        j,
                        old(self)@.at(x as int, y as int),
                        i as int,
                        old(self)@.linear(),
                    ) {
                        spec_with_code(old(self)@.cells[j], code)
                    } else {
                        old(self)@.cells[j]
                    },
            decreases n - i,
        {
            proof {
                lemma_written_step(old(self)@.at(x as int, y as int), i as int, old(self)@.linear());
            }
            self._set_code(idx + i as i64, code);
            i = i + 1;
        }
        self
    }

    /// Overwrites the pattern code of every cell of the plane.
    #[verifier::loop_isolation(false)]
    pub fn fill_code(&mut self, code: BgCode) -> (ret: &mut BgResources)
        requires
            old(self).inv(),
        ensures
            ret.inv(),
            ret@ == old(self)@.with_cells(ret@.cells),
            ret@.cells.len() == old(self)@.cells.len(),
            forall|j: int|
                0 <= j < old(self)@.linear() ==> ret@.cells[j] == spec_with_code(old(self)@.cells[j], code),
            *final(self) == *final(ret),
    {
        proof {
            lemma_linear_bounds(old(self)@);
        }
        let linear = self.linear_size;
        let mut i: i32 = 0;
        while i < linear
            invariant
                0 <= i <= linear,
                self.inv(),
                self@ == old(self)@.with_cells(self@.cells),
                self@.cells.len() == old(self)@.cells.len(),
                forall|j: int| 0 <= j < i ==> self@.cells[j] == spec_with_code(old(self)@.cells[j], code),
                forall|j: int| i <= j < old(self)@.linear() ==> self@.cells[j] == old(self)@.cells[j],
            decreases linear - i,
        {
            proof {
                vstd::arithmetic::div_mod::lemma_small_mod(i as nat, old(self)@.linear() as nat);
            }
            self._set_code(i as i64, code);
            i = i + 1;
        }
        self
    }

    /// The palette behind a wrapped linear index.
    fn _get_palette(&self, idx: i64) -> (r: BgPalette)
        requires
            self.inv(),
            -0x4000_0000_0000_0000 <= idx,
        ensures
            r == self@.cell_at(idx as int).palette,
    {
        proof {
            lemma_linear_bounds(self@);
        }
        let i = u_mod(idx, self.linear_size as i64) as usize;
        self.cur_buffer[i].palette
    }

    /// Overwrites the palette behind a wrapped linear index.
    fn _set_palette(&mut self, idx: i64, palette: BgPalette)
        requires
            old(self).inv(),
            -0x4000_0000_0000_0000 <= idx,
        ensures
            final(self).inv(),
            final(self)@ == old(self)@.with_cells(
                old(self)@.cells.update(
                    old(self)@.wrap(idx as int),
                    spec_with_palette(old(self)@.cells[old(self)@.wrap(idx as int)], palette),
                ),
            ),
    {
        proof {
            lemma_linear_bounds(self@);
        }
        let i = u_mod(idx, self.linear_size as i64) as usize;
        let mut c = self.cur_buffer[i];
        c.palette = palette;
        self.cur_buffer[i] = c;
    }

    /// The palette of the cell at a signed linear index, wrapped onto the
    /// grid.
    pub fn get_palette(&self, idx: i32) -> (r: BgPalette)
        requires
            self.inv(),
        ensures
            r == self@.cell_at(idx as int).palette,
    {
        self._get_palette(idx as i64)
    }

    /// The palette of the cell at `(x, y)`.
    pub fn get_palette_at(&self, x: i32, y: i32) -> (r: BgPalette)
        requires
            self.inv(),
        ensures
            r == self@.cell_at(self@.at(x as int, y as int)).palette,
    {
        proof {
            lemma_at_bounds(self@, x as int, y as int);
        }
        let idx: i64 = x as i64 + y as i64 * self.rect_size.0 as i64;
        self._get_palette(idx)
    }

    /// Overwrites the palette of the cell at a signed linear index.
    pub fn set_palette(&mut self, idx: i32, palette: BgPalette) -> (ret: &mut BgResources)
        requires
            old(self).inv(),
        ensures
            ret.inv(),
            ret@ == old(self)@.with_cells(
                old(self)@.cells.update(
                    old(self)@.wrap(idx as int),
                    spec_with_palette(old(self)@.cells[old(self)@.wrap(idx as int)], palette),
                ),
            ),
            *final(self) == *final(ret),
    {
        self._set_palette(idx as i64, palette);
        self
    }

    /// Overwrites the palette of `n` consecutive cells starting at a signed
    /// linear index, wrapping through the flattened address space.
    #[verifier::loop_isolation(false)]
    pub fn set_palette_n(&mut self, idx: i32, palette: BgPalette, n: i32) -> (ret: &mut BgResources)
        requires
            old(self).inv(),
        ensures
            ret.inv(),
            ret@ == old(self)@.with_cells(ret@.cells),
            ret@.cells.len() == old(self)@.cells.len(),
            forall|j: int|
                0 <= j < old(self)@.linear() ==> ret@.cells[j] == if spec_written(
                    j,
                    idx as int,
                    n as int,
                    old(self)@.linear(),
                ) {
                    spec_with_palette(old(self)@.cells[j], palette)
                } else {
                    old(self)@.cells[j]
                },
            *final(self) == *final(ret),
    {
        proof {
            lemma_linear_bounds(old(self)@);
            lemma_written_zero(idx as int, old(self)@.linear());
        }
        let mut i: i32 = 0;
        while i < n
            invariant
                0 <= i,
                i <= n || i == 0,
                self.inv(),
                self@ == old(self)@.with_cells(self@.cells),
                self@.cells.len() == old(self)@.cells.len(),
                forall|j: int|
                    0 <= j < old(self)@.linear() ==> self@.cells[j] == if spec_written(
                        j,
                        idx as int,
                        i as int,
                        old(self)@.linear(),
                    ) {
                        spec_with_palette(old(self)@.cells[j], palette)
                    } else {
                        old(self)@.cells[j]
                    },
            decreases n - i,
        {
            proof {
                lemma_written_step(idx as int, i as int, old(self)@.linear());
            }
            self._set_palette(idx as i64 + i as i64, palette);
            i = i + 1;
        }
        self
    }

    /// Overwrites the palette of the cell at `(x, y)`.
    pub fn set_palette_at(&mut self, x: i32, y: i32, palette: BgPalette) -> (ret: &mut BgResources)
        requires
            old(self).inv(),
        ensures
            ret.inv(),
            ret@ == old(self)@.with_cells(
                old(self)@.cells.update(
                    old(self)@.wrap(old(self)@.at(x as int, y as int)),
                    spec_with_palette(
                        old(self)@.cells[old(self)@.wrap(old(self)@.at(x as int, y as int))],
                        palette,
                    ),
                ),
            ),
            *final(self) == *final(ret),
    {
        proof {
            lemma_at_bounds(self@, x as int, y as int);
        }
        let idx: i64 = x as i64 + y as i64 * self.rect_size.0 as i64;
        self._set_palette(idx, palette);
        self
    }

    /// Overwrites the palette of `n` consecutive cells starting at `(x, y)`,
    /// wrapping through the flattened address space.
    #[verifier::loop_isolation(false)]
    pub fn set_palette_n_at(&mut self, x: i32, y: i32, palette: BgPalette, n: i32) -> (ret: &mut BgResources)
        requires
            old(self).inv(),
        ensures
            ret.inv(),
            ret@ == old(self)@.with_cells(ret@.cells),
            ret@.cells.len() == old(self)@.cells.len(),
            forall|j: int|
                0 <= j < old(self)@.linear() ==> ret@.cells[j] == if spec_written(
                    j,
                    old(self)@.at(x as int, y as int),
                    n as int,
                    old(self)@.linear(),
                ) {
                    spec_with_palette(old(self)@.cells[j], palette)
                } else {
                    old(self)@.cells[j]
                },
            *final(self) == *final(ret),
    {
        proof {
            lemma_at_bounds(self@, x as int, y as int);
        }
        let idx: i64 = x as i64 + y as i64 * self.rect_size.0 as i64;
        proof {
            lemma_linear_bounds(old(self)@);
            lemma_written_zero(old(self)@.at(x as int, y as int), old(self)@.linear());
        }
        let mut i: i32 = 0;
        while i < n
            invariant
                0 <= i,
                i <= n || i == 0,
                self.inv(),
                idx as int == old(self)@.at(x as int, y as int),
                self@ == old(self)@.with_cells(self@.cells),
                self@.cells.len() == old(self)@.cells.len(),
                forall|j: int|
                    0 <= j < old(self)@.linear() ==> self@.cells[j] == if spec_written(
                        j,
                        old(self)@.at(x as int, y as int),
                        i as int,
                        old(self)@.linear(),
                    ) {
                        spec_with_palette(old(self)@.cells[j], palette)
                    } else {
                        old(self)@.cells[j]
                    },
            decreases n - i,
        {
            proof {
                lemma_written_step(old(self)@.at(x as int, y as int), i as int, old(self)@.linear());
            }
            self._set_palette(idx + i as i64, palette);
            i = i + 1;
        }
        self
    }

    /// Overwrites the palette of every cell of the plane.
    #[verifier::loop_isolation(false)]
    pub fn fill_palette(&mut self, palette: BgPalette) -> (ret: &mut BgResources)
        requires
            old(self).inv(),
        ensures
            ret.inv(),
            ret@ == old(self)@.with_cells(ret@.cells),
            ret@.cells.len() == old(self)@.cells.len(),
            forall|j: int|
                0 <= j < old(self)@.linear() ==> ret@.cells[j] == spec_with_palette(old(self)@.cells[j], palette),
            *final(self) == *final(ret),
    {
        proof {
            lemma_linear_bounds(old(self)@);
        }
        let linear = self.linear_size;
        let mut i: i32 = 0;
        while i < linear
            invariant
                0 <= i <= linear,
                self.inv(),
                self@ == old(self)@.with_cells(self@.cells),
                self@.cells.len() == old(self)@.cells.len(),
                forall|j: int| 0 <= j < i ==> self@.cells[j] == spec_with_palette(old(self)@.cells[j], palette),
                forall|j: int| i <= j < old(self)@.linear() ==> self@.cells[j] == old(self)@.cells[j],
            decreases linear - i,
        {
            proof {
                vstd::arithmetic::div_mod::lemma_small_mod(i as nat, old(self)@.linear() as nat);
            }
            self._set_palette(i as i64, palette);
            i = i + 1;
        }
        self
    }

    /// The symmetry behind a wrapped linear index.
    fn _get_symmetry(&self, idx: i64) -> (r: BgSymmetry)
        requires
            self.inv(),
            -0x4000_0000_0000_0000 <= idx,
        ensures
            r == self@.cell_at(idx as int).symmetry,
    {
        proof {
            lemma_linear_bounds(self@);
        }
        let i = u_mod(idx, self.linear_size as i64) as usize;
        self.cur_buffer[i].symmetry
    }

    /// Overwrites the symmetry behind a wrapped linear index.
    fn _set_symmetry(&mut self, idx: i64, symmetry: BgSymmetry)
        requires
            old(self).inv(),
            -0x4000_0000_0000_0000 <= idx,
        ensures
            final(self).inv(),
            final(self)@ == old(self)@.with_cells(
                old(self)@.cells.update(
                    old(self)@.wrap(idx as int),
                    spec_with_symmetry(old(self)@.cells[old(self)@.wrap(idx as int)], symmetry),
                ),
            ),
    {
        proof {
            lemma_linear_bounds(self@);
        }
        let i = u_mod(idx, self.linear_size as i64) as usize;
        let mut c = self.cur_buffer[i];
        c.symmetry = symmetry;
        self.cur_buffer[i] = c;
    }

    /// The symmetry of the cell at a signed linear index, wrapped onto the
    /// grid.
    pub fn get_symmetry(&self, idx: i32) -> (r: BgSymmetry)
        requires
            self.inv(),
        ensures
            r == self@.cell_at(idx as int).symmetry,
    {
        self._get_symmetry(idx as i64)
    }

    /// The symmetry of the cell at `(x, y)`.
    pub fn get_symmetry_at(&self, x: i32, y: i32) -> (r: BgSymmetry)
        requires
            self.inv(),
        ensures
            r == self@.cell_at(self@.at(x as int, y as int)).symmetry,
    {
        proof {
            lemma_at_bounds(self@, x as int, y as int);
        }
        let idx: i64 = x as i64 + y as i64 * self.rect_size.0 as i64;
        self._get_symmetry(idx)
    }

    /// Overwrites the symmetry of the cell at a signed linear index.
    pub fn set_symmetry(&mut self, idx: i32, symmetry: BgSymmetry) -> (ret: &mut BgResources)
        requires
            old(self).inv(),
        ensures
            ret.inv(),
            ret@ == old(self)@.with_cells(
                old(self)@.cells.update(
                    old(self)@.wrap(idx as int),
                    spec_with_symmetry(old(self)@.cells[old(self)@.wrap(idx as int)], symmetry),
                ),
            ),
            *final(self) == *final(ret),
    {
        self._set_symmetry(idx as i64, symmetry);
        self
    }

    /// Overwrites the symmetry of `n` consecutive cells starting at a signed
    /// linear index, wrapping through the flattened address space.
    #[verifier::loop_isolation(false)]
    pub fn set_symmetry_n(&mut self, idx: i32, symmetry: BgSymmetry, n: i32) -> (ret: &mut BgResources)
        requires
            old(self).inv(),
        ensures
            ret.inv(),
            ret@ == old(self)@.with_cells(ret@.cells),
            ret@.cells.len() == old(self)@.cells.len(),
            forall|j: int|
                0 <= j < old(self)@.linear() ==> ret@.cells[j] == if spec_written(
                    j,
                    idx as int,
                    n as int,
                    old(self)@.linear(),
                ) {
                    spec_with_symmetry(old(self)@.cells[j], symmetry)
                } else {
                    old(self)@.cells[j]
                },
            *final(self) == *final(ret),
    {
        proof {
            lemma_linear_bounds(old(self)@);
            lemma_written_zero(idx as int, old(self)@.linear());
        }
        let mut i: i32 = 0;
        while i < n
            invariant
                0 <= i,
                i <= n || i == 0,
                self.inv(),
                self@ == old(self)@.with_cells(self@.cells),
                self@.cells.len() == old(self)@.cells.len(),
                forall|j: int|
                    0 <= j < old(self)@.linear() ==> self@.cells[j] == if spec_written(
                        j,
                        idx as int,
                        i as int,
                        old(self)@.linear(),
                    ) {
                        spec_with_symmetry(old(self)@.cells[j], symmetry)
                    } else {
                        old(self)@.cells[j]
                    },
            decreases n - i,
        {
            proof {
                lemma_written_step(idx as int, i as int, old(self)@.linear());
            }
            self._set_symmetry(idx as i64 + i as i64, symmetry);
            i = i + 1;
        }
        self
    }

    /// Overwrites the symmetry of the cell at `(x, y)`.
    pub fn set_symmetry_at(&mut self, x: i32, y: i32, symmetry: BgSymmetry) -> (ret: &mut BgResources)
        requires
            old(self).inv(),
        ensures
            ret.inv(),
            ret@ == old(self)@.with_cells(
                old(self)@.cells.update(
                    old(self)@.wrap(old(self)@.at(x as int, y as int)),
                    spec_with_symmetry(
                        old(self)@.cells[old(self)@.wrap(old(self)@.at(x as int, y as int))],
                        symmetry,
                    ),
                ),
            ),
            *final(self) == *final(ret),
    {
        proof {
            lemma_at_bounds(self@, x as int, y as int);
        }
        let idx: i64 = x as i64 + y as i64 * self.rect_size.0 as i64;
        self._set_symmetry(idx, symmetry);
        self
    }

    /// Overwrites the symmetry of `n` consecutive cells starting at `(x, y)`,
    /// wrapping through the flattened address space.
    #[verifier::loop_isolation(false)]
    pub fn set_symmetry_n_at(&mut self, x: i32, y: i32, symmetry: BgSymmetry, n: i32) -> (ret: &mut BgResources)
        requires
            old(self).inv(),
        ensures
            ret.inv(),
            ret@ == old(self)@.with_cells(ret@.cells),
            ret@.cells.len() == old(self)@.cells.len(),
            forall|j: int|
                0 <= j < old(self)@.linear() ==> ret@.cells[j] == if spec_written(
                    j,
                    old(self)@.at(x as int, y as int),
                    n as int,
                    old(self)@.linear(),
                ) {
                    spec_with_symmetry(old(self)@.cells[j], symmetry)
                } else {
                    old(self)@.cells[j]
                },
            *final(self) == *final(ret),
    {
        proof {
            lemma_at_bounds(self@, x as int, y as int);
        }
        let idx: i64 = x as i64 + y as i64 * self.rect_size.0 as i64;
        proof {
            lemma_linear_bounds(old(self)@);
            lemma_written_zero(old(self)@.at(x as int, y as int), old(self)@.linear());
        }
        let mut i: i32 = 0;
        while i < n
            invariant
                0 <= i,
                i <= n || i == 0,
                self.inv(),
                idx as int == old(self)@.at(x as int, y as int),
                self@ == old(self)@.with_cells(self@.cells),
                self@.cells.len() == old(self)@.cells.len(),
                forall|j: int|
                    0 <= j < old(self)@.linear() ==> self@.cells[j] == if spec_written(
                        j,
                        old(self)@.at(x as int, y as int),
                        i as int,
                        old(self)@.linear(),
                    ) {
                        spec_with_symmetry(old(self)@.cells[j], symmetry)
                    } else {
                        old(self)@.cells[j]
                    },
            decreases n - i,
        {
            proof {
                lemma_written_step(old(self)@.at(x as int, y as int), i as int, old(self)@.linear());
            }
            self._set_symmetry(idx + i as i64, symmetry);
            i = i + 1;
        }
        self
    }

    /// Overwrites the symmetry of every cell of the plane.
    #[verifier::loop_isolation(false)]
    pub fn fill_symmetry(&mut self, symmetry: BgSymmetry) -> (ret: &mut BgResources)
        requires
            old(self).inv(),
        ensures
            ret.inv(),
            ret@ == old(self)@.with_cells(ret@.cells),
            ret@.cells.len() == old(self)@.cells.len(),
            forall|j: int|
                0 <= j < old(self)@.linear() ==> ret@.cells[j] == spec_with_symmetry(old(self)@.cells[j], symmetry),
            *final(self) == *final(ret),
    {
        proof {
            lemma_linear_bounds(old(self)@);
        }
        let linear = self.linear_size;
        let mut i: i32 = 0;
        while i < linear
            invariant
                0 <= i <= linear,
                self.inv(),
                self@ == old(self)@.with_cells(self@.cells),
                self@.cells.len() == old(self)@.cells.len(),
                forall|j: int| 0 <= j < i ==> self@.cells[j] == spec_with_symmetry(old(self)@.cells[j], symmetry),
                forall|j: int| i <= j < old(self)@.linear() ==> self@.cells[j] == old(self)@.cells[j],
            decreases linear - i,
        {
            proof {
                vstd::arithmetic::div_mod::lemma_small_mod(i as nat, old(self)@.linear() as nat);
            }
            self._set_symmetry(i as i64, symmetry);
            i = i + 1;
        }
        self
    }
}

} // verus!
