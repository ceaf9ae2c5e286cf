use bgsp::bgsp_common::Symmetry;
use bgsp::classic_sprite::{ClassicSprite, SpPos};
use bgsp::rgba_image::Rgba;
use bgsp::sp_resources::SpResources;
use bgsp::texture_bank::TextureBank;

fn red() -> Rgba {
    Rgba::new(255, 0, 0, 255)
}

fn blue() -> Rgba {
    Rgba::new(0, 0, 255, 255)
}

/// Palette row 0 maps index 1 to red; row 1 maps index 1 to blue.
fn palettes() -> Vec<[Rgba; 16]> {
    let mut row0 = [Rgba::transparent(); 16];
    row0[1] = red();
    let mut row1 = [Rgba::transparent(); 16];
    row1[1] = blue();
    vec![row0, row1]
}

/// Pattern 0: one solid 8x8 tile; pattern 1: a solid 10-cell-wide strip.
fn bank() -> TextureBank {
    let row = 0x0101_0101_0101_0101u64;
    TextureBank::new(
        vec![Some((1, 1, vec![row; 8])), Some((10, 1, vec![row; 80]))],
        palettes(),
        1,
    )
}

fn visible_sprite(x: i32, y: i32, code: u32, palette: u32, priority: i32) -> ClassicSprite {
    ClassicSprite {
        pos: SpPos::new(x, y),
        code,
        palette,
        symmetry: Symmetry::Normal,
        priority,
        visible: true,
    }
}

#[test]
fn equal_priorities_stack_by_index() {
    let mut b = bank();
    let mut pool = SpResources::new(4, &b);
    *pool.sp(0) = visible_sprite(2, 2, 0, 0, 5);
    *pool.sp(1) = visible_sprite(2, 2, 0, 1, 5);
    let img = pool.rendering(&mut b, 32, 32);
    // Among equal priorities the higher index carries the higher composite
    // key and is painted first, furthest back: index 0 ends up on top.
    assert_eq!(img.pixel(2, 2), red());
    assert_eq!(img.pixel(9, 9), red());
}

#[test]
fn higher_priority_paints_further_back() {
    let mut b = bank();
    let mut pool = SpResources::new(4, &b);
    *pool.sp(0) = visible_sprite(2, 2, 0, 0, 5);
    *pool.sp(1) = visible_sprite(2, 2, 0, 1, 6);
    let img = pool.rendering(&mut b, 32, 32);
    assert_eq!(img.pixel(2, 2), red());
}

#[test]
fn culling_left_boundary() {
    let mut b = bank();
    let mut pool = SpResources::new(1, &b);
    *pool.sp(0) = visible_sprite(-73, 0, 1, 0, 0);
    let img = pool.rendering(&mut b, 16, 16);
    assert_eq!(img.pixel(0, 0), Rgba::transparent());

    *pool.sp(0) = visible_sprite(-72, 0, 1, 0, 0);
    let img2 = pool.rendering(&mut b, 16, 16);
    assert_eq!(img2.pixel(0, 0), red());
    assert_eq!(img2.pixel(7, 0), red());
    assert_eq!(img2.pixel(8, 0), Rgba::transparent());
}

#[test]
fn culling_top_boundary() {
    let mut b = bank();
    let mut pool = SpResources::new(1, &b);
    let mut s = visible_sprite(0, -73, 1, 0, 0);
    s.symmetry = Symmetry::Rotate90;
    *pool.sp(0) = s;
    let img = pool.rendering(&mut b, 16, 16);
    assert_eq!(img.pixel(0, 0), Rgba::transparent());

    s.pos = SpPos::new(0, -72);
    *pool.sp(0) = s;
    let img2 = pool.rendering(&mut b, 16, 16);
    assert_eq!(img2.pixel(0, 0), red());
    assert_eq!(img2.pixel(0, 7), red());
    assert_eq!(img2.pixel(0, 8), Rgba::transparent());
}

#[test]
fn culling_right_boundary_skips_texture_lookup() {
    let mut b = bank();
    let mut pool = SpResources::new(1, &b);
    *pool.sp(0) = visible_sprite(16 + 8, 0, 0, 0, 0);
    pool.rendering(&mut b, 16, 16);
    assert_eq!(b.cashed_num(), 0);

    *pool.sp(0) = visible_sprite(16 + 7, 0, 0, 0, 0);
    pool.rendering(&mut b, 16, 16);
    assert_eq!(b.cashed_num(), 1);
}

#[test]
fn culling_bottom_boundary_skips_texture_lookup() {
    let mut b = bank();
    let mut pool = SpResources::new(1, &b);
    *pool.sp(0) = visible_sprite(0, 16 + 8, 0, 0, 0);
    pool.rendering(&mut b, 16, 16);
    assert_eq!(b.cashed_num(), 0);

    *pool.sp(0) = visible_sprite(0, 16 + 7, 0, 0, 0);
    pool.rendering(&mut b, 16, 16);
    assert_eq!(b.cashed_num(), 1);
}

#[test]
fn invisible_sprites_draw_nothing() {
    let mut b = bank();
    let mut pool = SpResources::new(8, &b);
    let img = pool.rendering(&mut b, 16, 16);
    for y in 0..16 {
        for x in 0..16 {
            assert_eq!(img.pixel(x, y), Rgba::transparent());
        }
    }
}

#[test]
fn viewport_scales_with_pixel_scale() {
    let row = 0x0101_0101_0101_0101u64;
    let mut b2 = TextureBank::new(vec![Some((1, 1, vec![row; 8]))], palettes(), 2);
    let mut pool = SpResources::new(1, &b2);
    assert_eq!(pool.pixel_scale(), 2);
    let img = pool.rendering(&mut b2, 16, 8);
    assert_eq!(img.width(), 32);
    assert_eq!(img.height(), 16);

    let mut b1 = bank();
    let mut pool1 = SpResources::new(1, &b1);
    let img1 = pool1.rendering(&mut b1, 16, 8);
    assert_eq!(img1.width(), 16);
    assert_eq!(img1.height(), 8);
}

#[test]
fn sprite_positions_scale_with_pixel_scale() {
    let row = 0x0101_0101_0101_0101u64;
    let mut b2 = TextureBank::new(vec![Some((1, 1, vec![row; 8]))], palettes(), 2);
    let mut pool = SpResources::new(1, &b2);
    *pool.sp(0) = visible_sprite(3, 1, 0, 0, 0);
    let img = pool.rendering(&mut b2, 32, 32);
    assert_eq!(img.pixel(5, 1), Rgba::transparent());
    assert_eq!(img.pixel(6, 2), red());
}

#[test]
fn pool_slots_are_mutated_in_place() {
    let b = bank();
    let mut pool = SpResources::new(3, &b);
    assert_eq!(pool.max_sprites(), 3);
    assert!(!pool.sp(2).visible);
    pool.sp(2).visible = true;
    pool.sp(2).pos.x = 5;
    pool.sp(2).priority = 7;
    assert!(pool.sp(2).visible);
    assert_eq!(pool.sp(2).pos.x, 5);
    assert_eq!(pool.sp(2).priority, 7);
    assert!(!pool.sp(0).visible);
}

#[test]
fn pool_base_symmetry_roundtrip() {
    let b = bank();
    let mut pool = SpResources::new(1, &b);
    assert_eq!(pool.base_symmetry(), Symmetry::Normal);
    pool.set_base_symmetry(Symmetry::Rotate90);
    assert_eq!(pool.base_symmetry(), Symmetry::Rotate90);
}

#[test]
fn base_symmetry_rotates_sprite_textures() {
    let mut rows = vec![0u64; 8];
    rows[0] = 0x0100_0000_0000_0000;
    let mut b = TextureBank::new(vec![Some((1, 1, rows))], palettes(), 1);
    let mut pool = SpResources::new(1, &b);
    *pool.sp(0) = visible_sprite(0, 0, 0, 0, 0);
    pool.set_base_symmetry(Symmetry::Rotate90);
    let img = pool.rendering(&mut b, 16, 16);
    assert_eq!(img.pixel(7, 0), red());
    assert_eq!(img.pixel(0, 0), Rgba::transparent());
}
