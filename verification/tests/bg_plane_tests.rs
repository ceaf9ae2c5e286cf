use bgsp::bg_resources::{AChar, BgResources, CharAttributes};
use bgsp::bgsp_common::Symmetry;
use bgsp::rgba_image::Rgba;
use bgsp::texture_bank::TextureBank;

fn red() -> Rgba {
    Rgba::new(255, 0, 0, 255)
}

fn palette_row() -> [Rgba; 16] {
    let mut row = [Rgba::transparent(); 16];
    row[1] = red();
    row
}

fn bank(scale: i32) -> TextureBank {
    let row = 0x0101_0101_0101_0101u64;
    TextureBank::new(vec![Some((1, 1, vec![row; 8]))], vec![palette_row()], scale)
}

#[test]
fn wraparound_addressing() {
    let b = bank(1);
    let mut plane = BgResources::new((4, 3), &b);
    let a = AChar::new(0, 0, Symmetry::Rotate90);
    plane.set_achar(5, &a);
    assert_eq!(plane.get_achar(5), a);
    assert_eq!(plane.get_achar(5 + 12), a);
    assert_eq!(plane.get_achar(5 + 5 * 12), a);
    assert_eq!(plane.get_achar(5 - 12), a);
    assert_eq!(plane.get_achar(5 - 4 * 12), a);
    assert_eq!(plane.get_achar(-1), plane.get_achar(11));
    assert_eq!(plane.get_achar_at(1, 1), a);
    assert_eq!(plane.get_achar_at(5, 0), a);
}

#[test]
fn dirty_diff_full_then_zero() {
    let mut b = bank(1);
    let mut plane = BgResources::new((4, 3), &b);
    assert_eq!(plane.rendering(&mut b), 12);
    assert_eq!(plane.rendering(&mut b), 0);
    plane.set_code(7, 0);
    assert_eq!(plane.rendering(&mut b), 0);
    plane.set_palette(7, 3);
    assert_eq!(plane.rendering(&mut b), 1);
    assert_eq!(plane.rendering(&mut b), 0);
}

#[test]
fn plane_dimensions_are_clamped() {
    let b = bank(1);
    let plane = BgResources::new((0, 10000), &b);
    assert_eq!(plane.width(), 1);
    assert_eq!(plane.height(), 8192);
    assert_eq!(plane.rect_size(), (1, 8192));
    assert_eq!(plane.linear_size(), 8192);
    let plane2 = BgResources::new((-5, 7), &b);
    assert_eq!(plane2.rect_size(), (1, 7));
}

#[test]
fn rendered_image_scales_with_pixel_scale_and_pattern_size() {
    let b1 = bank(1);
    let p1 = BgResources::new((4, 3), &b1);
    assert_eq!(p1.rendered_image().width(), 4 * 8);
    assert_eq!(p1.rendered_image().height(), 3 * 8);
    let b2 = bank(2);
    let p2 = BgResources::new((4, 3), &b2);
    assert_eq!(p2.pixel_scale(), 2);
    assert_eq!(p2.rendered_image().width(), 4 * 8 * 2);
    assert_eq!(p2.rendered_image().height(), 3 * 8 * 2);
}

#[test]
fn rendering_blits_cell_pixels() {
    let mut b = bank(1);
    let mut plane = BgResources::new((2, 1), &b);
    plane.set_palette(0, 0);
    plane.rendering(&mut b);
    let img = plane.rendered_image();
    assert_eq!(img.pixel(0, 0), red());
    assert_eq!(img.pixel(7, 7), red());
    assert_eq!(img.pixel(8, 0), red());
}

#[test]
fn missing_pattern_contributes_no_pixels() {
    let mut b = bank(1);
    let mut plane = BgResources::new((1, 1), &b);
    plane.set_code(0, 55);
    assert_eq!(plane.rendering(&mut b), 1);
    let img = plane.rendered_image();
    for y in 0..8 {
        for x in 0..8 {
            assert_eq!(img.pixel(x, y), Rgba::transparent());
        }
    }
}

#[test]
fn batch_writes_wrap_through_the_flat_buffer() {
    let b = bank(1);
    let mut plane = BgResources::new((4, 2), &b);
    plane.set_code_n(6, 9, 4);
    assert_eq!(plane.get_code(6), 9);
    assert_eq!(plane.get_code(7), 9);
    assert_eq!(plane.get_code(0), 9);
    assert_eq!(plane.get_code(1), 9);
    assert_eq!(plane.get_code(2), 0);
    assert_eq!(plane.get_code(5), 0);
}

#[test]
fn batch_writes_spill_across_rows() {
    let b = bank(1);
    let mut plane = BgResources::new((4, 2), &b);
    plane.set_palette_n_at(3, 0, 2, 2);
    assert_eq!(plane.get_palette_at(3, 0), 2);
    assert_eq!(plane.get_palette_at(0, 1), 2);
    assert_eq!(plane.get_palette_at(1, 1), 0);
}

#[test]
fn field_accessors_roundtrip() {
    let b = bank(1);
    let mut plane = BgResources::new((4, 4), &b);
    plane.set_code_at(2, 3, 7);
    assert_eq!(plane.get_code_at(2, 3), 7);
    assert_eq!(plane.get_code(2 + 3 * 4), 7);
    plane.set_symmetry(5, Symmetry::Mirror);
    assert_eq!(plane.get_symmetry(5), Symmetry::Mirror);
    plane.set_attributes(5, &CharAttributes::new(3, Symmetry::Rotate270));
    assert_eq!(plane.get_palette(5), 3);
    assert_eq!(plane.get_symmetry(5), Symmetry::Rotate270);
    assert_eq!(plane.get_code(5), 0);
    assert_eq!(
        plane.get_attributes(5),
        CharAttributes::new(3, Symmetry::Rotate270)
    );
    assert_eq!(
        plane.get_attributes_at(1, 1),
        CharAttributes::new(3, Symmetry::Rotate270)
    );
    plane.set_symmetry_at(1, 1, Symmetry::Normal);
    plane.set_palette_at(1, 1, 0);
    assert_eq!(plane.get_symmetry_at(1, 1), Symmetry::Normal);
    assert_eq!(plane.get_palette_at(1, 1), 0);
}

#[test]
fn builder_style_chaining() {
    let b = bank(1);
    let mut plane = BgResources::new((4, 4), &b);
    plane.set_code(0, 3).set_code(1, 4).set_palette(0, 2);
    assert_eq!(plane.get_code(0), 3);
    assert_eq!(plane.get_code(1), 4);
    assert_eq!(plane.get_palette(0), 2);
}

#[test]
fn fill_and_clear_touch_every_cell() {
    let b = bank(1);
    let mut plane = BgResources::new((3, 3), &b);
    plane.fill_code(5);
    plane.fill_palette(1);
    plane.fill_symmetry(Symmetry::Rotate180);
    for i in 0..9 {
        assert_eq!(plane.get_code(i), 5);
        assert_eq!(plane.get_palette(i), 1);
        assert_eq!(plane.get_symmetry(i), Symmetry::Rotate180);
    }
    plane.fill_attributes(&CharAttributes::new(2, Symmetry::Mirror));
    assert_eq!(plane.get_code(4), 5);
    assert_eq!(plane.get_palette(4), 2);
    plane.fill_achar(&AChar::new(1, 1, Symmetry::Normal));
    assert_eq!(plane.get_achar(8), AChar::new(1, 1, Symmetry::Normal));
    plane.clear();
    for i in 0..9 {
        assert_eq!(plane.get_achar(i), AChar::default());
    }
}

#[test]
fn base_symmetry_change_alone_marks_nothing_dirty() {
    let mut b = bank(1);
    let mut plane = BgResources::new((2, 2), &b);
    assert_eq!(plane.base_symmetry(), Symmetry::Normal);
    plane.rendering(&mut b);
    plane.set_base_symmetry(Symmetry::Rotate180);
    assert_eq!(plane.base_symmetry(), Symmetry::Rotate180);
    assert_eq!(plane.rendering(&mut b), 0);
}

#[test]
fn force_dirty_differs_from_every_fresh_cell() {
    assert_ne!(AChar::force_dirty(), AChar::default());
    assert_ne!(AChar::force_dirty(), AChar::new(0, 0, Symmetry::Normal));
}
