use bgsp::bgsp_common::Symmetry;
use bgsp::rgba_image::Rgba;
use bgsp::texture_bank::TextureBank;

/// A 1x1-cell pattern whose every pixel has color index `c`.
fn solid_pattern(c: u64) -> Option<(u32, u32, Vec<u64>)> {
    let row = c * 0x0101_0101_0101_0101;
    Some((1, 1, vec![row; 8]))
}

/// A 1x1-cell pattern whose only opaque pixel is the top-left one, color 1.
fn corner_pattern() -> Option<(u32, u32, Vec<u64>)> {
    let mut rows = vec![0u64; 8];
    rows[0] = 0x0100_0000_0000_0000;
    Some((1, 1, rows))
}

fn red() -> Rgba {
    Rgba::new(255, 0, 0, 255)
}

fn blue() -> Rgba {
    Rgba::new(0, 0, 255, 255)
}

/// One palette row: index 1 is red, index 2 is blue, the rest transparent.
fn palette_row() -> [Rgba; 16] {
    let mut row = [Rgba::transparent(); 16];
    row[1] = red();
    row[2] = blue();
    row
}

fn bank(scale: i32) -> TextureBank {
    TextureBank::new(
        vec![solid_pattern(1), corner_pattern(), None, Some((0, 0, vec![]))],
        vec![palette_row()],
        scale,
    )
}

#[test]
fn cache_idempotence_same_pixels_no_new_decode() {
    let mut b = bank(1);
    let t1 = b.texture(0, 0, Symmetry::Normal).unwrap();
    assert_eq!(b.cashed_num(), 1);
    let t2 = b.texture(0, 0, Symmetry::Normal).unwrap();
    assert_eq!(b.cashed_num(), 1);
    assert_eq!(t1.width(), t2.width());
    assert_eq!(t1.height(), t2.height());
    for y in 0..t1.height() {
        for x in 0..t1.width() {
            assert_eq!(t1.pixel(x, y), t2.pixel(x, y));
        }
    }
}

#[test]
fn distinct_keys_are_cached_separately() {
    let mut b = bank(1);
    b.texture(0, 0, Symmetry::Normal).unwrap();
    b.texture(0, 0, Symmetry::Rotate90).unwrap();
    b.texture(1, 0, Symmetry::Normal).unwrap();
    assert_eq!(b.cashed_num(), 3);
}

#[test]
fn code_outside_table_yields_none() {
    let mut b = bank(1);
    assert!(b.texture(100, 0, Symmetry::Normal).is_none());
    assert_eq!(b.cashed_num(), 0);
}

#[test]
fn hole_in_table_yields_none() {
    let mut b = bank(1);
    assert!(b.texture(2, 0, Symmetry::Normal).is_none());
}

#[test]
fn zero_area_footprint_yields_none() {
    let mut b = bank(1);
    assert!(b.texture(3, 0, Symmetry::Normal).is_none());
}

#[test]
fn missing_palette_row_yields_none() {
    let mut b = bank(1);
    assert!(b.texture(0, 9, Symmetry::Normal).is_none());
}

#[test]
fn pixel_scale_is_clamped() {
    assert_eq!(bank(0).pixel_scale(), 1);
    assert_eq!(bank(-3).pixel_scale(), 1);
    assert_eq!(bank(100).pixel_scale(), 8);
    assert_eq!(bank(3).pixel_scale(), 3);
}

#[test]
fn clear_cache_keeps_issued_handles_valid() {
    let mut b = bank(1);
    let t = b.texture(0, 0, Symmetry::Normal).unwrap();
    assert_eq!(b.cashed_num(), 1);
    b.clear_cache();
    assert_eq!(b.cashed_num(), 0);
    assert_eq!(t.pixel(0, 0), red());
    let t2 = b.texture(0, 0, Symmetry::Normal).unwrap();
    assert_eq!(b.cashed_num(), 1);
    assert_eq!(t2.pixel(0, 0), red());
}

#[test]
fn texture_decodes_pattern_pixels() {
    let mut b = bank(1);
    let t = b.texture(1, 0, Symmetry::Normal).unwrap();
    assert_eq!(t.width(), 8);
    assert_eq!(t.height(), 8);
    assert_eq!(t.pixel(0, 0), red());
    assert_eq!(t.pixel(1, 0), Rgba::transparent());
    assert_eq!(t.pixel(0, 1), Rgba::transparent());
}

#[test]
fn texture_scales_pixels_into_blocks() {
    let mut b = bank(2);
    let t = b.texture(1, 0, Symmetry::Normal).unwrap();
    assert_eq!(t.width(), 16);
    assert_eq!(t.height(), 16);
    assert_eq!(t.pixel(0, 0), red());
    assert_eq!(t.pixel(1, 1), red());
    assert_eq!(t.pixel(2, 0), Rgba::transparent());
    assert_eq!(t.pixel(0, 2), Rgba::transparent());
}

#[test]
fn rotate90_moves_corner_pixel() {
    let mut b = bank(1);
    let t = b.texture(1, 0, Symmetry::Rotate90).unwrap();
    assert_eq!(t.pixel(7, 0), red());
    assert_eq!(t.pixel(0, 0), Rgba::transparent());
}

#[test]
fn mirror_moves_corner_pixel() {
    let mut b = bank(1);
    let t = b.texture(1, 0, Symmetry::Mirror).unwrap();
    assert_eq!(t.pixel(7, 0), red());
    assert_eq!(t.pixel(0, 0), Rgba::transparent());
}

#[test]
fn rotate180_moves_corner_pixel() {
    let mut b = bank(1);
    let t = b.texture(1, 0, Symmetry::Rotate180).unwrap();
    assert_eq!(t.pixel(7, 7), red());
    assert_eq!(t.pixel(0, 0), Rgba::transparent());
}

#[test]
fn rotate90_transposes_footprint() {
    let mut wide = TextureBank::new(
        vec![Some((2, 1, vec![0x0101_0101_0101_0101; 16]))],
        vec![palette_row()],
        1,
    );
    let t = wide.texture(0, 0, Symmetry::Normal).unwrap();
    assert_eq!((t.width(), t.height()), (16, 8));
    let r = wide.texture(0, 0, Symmetry::Rotate90).unwrap();
    assert_eq!((r.width(), r.height()), (8, 16));
}
