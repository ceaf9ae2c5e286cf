use bgsp::bgsp_common::Symmetry;
use bgsp::imageops::{blend, overlay, replace};
use bgsp::rgba_image::{Rgba, RgbaImage};

#[test]
fn compose_with_identity() {
    let all = [
        Symmetry::Normal,
        Symmetry::Rotate90,
        Symmetry::Rotate180,
        Symmetry::Rotate270,
        Symmetry::Mirror,
        Symmetry::MirrorRotate90,
        Symmetry::MirrorRotate180,
        Symmetry::MirrorRotate270,
    ];
    for s in all {
        assert_eq!(s.compose(Symmetry::Normal), s);
        assert_eq!(Symmetry::Normal.compose(s), s);
    }
}

#[test]
fn compose_rotations_add() {
    assert_eq!(
        Symmetry::Rotate90.compose(Symmetry::Rotate90),
        Symmetry::Rotate180
    );
    assert_eq!(
        Symmetry::Rotate90.compose(Symmetry::Rotate270),
        Symmetry::Normal
    );
    assert_eq!(
        Symmetry::Rotate180.compose(Symmetry::Rotate270),
        Symmetry::Rotate90
    );
}

#[test]
fn mirror_is_an_involution() {
    assert_eq!(Symmetry::Mirror.compose(Symmetry::Mirror), Symmetry::Normal);
    assert_eq!(
        Symmetry::MirrorRotate180.compose(Symmetry::MirrorRotate180),
        Symmetry::Normal
    );
}

#[test]
fn has_rotate90_marks_quarter_turns() {
    assert!(Symmetry::Rotate90.has_rotate90());
    assert!(Symmetry::Rotate270.has_rotate90());
    assert!(Symmetry::MirrorRotate90.has_rotate90());
    assert!(Symmetry::MirrorRotate270.has_rotate90());
    assert!(!Symmetry::Normal.has_rotate90());
    assert!(!Symmetry::Rotate180.has_rotate90());
    assert!(!Symmetry::Mirror.has_rotate90());
    assert!(!Symmetry::MirrorRotate180.has_rotate90());
}

#[test]
fn non_default_differs_from_default() {
    assert_ne!(Symmetry::non_default(), Symmetry::default());
}

#[test]
fn blend_opaque_top_wins_transparent_top_loses() {
    let top = Rgba::new(10, 20, 30, 255);
    let bottom = Rgba::new(200, 100, 50, 255);
    assert_eq!(blend(top, bottom), top);
    let clear = Rgba::new(10, 20, 30, 0);
    assert_eq!(blend(clear, bottom), bottom);
}

#[test]
fn blend_half_alpha_exact_values() {
    let top = Rgba::new(100, 0, 0, 128);
    let bottom = Rgba::new(0, 0, 100, 255);
    let c = blend(top, bottom);
    assert_eq!(c.r, 50);
    assert_eq!(c.g, 0);
    assert_eq!(c.b, 49);
    assert_eq!(c.a, 255);
}

#[test]
fn replace_overwrites_alpha_and_clips() {
    let mut bottom = RgbaImage::new(4, 4);
    bottom.set_pixel(0, 0, Rgba::new(9, 9, 9, 255));
    let mut top = RgbaImage::new(2, 2);
    top.set_pixel(0, 0, Rgba::new(1, 2, 3, 0));
    top.set_pixel(1, 1, Rgba::new(4, 5, 6, 255));
    replace(&mut bottom, &top, 3, 3);
    assert_eq!(bottom.pixel(3, 3), Rgba::new(1, 2, 3, 0));
    assert_eq!(bottom.pixel(0, 0), Rgba::new(9, 9, 9, 255));
    replace(&mut bottom, &top, 0, 0);
    assert_eq!(bottom.pixel(0, 0), Rgba::new(1, 2, 3, 0));
    assert_eq!(bottom.pixel(1, 1), Rgba::new(4, 5, 6, 255));
}

#[test]
fn overlay_keeps_bottom_under_transparent_top() {
    let mut bottom = RgbaImage::new(2, 2);
    bottom.set_pixel(0, 0, Rgba::new(9, 9, 9, 255));
    let mut top = RgbaImage::new(2, 2);
    top.set_pixel(1, 1, Rgba::new(4, 5, 6, 255));
    overlay(&mut bottom, &top, 0, 0);
    assert_eq!(bottom.pixel(0, 0), Rgba::new(9, 9, 9, 255));
    assert_eq!(bottom.pixel(1, 1), Rgba::new(4, 5, 6, 255));
}

#[test]
fn overlay_at_negative_offsets_clips() {
    let mut bottom = RgbaImage::new(2, 2);
    let mut top = RgbaImage::new(2, 2);
    top.set_pixel(0, 0, Rgba::new(1, 1, 1, 255));
    top.set_pixel(1, 1, Rgba::new(2, 2, 2, 255));
    overlay(&mut bottom, &top, -1, -1);
    assert_eq!(bottom.pixel(0, 0), Rgba::new(2, 2, 2, 255));
    assert_eq!(bottom.pixel(1, 1), Rgba::transparent());
}

#[test]
fn fresh_images_are_transparent() {
    let img = RgbaImage::new(3, 2);
    assert_eq!(img.width(), 3);
    assert_eq!(img.height(), 2);
    for y in 0..2 {
        for x in 0..3 {
            assert_eq!(img.pixel(x, y), Rgba::transparent());
        }
    }
}
