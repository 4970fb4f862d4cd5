//! Painting glyph pixels.

use oak_node::double::Double;
use oak_node::nodes::textbackend::InputText;
use oak_node::raster::{
    blend, clip_rect, draws_anything, paint, ClipRect, ClipRegion, GlyphBox, Rgba8, TargetShape,
};

fn double(v: f64) -> Double {
    Double { bits: v.to_bits() }
}

fn rgba(width: i32, height: i32) -> TargetShape {
    TargetShape { width, height, linesize_bytes: width * 4, channel_count: 4 }
}

fn gray(width: i32, height: i32) -> TargetShape {
    TargetShape { width, height, linesize_bytes: width, channel_count: 1 }
}

fn white(a: u8) -> Rgba8 {
    Rgba8 { r: 255, g: 255, b: 255, a }
}

#[test]
fn white_over_a_cleared_pixel_is_its_alpha() {
    for a in [1, 77, 128, 254, 255] {
        let mut data = vec![0u8; 16];
        blend(&mut data, rgba(2, 2), 1, 1, white(a));
        assert_eq!(data[12..16], [a, a, a, a]);
        assert!(data[..12].iter().all(|b| *b == 0));
    }
}

#[test]
fn colors_are_premultiplied_and_composited_over() {
    let mut data = vec![100, 50, 0, 200];
    blend(&mut data, rgba(1, 1), 0, 0, Rgba8 { r: 200, g: 10, b: 255, a: 128 });
    // (200 * 128 + 127) / 255 = 100, and 100 * 127 / 255 = 49.
    assert_eq!(data, vec![149, 5 + 24, 128, 128 + 99]);
}

#[test]
fn coverage_is_the_alpha_of_the_color_form() {
    let mut coverage = vec![0u8; 1];
    let mut color = vec![0u8; 4];
    for a in [3, 90, 0, 255, 17] {
        blend(&mut coverage, gray(1, 1), 0, 0, white(a));
        blend(&mut color, rgba(1, 1), 0, 0, white(a));
        assert_eq!(coverage[0], color[3]);
    }
}

#[test]
fn pixels_stay_premultiplied() {
    let mut data = vec![0u8; 4];
    for step in 0..200u32 {
        let color = Rgba8 {
            r: (step * 91) as u8,
            g: (step * 37) as u8,
            b: (step * 203) as u8,
            a: (step * 59) as u8,
        };
        blend(&mut data, rgba(1, 1), 0, 0, color);
        assert!(data[..3].iter().all(|c| *c <= data[3]), "{data:?}");
    }
}

#[test]
fn nothing_is_written_outside_the_raster() {
    let mut data = vec![9u8; 8];
    blend(&mut data, rgba(2, 1), -1, 0, white(255));
    blend(&mut data, rgba(2, 1), 0, -1, white(255));
    blend(&mut data, rgba(2, 1), 2, 0, white(255));
    blend(&mut data, rgba(2, 1), 0, 1, white(255));
    blend(&mut data, rgba(2, 1), i32::MAX, i32::MAX, white(255));
    blend(&mut data, rgba(2, 1), 0, 0, white(0));
    assert_eq!(data, vec![9u8; 8]);
    let mut short = vec![9u8; 3];
    blend(&mut short, rgba(1, 1), 0, 0, white(255));
    assert_eq!(short, vec![9u8; 3]);
}

#[test]
fn paint_stays_inside_the_clip() {
    let clip = ClipRect {
        left: double(1.0),
        top: double(0.0),
        right: double(2.5),
        bottom: double(1.0),
    };
    let mut data = vec![0u8; 4];
    for x in 0..4 {
        paint(&mut data, gray(4, 1), clip, x, 0, white(255));
    }
    assert_eq!(data, vec![0, 255, 255, 0]);
    assert!(clip.contains(2, 0));
    assert!(!clip.contains(3, 0));
    assert!(!clip.contains(1, 1));
}

#[test]
fn clips_are_cut_to_the_raster() {
    let whole = clip_rect(rgba(10, 20), None);
    assert_eq!(whole.right, double(10.0));
    assert_eq!(whole.bottom, double(20.0));
    let region = ClipRegion {
        left: double(-5.0),
        top: double(4.0),
        width: double(8.0),
        height: double(100.0),
        right: double(3.0),
        bottom: double(104.0),
    };
    assert_eq!(
        clip_rect(rgba(10, 20), Some(region)),
        ClipRect {
            left: double(0.0),
            top: double(4.0),
            right: double(3.0),
            bottom: double(20.0),
        }
    );
    assert!(!clip_rect(rgba(10, 20), Some(region)).is_empty());
}

#[test]
fn regions_that_are_not_finite_are_empty() {
    for bad in [f64::NAN, f64::INFINITY, f64::NEG_INFINITY] {
        let region = ClipRegion {
            left: double(0.0),
            top: double(0.0),
            width: double(bad),
            height: double(4.0),
            right: double(bad),
            bottom: double(4.0),
        };
        assert!(clip_rect(rgba(8, 8), Some(region)).is_empty());
    }
    let flat = ClipRegion {
        left: double(2.0),
        top: double(0.0),
        width: double(-1.0),
        height: double(4.0),
        right: double(2.0),
        bottom: double(4.0),
    };
    assert!(clip_rect(rgba(8, 8), Some(flat)).is_empty());
}

#[test]
fn glyphs_outside_the_clip_are_missed() {
    let clip = clip_rect(rgba(10, 10), None);
    let at = |left: f64, top: f64| GlyphBox {
        left: double(left),
        top: double(top),
        right: double(left + 4.0),
        bottom: double(top + 4.0),
    };
    assert!(!at(-4.0, 0.0).misses(clip));
    assert!(at(-4.5, 0.0).misses(clip));
    assert!(!at(10.0, 0.0).misses(clip));
    assert!(at(10.5, 0.0).misses(clip));
    assert!(at(0.0, 11.0).misses(clip));
    assert!(at(0.0, -5.0).misses(clip));
    assert!(!at(f64::NAN, 0.0).misses(clip));
}

#[test]
fn only_positive_finite_scales_draw() {
    let text = InputText::Text("x".to_string());
    let target = rgba(4, 4);
    assert!(draws_anything(target, double(0.5), &text));
    for scale in [0.0, -0.0, -1.0, f64::NAN, f64::INFINITY] {
        assert!(!draws_anything(target, double(scale), &text), "scale {scale}");
    }
    assert!(!draws_anything(target, double(1.0), &InputText::none()));
    assert!(draws_anything(target, double(1.0), &InputText::Number(double(0.0))));
    assert!(!draws_anything(rgba(0, 4), double(1.0), &text));
    assert!(!draws_anything(rgba(4, -1), double(1.0), &text));
    let three = TargetShape { channel_count: 3, ..target };
    assert!(!three.is_paintable());
    let flat = TargetShape { linesize_bytes: 0, ..target };
    assert!(!flat.is_paintable());
    assert!(gray(1, 1).is_paintable());
}
