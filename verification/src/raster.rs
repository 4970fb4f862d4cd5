//! Painting glyph pixels into a raster.

use vstd::prelude::*;

use crate::double;
use crate::double::Double;
use crate::nodes::textbackend::InputText;

verus! {

/// A color with straight alpha.
#[derive(Clone, Copy, PartialEq, Eq, Structural, Debug)]
pub struct Rgba8 {
    /// Red.
    pub r: u8,
    /// Green.
    pub g: u8,
    /// Blue.
    pub b: u8,
    /// Alpha.
    pub a: u8,
}

/// The shape of a raster. With one channel it holds coverage, with four
/// premultiplied RGBA.
#[derive(Clone, Copy, PartialEq, Eq, Structural, Debug)]
pub struct TargetShape {
    /// Width in pixels.
    pub width: i32,
    /// Height in pixels.
    pub height: i32,
    /// Bytes per row.
    pub linesize_bytes: i32,
    /// Bytes per pixel.
    pub channel_count: i32,
}

impl TargetShape {
    /// Whether the raster can be painted: it is not empty, and has one or
    /// four channels.
    pub open spec fn paintable(self) -> bool {
        &&& self.width > 0
        &&& self.height > 0
        &&& self.linesize_bytes > 0
        &&& (self.channel_count == 1 || self.channel_count == 4)
    }

    /// Whether the raster can be painted.
    pub fn is_paintable(self) -> (r: bool)
        ensures
            r == self.paintable(),
    {
        self.width > 0 && self.height > 0 && self.linesize_bytes > 0 && (self.channel_count == 1
            || self.channel_count == 4)
    }
}

/// The part of a raster that is painted, in pixels.
#[derive(Clone, Copy, PartialEq, Eq, Structural, Debug)]
pub struct ClipRect {
    /// The first column.
    pub left: Double,
    /// The first row.
    pub top: Double,
    /// The column behind the last one.
    pub right: Double,
    /// The row behind the last one.
    pub bottom: Double,
}

impl ClipRect {
    /// Whether there is anything inside.
    pub open spec fn nonempty(self) -> bool {
        self.left.below(self.right) && self.top.below(self.bottom)
    }

    /// Whether a pixel is inside.
    pub open spec fn covers(self, x: i32, y: i32) -> bool {
        let column = double::double_of_int(x as int);
        let row = double::double_of_int(y as int);
        &&& !column.below(self.left)
        &&& !self.right.at_most(column)
        &&& !row.below(self.top)
        &&& !self.bottom.at_most(row)
    }

    /// Whether there is nothing inside.
    pub fn is_empty(self) -> (r: bool)
        ensures
            r == !self.nonempty(),
    {
        !(self.left.is_below(self.right) && self.top.is_below(self.bottom))
    }

    /// Whether a pixel is inside.
    pub fn contains(self, x: i32, y: i32) -> (r: bool)
        ensures
            r == self.covers(x, y),
    {
        let column: Double = Double::of_int(x as i64);
        let row: Double = Double::of_int(y as i64);
        !column.is_below(self.left) && !self.right.is_at_most(column) && !row.is_below(self.top)
            && !self.bottom.is_at_most(row)
    }
}

/// A box around a glyph, in pixels.
#[derive(Clone, Copy, PartialEq, Eq, Structural, Debug)]
pub struct GlyphBox {
    /// The first column.
    pub left: Double,
    /// The first row.
    pub top: Double,
    /// The last column.
    pub right: Double,
    /// The last row.
    pub bottom: Double,
}

impl GlyphBox {
    /// Whether the box lies wholly outside a clip.
    pub open spec fn outside(self, clip: ClipRect) -> bool {
        ||| self.right.below(clip.left)
        ||| clip.right.below(self.left)
        ||| self.bottom.below(clip.top)
        ||| clip.bottom.below(self.top)
    }

    /// Whether a pixel is in the box.
    pub open spec fn holds(self, x: i32, y: i32) -> bool {
        let column = double::double_of_int(x as int);
        let row = double::double_of_int(y as int);
        &&& self.left.at_most(column)
        &&& column.at_most(self.right)
        &&& self.top.at_most(row)
        &&& row.at_most(self.bottom)
    }

    /// Whether the box lies wholly outside a clip: its glyph need not be
    /// drawn.
    pub fn misses(self, clip: ClipRect) -> (r: bool)
        ensures
            r == self.outside(clip),
    {
        self.right.is_below(clip.left) || clip.right.is_below(self.left) || self.bottom.is_below(
            clip.top,
        ) || clip.bottom.is_below(self.top)
    }
}

/// Leaving out a glyph whose box misses the clip leaves out no pixel of
/// the box that the clip lets through.
pub proof fn law_missed_glyphs_are_not_seen(
    around: GlyphBox,
    clip: ClipRect,
    x: i32,
    y: i32,
)
    requires
        around.outside(clip),
        around.holds(x, y),
    ensures
        !clip.covers(x, y),
{
}

/// A part of a raster that a transform asks for, in pixels.
#[derive(Clone, Copy, PartialEq, Eq, Structural, Debug)]
pub struct ClipRegion {
    /// The first column.
    pub left: Double,
    /// The first row.
    pub top: Double,
    /// The width.
    pub width: Double,
    /// The height.
    pub height: Double,
    /// The first column plus the width, where a negative width is zero.
    pub right: Double,
    /// The first row plus the height, where a negative height is zero.
    pub bottom: Double,
}

impl ClipRegion {
    /// Whether the region is one: its corner and its size are finite.
    pub open spec fn finite(self) -> bool {
        self.left.finite() && self.top.finite() && self.width.finite() && self.height.finite()
    }

    /// Whether the region is one.
    pub fn is_finite(self) -> (r: bool)
        ensures
            r == self.finite(),
    {
        self.left.is_finite() && self.top.is_finite() && self.width.is_finite()
            && self.height.is_finite()
    }
}

/// The part of a raster inside a region: nothing where the region is not
/// finite, and the whole raster without a region.
pub open spec fn clip_within(target: TargetShape, region: Option<ClipRegion>) -> ClipRect {
    let zero = Double { bits: double::ZERO };
    let right = double::double_of_int(target.width as int);
    let bottom = double::double_of_int(target.height as int);
    match region {
        None => ClipRect { left: zero, top: zero, right, bottom },
        Some(asked) => if asked.finite() {
            ClipRect {
                left: zero.greater(asked.left),
                top: zero.greater(asked.top),
                right: right.lesser(asked.right),
                bottom: bottom.lesser(asked.bottom),
            }
        } else {
            ClipRect { left: zero, top: zero, right: zero, bottom: zero }
        },
    }
}

/// The part of a raster inside a region.
pub fn clip_rect(target: TargetShape, region: Option<ClipRegion>) -> (r: ClipRect)
    ensures
        r == clip_within(target, region),
{
    let zero: Double = Double { bits: double::ZERO };
    let right: Double = Double::of_int(target.width as i64);
    let bottom: Double = Double::of_int(target.height as i64);
    match region {
        None => ClipRect { left: zero, top: zero, right, bottom },
        Some(asked) => if asked.is_finite() {
            ClipRect {
                left: zero.max(asked.left),
                top: zero.max(asked.top),
                right: right.min(asked.right),
                bottom: bottom.min(asked.bottom),
            }
        } else {
            ClipRect { left: zero, top: zero, right: zero, bottom: zero }
        },
    }
}

/// A region never lets a pixel in that is outside the raster's clip, and
/// one that is not finite lets none in.
pub proof fn law_regions_only_narrow(
    target: TargetShape,
    region: ClipRegion,
    x: i32,
    y: i32,
)
    ensures
        clip_within(target, Some(region)).covers(x, y) ==> clip_within(target, None).covers(x, y),
        !region.finite() ==> !clip_within(target, Some(region)).nonempty(),
{
}

/// Whether a text is drawn at all: the raster can be painted, the scale is
/// a positive number, and there is some text.
pub fn draws_anything(target: TargetShape, scale: Double, text: &InputText) -> (r: bool)
    ensures
        r == (target.paintable() && scale.finite() && !scale.nonpositive() && !text@.is_empty()),
{
    target.is_paintable() && scale.is_finite() && !scale.at_most_zero() && !text.is_empty()
}

/// A premultiplied channel: rounded to the nearest byte.
pub open spec fn premultiplied(channel: u8, alpha: u8) -> int {
    (channel * alpha + 127) / 255
}

/// A source channel over a target channel, with the inverse of the source
/// alpha.
pub open spec fn over(source: int, target: u8, inverse: int) -> int {
    let v = source + target * inverse / 255;
    if v > 255 {
        255
    } else {
        v
    }
}

/// Where a pixel starts.
pub open spec fn pixel_offset(target: TargetShape, x: i32, y: i32) -> int {
    y * target.linesize_bytes + x * target.channel_count
}

/// A raster with one color composited over the pixel at `offset`.
pub open spec fn with_pixel(data: Seq<u8>, offset: int, color: Rgba8) -> Seq<u8> {
    let inverse = 255 - color.a;
    data.update(
        offset,
        over(premultiplied(color.r, color.a), data[offset], inverse) as u8,
    ).update(
        offset + 1,
        over(premultiplied(color.g, color.a), data[offset + 1], inverse) as u8,
    ).update(
        offset + 2,
        over(premultiplied(color.b, color.a), data[offset + 2], inverse) as u8,
    ).update(offset + 3, over(color.a as int, data[offset + 3], inverse) as u8)
}

/// A raster with one color composited over a pixel. A pixel outside the
/// raster and a transparent color change nothing.
pub open spec fn blended(
    data: Seq<u8>,
    target: TargetShape,
    x: i32,
    y: i32,
    color: Rgba8,
) -> Seq<u8> {
    let offset = pixel_offset(target, x, y);
    if x < 0 || y < 0 || color.a == 0 {
        data
    } else if target.channel_count == 1 {
        if offset < data.len() {
            data.update(offset, over(color.a as int, data[offset], 255 - color.a) as u8)
        } else {
            data
        }
    } else if offset + 4 <= data.len() {
        with_pixel(data, offset, color)
    } else {
        data
    }
}

/// A composited channel fits a byte.
proof fn lemma_over_fits(source: int, target: u8, inverse: int)
    requires
        0 <= source <= 255,
        0 <= inverse <= 255,
    ensures
        0 <= target * inverse <= 65025,
        0 <= over(source, target, inverse) <= 255,
{
    assert(0 <= target * inverse <= 65025) by (nonlinear_arith)
        requires
            0 <= target <= 255,
            0 <= inverse <= 255,
    ;
}

/// A premultiplied channel is at most its alpha.
proof fn lemma_premultiplied(channel: u8, alpha: u8)
    ensures
        0 <= channel * alpha <= 65025,
        0 <= premultiplied(channel, alpha) <= alpha,
        channel == 255 ==> premultiplied(channel, alpha) == alpha,
{
    assert(0 <= channel * alpha <= 255 * alpha) by (nonlinear_arith)
        requires
            0 <= channel <= 255,
            0 <= alpha <= 255,
    ;
}

/// A source channel over a target channel.
fn over_channel(source: u32, target: u8, inverse: u32) -> (r: u8)
    requires
        source <= 255,
        inverse <= 255,
    ensures
        r == over(source as int, target, inverse as int),
{
    proof {
        lemma_over_fits(source as int, target, inverse as int);
    }
    let v: u32 = source + target as u32 * inverse / 255;
    if v > 255 {
        255
    } else {
        v as u8
    }
}

/// A premultiplied channel.
fn premultiply(channel: u8, alpha: u8) -> (r: u32)
    ensures
        r == premultiplied(channel, alpha),
        r <= 255,
{
    proof {
        lemma_premultiplied(channel, alpha);
    }
    (channel as u32 * alpha as u32 + 127) / 255
}

/// Composite one color over a pixel.
pub fn blend(data: &mut [u8], target: TargetShape, x: i32, y: i32, color: Rgba8)
    requires
        target.paintable(),
    ensures
        final(data)@ == blended(old(data)@, target, x, y, color),
{
    if x < 0 || y < 0 || color.a == 0 {
        return ;
    }
    assert(0 <= y * target.linesize_bytes <= 0x3FFF_FFFF_FFFF_FFFF) by (nonlinear_arith)
        requires
            0 <= y <= 0x7FFF_FFFF,
            0 < target.linesize_bytes <= 0x7FFF_FFFF,
    ;
    assert(0 <= x * target.channel_count <= 0x2_0000_0000) by (nonlinear_arith)
        requires
            0 <= x <= 0x7FFF_FFFF,
            0 < target.channel_count <= 4,
    ;
    let start: u64 = y as u64 * target.linesize_bytes as u64 + x as u64 * target.channel_count
        as u64;
    let total: usize = data.len();
    let alpha: u32 = color.a as u32;
    let inverse: u32 = 255 - alpha;
    if target.channel_count == 1 {
        if start < total as u64 {
            let at: usize = start as usize;
            data[at] = over_channel(alpha, data[at], inverse);
        }
        return ;
    }
    if start + 4 <= total as u64 {
        let at: usize = start as usize;
        data[at] = over_channel(premultiply(color.r, color.a), data[at], inverse);
        data[at + 1] = over_channel(premultiply(color.g, color.a), data[at + 1], inverse);
        data[at + 2] = over_channel(premultiply(color.b, color.a), data[at + 2], inverse);
        data[at + 3] = over_channel(alpha, data[at + 3], inverse);
        assert(data@ =~= with_pixel(old(data)@, start as int, color));
    }
}

/// Composite one color over a pixel that is inside the clip.
pub fn paint(
    data: &mut [u8],
    target: TargetShape,
    clip: ClipRect,
    x: i32,
    y: i32,
    color: Rgba8,
)
    requires
        target.paintable(),
    ensures
        final(data)@ == (if clip.covers(x, y) {
            blended(old(data)@, target, x, y, color)
        } else {
            old(data)@
        }),
{
    if clip.contains(x, y) {
        blend(data, target, x, y, color);
    }
}

/// Whether every color channel of the pixel at `offset` is at most its
/// alpha.
pub open spec fn is_premultiplied_at(data: Seq<u8>, offset: int) -> bool {
    &&& data[offset] <= data[offset + 3]
    &&& data[offset + 1] <= data[offset + 3]
    &&& data[offset + 2] <= data[offset + 3]
}

/// Compositing keeps a pixel premultiplied, whatever the color.
pub proof fn law_pixels_stay_premultiplied(
    data: Seq<u8>,
    target: TargetShape,
    x: i32,
    y: i32,
    color: Rgba8,
)
    requires
        target.channel_count == 4,
        x >= 0,
        y >= 0,
        target.linesize_bytes > 0,
        pixel_offset(target, x, y) + 4 <= data.len(),
        is_premultiplied_at(data, pixel_offset(target, x, y)),
    ensures
        is_premultiplied_at(
            blended(data, target, x, y, color),
            pixel_offset(target, x, y),
        ),
{
    let at = pixel_offset(target, x, y);
    let inverse = 255 - color.a;
    assert(at >= 0) by {
        assert(y * target.linesize_bytes >= 0) by (nonlinear_arith)
            requires
                y >= 0,
                target.linesize_bytes > 0,
        ;
    }
    if color.a != 0 {
        lemma_channel_below_alpha(color.r, color.a, data[at], data[at + 3]);
        lemma_channel_below_alpha(color.g, color.a, data[at + 1], data[at + 3]);
        lemma_channel_below_alpha(color.b, color.a, data[at + 2], data[at + 3]);
        lemma_over_fits(color.a as int, data[at + 3], inverse as int);
    }
}

/// A composited channel is at most the composited alpha.
proof fn lemma_channel_below_alpha(channel: u8, alpha: u8, target: u8, target_alpha: u8)
    requires
        target <= target_alpha,
    ensures
        0 <= over(premultiplied(channel, alpha), target, 255 - alpha) <= over(
            alpha as int,
            target_alpha,
            255 - alpha,
        ),
{
    let inverse = 255 - alpha;
    lemma_premultiplied(channel, alpha);
    lemma_over_fits(premultiplied(channel, alpha), target, inverse as int);
    assert(target * inverse <= target_alpha * inverse) by (nonlinear_arith)
        requires
            target <= target_alpha,
            0 <= inverse,
    ;
}

/// The two raster forms agree: the coverage that a color adds is the alpha
/// that it adds.
pub proof fn law_coverage_is_alpha(
    coverage: Seq<u8>,
    pixels: Seq<u8>,
    gray: TargetShape,
    rgba: TargetShape,
    x: i32,
    y: i32,
    color: Rgba8,
)
    requires
        gray.channel_count == 1,
        rgba.channel_count == 4,
        gray.linesize_bytes > 0,
        rgba.linesize_bytes > 0,
        x >= 0,
        y >= 0,
        pixel_offset(gray, x, y) < coverage.len(),
        pixel_offset(rgba, x, y) + 4 <= pixels.len(),
        coverage[pixel_offset(gray, x, y)] == pixels[pixel_offset(rgba, x, y) + 3],
    ensures
        blended(coverage, gray, x, y, color)[pixel_offset(gray, x, y)] == blended(
            pixels,
            rgba,
            x,
            y,
            color,
        )[pixel_offset(rgba, x, y) + 3],
{
    assert(pixel_offset(gray, x, y) >= 0 && pixel_offset(rgba, x, y) >= 0) by (nonlinear_arith)
        requires
            x >= 0,
            y >= 0,
            gray.linesize_bytes > 0,
            rgba.linesize_bytes > 0,
            gray.channel_count == 1,
            rgba.channel_count == 4,
    ;
}

/// Compositing white over a cleared pixel gives the alpha in every channel.
pub proof fn law_white_over_clear(alpha: u8)
    ensures
        over(premultiplied(255, alpha), 0, 255 - alpha) == alpha,
        over(alpha as int, 0, 255 - alpha) == alpha,
{
    lemma_premultiplied(255, alpha);
}

/// A pixel is inside the clip of a raster exactly when it is a pixel of the
/// raster and inside the region that was asked for on all four sides: its
/// column is at least the region's left and below its right, its row at
/// least the region's top and below its bottom. A region that is not finite
/// has no pixel inside, and without a region all of the raster is.
pub proof fn law_clips_are_the_region_within_the_raster(
    target: TargetShape,
    region: Option<ClipRegion>,
    clip: ClipRect,
    x: i32,
    y: i32,
    inside: bool,
)
    requires
        call_ensures(clip_rect, (target, region), clip),
        call_ensures(ClipRect::contains, (clip, x, y), inside),
    ensures
        ({
            let column = double::double_of_int(x as int);
            let row = double::double_of_int(y as int);
            inside == (0 <= x < target.width && 0 <= y < target.height && match region {
                None => true,
                Some(asked) => {
                    &&& asked.left.finite() && asked.top.finite() && asked.width.finite()
                        && asked.height.finite()
                    &&& asked.left.at_most(column)
                    &&& (asked.right.nan() || column.below(asked.right))
                    &&& asked.top.at_most(row)
                    &&& (asked.bottom.nan() || row.below(asked.bottom))
                },
            })
        }),
{
    double::law_integers_keep_their_order(x as int, 0);
    double::law_integers_keep_their_order(y as int, 0);
    double::law_integers_keep_their_order(x as int, target.width as int);
    double::law_integers_keep_their_order(y as int, target.height as int);
    double::law_integers_keep_their_order(target.width as int, x as int);
    double::law_integers_keep_their_order(target.height as int, y as int);
    double::law_integers_keep_their_order(0, x as int);
    double::law_integers_keep_their_order(0, y as int);
    assert(double::double_of_int(0) == Double { bits: double::ZERO });
}

/// A clip with a pixel inside is not empty.
pub proof fn law_covered_clips_are_not_empty(
    clip: ClipRect,
    x: i32,
    y: i32,
    inside: bool,
    empty: bool,
)
    requires
        !clip.left.nan(),
        !clip.top.nan(),
        !clip.right.nan(),
        !clip.bottom.nan(),
        call_ensures(ClipRect::contains, (clip, x, y), inside),
        call_ensures(ClipRect::is_empty, (clip,), empty),
    ensures
        inside ==> !empty,
        clip.right.at_most(clip.left) || clip.bottom.at_most(clip.top) ==> empty,
{
    double::law_integers_keep_their_order(x as int, x as int);
    double::law_integers_keep_their_order(y as int, y as int);
}

/// Painting changes the one pixel at its place in the raster, and only
/// where the clip lets it through and the color is not transparent.
pub proof fn law_painting_changes_one_pixel(
    data: &mut [u8],
    target: TargetShape,
    clip: ClipRect,
    x: i32,
    y: i32,
    color: Rgba8,
    inside: bool,
    k: int,
)
    requires
        target.paintable(),
        call_ensures(ClipRect::contains, (clip, x, y), inside),
        call_ensures(paint, (data, target, clip, x, y, color), ()),
        0 <= k < old(data)@.len(),
    ensures
        final(data)@.len() == old(data)@.len(),
        !inside || color.a == 0 ==> final(data)@ == old(data)@,
        k < y * target.linesize_bytes + x * target.channel_count || k >= y * target.linesize_bytes
            + (x + 1) * target.channel_count ==> final(data)@[k] == old(data)@[k],
{
    assert((x + 1) * target.channel_count == x * target.channel_count + target.channel_count)
        by (nonlinear_arith);
}

/// A painted pixel is the color over what was there. The color is
/// multiplied by its alpha and rounded to the nearest byte, and what was
/// there counts by what the alpha leaves of it, rounded down. So an opaque
/// color replaces the pixel.
pub proof fn law_painted_pixels_are_composited(
    data: &mut [u8],
    target: TargetShape,
    clip: ClipRect,
    x: i32,
    y: i32,
    color: Rgba8,
    c: int,
    scaled: int,
    left: int,
)
    requires
        target.paintable(),
        x >= 0,
        y >= 0,
        color.a > 0,
        call_ensures(ClipRect::contains, (clip, x, y), true),
        call_ensures(paint, (data, target, clip, x, y, color), ()),
        0 <= c < target.channel_count,
        y * target.linesize_bytes + (x + 1) * target.channel_count <= old(data)@.len(),
        ({
            let alpha = color.a as int;
            let was = old(data)@[y * target.linesize_bytes + x * target.channel_count + c] as int;
            let channel = if target.channel_count == 1 || c == 3 {
                255
            } else if c == 0 {
                color.r as int
            } else if c == 1 {
                color.g as int
            } else {
                color.b as int
            };
            &&& -127 <= 255 * scaled - channel * alpha <= 127
            &&& 255 * left <= was * (255 - alpha) < 255 * left + 255
        }),
    ensures
        ({
            let is = final(data)@[y * target.linesize_bytes + x * target.channel_count + c] as int;
            &&& is == (if scaled + left > 255 {
                255
            } else {
                scaled + left
            })
            &&& color.a == 255 ==> is == (if target.channel_count == 1 || c == 3 {
                255
            } else if c == 0 {
                color.r as int
            } else if c == 1 {
                color.g as int
            } else {
                color.b as int
            })
        }),
{
    let at = y * target.linesize_bytes + x * target.channel_count;
    assert((x + 1) * target.channel_count == x * target.channel_count + target.channel_count)
        by (nonlinear_arith);
    assert(at >= 0) by (nonlinear_arith)
        requires
            at == y * target.linesize_bytes + x * target.channel_count,
            x >= 0,
            y >= 0,
            target.linesize_bytes > 0,
            target.channel_count > 0,
    ;
    let was = old(data)@[at + c];
    let inverse = 255 - color.a;
    lemma_over_fits(color.a as int, was, inverse as int);
    lemma_premultiplied(color.r, color.a);
    lemma_premultiplied(color.g, color.a);
    lemma_premultiplied(color.b, color.a);
    lemma_over_fits(premultiplied(color.r, color.a), was, inverse as int);
    lemma_over_fits(premultiplied(color.g, color.a), was, inverse as int);
    lemma_over_fits(premultiplied(color.b, color.a), was, inverse as int);
    assert(left == was * inverse / 255);
    let channel = if target.channel_count == 1 || c == 3 {
        255u8
    } else if c == 0 {
        color.r
    } else if c == 1 {
        color.g
    } else {
        color.b
    };
    assert(scaled == premultiplied(channel, color.a));
    lemma_premultiplied(255, color.a);
    assert(final(data)@ == blended(old(data)@, target, x, y, color));
    assert(pixel_offset(target, x, y) == at);
    let is = final(data)@[at + c] as int;
    if target.channel_count == 4 {
        assert(final(data)@ == with_pixel(old(data)@, at, color));
    }
    assert(is == over(scaled, was, inverse as int));
    if color.a == 255 {
        assert(scaled == channel);
        assert(was * inverse == 0) by (nonlinear_arith)
            requires
                inverse == 0,
        ;
        assert(left == 0);
    }
}

/// A text is drawn exactly where there is something to draw: a raster with
/// pixels of one or four channels, a positive finite scale and some text.
pub proof fn law_nothing_is_drawn_without_need(
    target: TargetShape,
    scale: Double,
    text: &InputText,
    r: bool,
)
    requires
        call_ensures(draws_anything, (target, scale, text), r),
    ensures
        r == (target.width > 0 && target.height > 0 && target.linesize_bytes > 0 && (
        target.channel_count == 1 || target.channel_count == 4) && 0 < scale.bits
            < 0x7FF0_0000_0000_0000 && match *text {
            InputText::Text(s) => s@.len() > 0,
            InputText::Number(_) => true,
        }),
{
}

/// A pixel that does not lie wholly in the raster is not painted.
pub proof fn law_pixels_outside_are_not_painted(
    data: &mut [u8],
    target: TargetShape,
    clip: ClipRect,
    x: i32,
    y: i32,
    color: Rgba8,
)
    requires
        target.paintable(),
        call_ensures(paint, (data, target, clip, x, y, color), ()),
        x < 0 || y < 0 || y * target.linesize_bytes + (x + 1) * target.channel_count > old(
            data,
        )@.len(),
    ensures
        final(data)@ == old(data)@,
{
    assert((x + 1) * target.channel_count == x * target.channel_count + target.channel_count)
        by (nonlinear_arith);
}

/// A glyph is left out exactly where its box lies beyond one of the four
/// sides of the clip.
pub proof fn law_glyphs_beyond_the_clip_are_left_out(
    around: GlyphBox,
    clip: ClipRect,
    r: bool,
    edges: (int, int, int, int),
    sides: (int, int, int, int),
)
    requires
        call_ensures(GlyphBox::misses, (around, clip), r),
        -0x10_0000_0000_0000 < edges.0 < 0x10_0000_0000_0000,
        -0x10_0000_0000_0000 < edges.1 < 0x10_0000_0000_0000,
        -0x10_0000_0000_0000 < edges.2 < 0x10_0000_0000_0000,
        -0x10_0000_0000_0000 < edges.3 < 0x10_0000_0000_0000,
        -0x10_0000_0000_0000 < sides.0 < 0x10_0000_0000_0000,
        -0x10_0000_0000_0000 < sides.1 < 0x10_0000_0000_0000,
        -0x10_0000_0000_0000 < sides.2 < 0x10_0000_0000_0000,
        -0x10_0000_0000_0000 < sides.3 < 0x10_0000_0000_0000,
        around.left == double::double_of_int(edges.0),
        around.top == double::double_of_int(edges.1),
        around.right == double::double_of_int(edges.2),
        around.bottom == double::double_of_int(edges.3),
        clip.left == double::double_of_int(sides.0),
        clip.top == double::double_of_int(sides.1),
        clip.right == double::double_of_int(sides.2),
        clip.bottom == double::double_of_int(sides.3),
    ensures
        r <==> edges.2 < sides.0 || edges.0 > sides.2 || edges.3 < sides.1 || edges.1 > sides.3,
{
    double::law_integers_keep_their_order(edges.2, sides.0);
    double::law_integers_keep_their_order(sides.2, edges.0);
    double::law_integers_keep_their_order(edges.3, sides.1);
    double::law_integers_keep_their_order(sides.3, edges.1);
}

} // verus!
