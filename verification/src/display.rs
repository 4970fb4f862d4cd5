//! The display path: when the display table is rebuilt, and which sample
//! buffers can be uploaded.

use vstd::prelude::*;

use crate::lut::Lut3d;
use crate::text;

verus! {

/// What has to be done before a frame is shown.
#[derive(Clone, Copy, PartialEq, Eq, Structural, Debug)]
pub enum LutStep {
    /// The renderer has the right table.
    Keep,
    /// The table is known, and has to be installed.
    Reinstall,
    /// The table has to be built and installed.
    Rebuild,
}

/// The display table that was installed last, under the key of the
/// settings that it was built for.
pub struct LutCache {
    /// The key and the table; none before the first one.
    pub cached: Option<(String, Lut3d)>,
}

impl LutCache {
    /// Whether the table was built for the settings of `key`.
    pub open spec fn fresh(&self, key: Seq<char>) -> bool {
        self.cached matches Some(entry) && entry.0@ == key
    }

    /// What has to be done for the settings of `key`, when the renderer has
    /// some table or none.
    pub open spec fn step(&self, key: Seq<char>, installed: bool) -> LutStep {
        if !self.fresh(key) {
            LutStep::Rebuild
        } else if installed {
            LutStep::Keep
        } else {
            LutStep::Reinstall
        }
    }

    /// No table yet.
    pub fn new() -> (r: LutCache)
        ensures
            r.cached is None,
    {
        LutCache { cached: None }
    }

    /// What has to be done for the settings of `key`.
    pub fn next_step(&self, key: &str, installed: bool) -> (r: LutStep)
        ensures
            r == self.step(key@, installed),
    {
        let fresh: bool = match &self.cached {
            Some(entry) => text::same(entry.0.as_str(), key),
            None => false,
        };
        if !fresh {
            LutStep::Rebuild
        } else if installed {
            LutStep::Keep
        } else {
            LutStep::Reinstall
        }
    }

    /// The table that is known for the settings of `key`.
    pub fn known(&self, key: &str) -> (r: Option<&Lut3d>)
        ensures
            match r {
                Some(lut) => self.fresh(key@) && *lut == self.cached->Some_0.1,
                None => !self.fresh(key@),
            },
    {
        match &self.cached {
            Some(entry) => if text::same(entry.0.as_str(), key) {
                Some(&entry.1)
            } else {
                None
            },
            None => None,
        }
    }

    /// A table was handed to the renderer: it is remembered when the
    /// renderer took it.
    pub fn record(&mut self, key: &str, lut: Lut3d, accepted: bool)
        ensures
            accepted ==> (final(self).cached matches Some(entry) && entry.0@ == key@ && entry.1
                == lut),
            !accepted ==> *final(self) == *old(self),
    {
        if accepted {
            self.cached = Some((key.to_string(), lut));
        }
    }
}

/// A table is built once for its settings: it is not built again while
/// they stay, and any other settings have another one built.
pub proof fn law_tables_are_built_once(
    cache: &LutCache,
    key: Seq<char>,
    other: Seq<char>,
    installed: bool,
)
    requires
        cache.fresh(key),
    ensures
        cache.step(key, installed) != LutStep::Rebuild,
        cache.step(key, true) == LutStep::Keep,
        other != key ==> cache.step(other, installed) == LutStep::Rebuild,
{
}

/// Whether a buffer holds the four values of every pixel of a picture, and
/// the picture has pixels.
pub fn can_upload(width: u32, height: u32, values: usize) -> (r: bool)
    ensures
        r == (width > 0 && height > 0 && values == width * height * 4),
{
    if width == 0 || height == 0 {
        return false;
    }
    assert(width * height <= 0xFFFF_FFFE_0000_0001) by (nonlinear_arith)
        requires
            width <= 0xFFFF_FFFF,
            height <= 0xFFFF_FFFF,
    ;
    values as u128 == width as u128 * height as u128 * 4
}

/// The pixels of a list of colors: `alpha` behind every third value.
pub open spec fn alpha_added(colors: Seq<u32>, alpha: u32) -> Seq<u32> {
    Seq::new(
        colors.len() / 3 * 4,
        |i: int|
            if i % 4 == 3 {
                alpha
            } else {
                colors[i / 4 * 3 + i % 4]
            },
    )
}

/// Give every color the same alpha. Values behind the last whole color are
/// dropped.
pub fn add_alpha(colors: &Vec<u32>, alpha: u32) -> (r: Vec<u32>)
    ensures
        r@ == alpha_added(colors@, alpha),
{
    let mut out: Vec<u32> = Vec::new();
    let count: usize = colors.len() / 3;
    let total: usize = colors.len();
    let mut i: usize = 0;
    while i < count
        invariant
            i <= count,
            count == colors@.len() / 3,
            total == colors@.len(),
            out@ == alpha_added(colors@, alpha).subrange(0, i * 4),
        decreases count - i,
    {
        let at: usize = i * 3;
        out.push(colors[at]);
        out.push(colors[at + 1]);
        out.push(colors[at + 2]);
        out.push(alpha);
        i = i + 1;
        assert(out@ =~= alpha_added(colors@, alpha).subrange(0, i * 4));
    }
    assert(out@ =~= alpha_added(colors@, alpha));
    out
}

/// Dropping the alpha that was added gives the colors back.
pub proof fn law_added_alpha_drops_again(colors: Seq<u32>, alpha: u32)
    requires
        colors.len() % 3 == 0,
    ensures
        without_alpha(alpha_added(colors, alpha)) == colors,
{
    let pixels = alpha_added(colors, alpha);
    assert forall|i: int| 0 <= i < colors.len() implies without_alpha(pixels)[i] == colors[i] by {
        let at = i / 3 * 4 + i % 3;
        assert(at / 4 == i / 3 && at % 4 == i % 3);
    }
    assert(without_alpha(pixels) =~= colors);
}

/// The color values of a list of pixels: every fourth value dropped.
pub open spec fn without_alpha(samples: Seq<u32>) -> Seq<u32> {
    Seq::new(samples.len() / 4 * 3, |i: int| samples[i / 3 * 4 + i % 3])
}

/// Drop the alpha of every pixel. Values behind the last whole pixel are
/// dropped too.
pub fn drop_alpha(samples: &Vec<u32>) -> (r: Vec<u32>)
    ensures
        r@ == without_alpha(samples@),
{
    let mut out: Vec<u32> = Vec::new();
    let pixels: usize = samples.len() / 4;
    let total: usize = samples.len();
    let mut i: usize = 0;
    while i < pixels
        invariant
            i <= pixels,
            pixels == samples@.len() / 4,
            total == samples@.len(),
            out@ == without_alpha(samples@).subrange(0, i * 3),
        decreases pixels - i,
    {
        let at: usize = i * 4;
        out.push(samples[at]);
        out.push(samples[at + 1]);
        out.push(samples[at + 2]);
        i = i + 1;
        assert(out@ =~= without_alpha(samples@).subrange(0, i * 3));
    }
    assert(out@ =~= without_alpha(samples@));
    out
}

/// A table has to be built where none is known for the settings. One that
/// is known is only installed, where the renderer has none.
pub proof fn law_known_tables_are_not_built(
    cache: &LutCache,
    key: &str,
    installed: bool,
    r: LutStep,
    known: Option<&Lut3d>,
)
    requires
        call_ensures(LutCache::next_step, (cache, key, installed), r),
        call_ensures(LutCache::known, (cache, key), known),
    ensures
        known is None <==> r == LutStep::Rebuild,
        known is Some && installed ==> r == LutStep::Keep,
        known is Some && !installed ==> r == LutStep::Reinstall,
        cache.cached is None ==> known is None,
{
}

/// A table that the renderer took is known for its settings from then on,
/// and for no others.
pub proof fn law_recorded_tables_are_known(
    cache: &mut LutCache,
    key: &str,
    lut: Lut3d,
    other: &str,
    known: Option<&Lut3d>,
)
    requires
        call_ensures(LutCache::record, (cache, key, lut, true), ()),
        call_ensures(LutCache::known, (final(cache), other), known),
    ensures
        other@ == key@ ==> known == Some(&lut),
        other@ != key@ ==> known is None,
{
}

/// Adding alpha keeps the three values of every color and puts the alpha
/// behind them. Dropping it keeps the first three values of every pixel.
pub proof fn law_pixels_are_colors_with_alpha(
    colors: &Vec<u32>,
    alpha: u32,
    pixels: Vec<u32>,
    samples: &Vec<u32>,
    dropped: Vec<u32>,
    p: int,
    c: int,
)
    requires
        call_ensures(add_alpha, (colors, alpha), pixels),
        call_ensures(drop_alpha, (samples,), dropped),
        0 <= p,
        0 <= c < 3,
    ensures
        pixels@.len() == 4 * (colors@.len() / 3),
        3 * p + 3 <= colors@.len() ==> pixels@[4 * p + c] == colors@[3 * p + c],
        3 * p + 3 <= colors@.len() ==> pixels@[4 * p + 3] == alpha,
        dropped@.len() == 3 * (samples@.len() / 4),
        4 * p + 4 <= samples@.len() ==> dropped@[3 * p + c] == samples@[4 * p + c],
{
    assert((4 * p + c) / 4 == p && (4 * p + c) % 4 == c);
    assert((4 * p + 3) / 4 == p && (4 * p + 3) % 4 == 3);
    assert((3 * p + c) / 3 == p && (3 * p + c) % 3 == c);
}

/// A buffer can be uploaded where it is cut into fours, one for every pixel
/// of a picture that has some.
pub proof fn law_uploads_have_four_values_per_pixel(
    width: u32,
    height: u32,
    values: usize,
    r: bool,
)
    requires
        call_ensures(can_upload, (width, height, values), r),
    ensures
        r <==> values > 0 && values % 4 == 0 && values as int / 4 == width * height,
{
    assert(width * height > 0 <==> width > 0 && height > 0) by (nonlinear_arith)
        requires
            width >= 0,
            height >= 0,
    ;
}

} // verus!
