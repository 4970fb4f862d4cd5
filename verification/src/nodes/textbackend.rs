//! Text layout requests and the hooks that serve them: one measures a
//! text, one draws it. A host may install either.

use std::sync::Arc;
use vstd::prelude::*;

use crate::double;
use crate::double::Double;
use crate::nodes::textv3::VerticalAlignment;
use crate::raster::TargetShape;
use crate::value::{NodeValue, ValueModel};

verus! {

/// How the text of a request is read.
#[derive(Clone, Copy, PartialEq, Eq, Structural, Hash, Debug)]
pub enum TextLayoutMode {
    /// As it stands.
    PlainText,
    /// As HTML.
    Html,
    /// As HTML with the text node's own style attributes.
    OliveHtml,
}

/// The text of an input: a text value holds one, and any other value
/// stands for the decimal text of its number.
#[derive(PartialEq, Debug)]
pub enum InputText {
    /// A text.
    Text(String),
    /// The text of a number.
    Number(Double),
}

/// What an [`InputText`] holds.
#[verifier::ext_equal]
pub enum TextModel {
    Text(Seq<char>),
    Number(Double),
}

/// The text of a value.
pub open spec fn text_of(value: ValueModel) -> TextModel {
    match value {
        ValueModel::Text(s) => TextModel::Text(s),
        ValueModel::StrCombo(s) => TextModel::Text(s),
        other => TextModel::Number(other.number()),
    }
}

impl TextModel {
    /// Whether there is nothing to lay out. A number always has a text.
    pub open spec fn is_empty(self) -> bool {
        self matches TextModel::Text(s) && s.len() == 0
    }
}

impl InputText {
    /// What this text holds.
    pub open spec fn view(&self) -> TextModel {
        match self {
            InputText::Text(s) => TextModel::Text(s@),
            InputText::Number(d) => TextModel::Number(*d),
        }
    }

    /// The text of a value.
    pub fn of(value: &NodeValue) -> (r: InputText)
        ensures
            r@ == text_of(value@),
    {
        match value {
            NodeValue::Text(s) => InputText::Text(s.clone()),
            NodeValue::StrCombo(s) => InputText::Text(s.clone()),
            other => InputText::Number(other.to_double()),
        }
    }

    /// No text.
    pub fn none() -> (r: InputText)
        ensures
            r@ == TextModel::Text(Seq::empty()),
    {
        InputText::Text(String::new())
    }

    /// Whether there is nothing to lay out.
    pub fn is_empty(&self) -> (r: bool)
        ensures
            r == self@.is_empty(),
    {
        match self {
            InputText::Text(s) => s.as_str().is_empty(),
            InputText::Number(_) => false,
        }
    }

    /// A copy.
    pub fn duplicate(&self) -> (r: InputText)
        ensures
            r@ == self@,
    {
        match self {
            InputText::Text(s) => InputText::Text(s.clone()),
            InputText::Number(d) => InputText::Number(*d),
        }
    }
}

/// A text to lay out.
#[derive(PartialEq, Debug)]
pub struct TextLayoutRequest {
    /// The text.
    pub text: InputText,
    /// How the text is read.
    pub mode: TextLayoutMode,
    /// The font family; empty for the default font.
    pub font_family: InputText,
    /// The font size in points; zero for the default size.
    pub font_size_pt: Double,
    /// The resolution.
    pub dots_per_meter: i32,
    /// The width to wrap at; zero for no wrapping.
    pub wrap_width: Double,
    /// Whether lines are centered.
    pub center_horizontally: bool,
}

/// What a [`TextLayoutRequest`] asks for.
#[verifier::ext_equal]
pub struct RequestModel {
    pub text: TextModel,
    pub mode: TextLayoutMode,
    pub font_family: TextModel,
    pub font_size_pt: Double,
    pub dots_per_meter: i32,
    pub wrap_width: Double,
    pub center_horizontally: bool,
}

impl TextLayoutRequest {
    /// What this request asks for.
    pub open spec fn view(&self) -> RequestModel {
        RequestModel {
            text: self.text@,
            mode: self.mode,
            font_family: self.font_family@,
            font_size_pt: self.font_size_pt,
            dots_per_meter: self.dots_per_meter,
            wrap_width: self.wrap_width,
            center_horizontally: self.center_horizontally,
        }
    }
}

/// The size of a laid out text.
#[derive(Clone, Copy, PartialEq, Eq, Structural, Debug)]
pub struct TextLayoutSize {
    /// The width in pixels.
    pub width: Double,
    /// The height in pixels.
    pub height: Double,
}

/// A size of zero.
pub open spec fn zero_size() -> TextLayoutSize {
    TextLayoutSize { width: Double { bits: double::ZERO }, height: Double { bits: double::ZERO } }
}

impl Default for TextLayoutSize {
    fn default() -> (r: TextLayoutSize)
        ensures
            r == zero_size(),
    {
        TextLayoutSize {
            width: Double { bits: double::ZERO },
            height: Double { bits: double::ZERO },
        }
    }
}

/// Where a text goes in its raster: the laid out text stands in a shape at
/// the top, in the middle or at the bottom, and is clipped to it.
#[derive(Clone, Copy, PartialEq, Eq, Debug)]
pub struct TextPlacement {
    /// The vertical alignment.
    pub align: VerticalAlignment,
    /// The size of the laid out text.
    pub doc: TextLayoutSize,
    /// The shape of the raster.
    pub target: TargetShape,
    /// The scale of the drawing.
    pub scale: Double,
    /// The left and the top edge of the shape, before the scale.
    pub base: (Double, Double),
    /// The width and the height of the shape, before the scale.
    pub size: (Double, Double),
}

/// The placement of a text in a raster that is the shape: four bytes per
/// pixel without gaps, drawn as large as it is.
pub open spec fn placed(
    align: VerticalAlignment,
    doc: TextLayoutSize,
    width: i32,
    height: i32,
) -> TextPlacement {
    TextPlacement {
        align,
        doc,
        target: TargetShape {
            width,
            height,
            linesize_bytes: (width * 4) as i32,
            channel_count: 4,
        },
        scale: Double { bits: double::ONE },
        base: (Double { bits: double::ZERO }, Double { bits: double::ZERO }),
        size: (double::double_of_int(width as int), double::double_of_int(height as int)),
    }
}

impl TextPlacement {
    /// The placement of a text in a raster that is the shape.
    pub fn of_shape(
        align: VerticalAlignment,
        doc: TextLayoutSize,
        width: i32,
        height: i32,
    ) -> (r: TextPlacement)
        requires
            0 < width <= 8192,
            0 < height <= 8192,
        ensures
            r == placed(align, doc, width, height),
    {
        TextPlacement {
            align,
            doc,
            target: TargetShape { width, height, linesize_bytes: width * 4, channel_count: 4 },
            scale: Double { bits: double::ONE },
            base: (Double { bits: double::ZERO }, Double { bits: double::ZERO }),
            size: (Double::of_int(width as i64), Double::of_int(height as i64)),
        }
    }
}

/// How a laid out text is put into a raster: a point of the text is moved
/// by the draw offset and scaled, and what is outside the clip is not
/// painted.
#[derive(Clone, Copy, PartialEq, Eq, Structural, Debug)]
pub struct TextRenderTransform {
    /// The scale.
    pub scale: Double,
    /// The horizontal offset of the text, before the scale.
    pub draw_offset_x: Double,
    /// The vertical offset of the text, before the scale.
    pub draw_offset_y: Double,
    /// Whether there is a clip.
    pub clip_enabled: bool,
    /// The left edge of the clip, before the scale.
    pub clip_offset_x: Double,
    /// The top edge of the clip, before the scale.
    pub clip_offset_y: Double,
    /// The width of the clip, before the scale.
    pub clip_width: Double,
    /// The height of the clip, before the scale.
    pub clip_height: Double,
}

/// A transparent raster: four bytes per pixel.
pub open spec fn cleared(placement: TextPlacement) -> Seq<u8> {
    Seq::new((placement.target.width * placement.target.height * 4) as nat, |i: int| 0u8)
}

/// Measures texts.
pub trait TextMeasure {
    /// Whether a measurement of `request` may come out as `size`; for a
    /// hook that says nothing, any size may.
    open spec fn measures(&self, request: RequestModel, size: TextLayoutSize) -> bool {
        true
    }

    /// The size of the laid out text.
    fn measure(&self, request: &TextLayoutRequest) -> (r: TextLayoutSize)
        ensures
            self.measures(request@, r),
    ;
}

/// Draws texts.
pub trait TextRender {
    /// Whether drawing `request` over the raster `before` may leave
    /// `after`; a hook that says nothing may leave anything.
    open spec fn draws(
        &self,
        request: RequestModel,
        placement: TextPlacement,
        before: Seq<u8>,
        after: Seq<u8>,
    ) -> bool {
        true
    }

    /// Draw the text in white over a raster of eight-bit premultiplied
    /// RGBA, row by row.
    fn render(&self, request: &TextLayoutRequest, placement: TextPlacement, raster: &mut [u8])
        ensures
            self.draws(request@, placement, old(raster)@, final(raster)@),
            final(raster)@.len() == old(raster)@.len(),
    ;
}

/// A boxed measuring hook.
pub struct BoxedMeasure {
    /// The hook.
    pub hook: Box<dyn TextMeasure>,
}

impl BoxedMeasure {
    /// Whether a measurement of `request` may come out as `size`.
    pub open spec fn measures(&self, request: RequestModel, size: TextLayoutSize) -> bool {
        self.hook.measures(request, size)
    }
}

/// A boxed drawing hook.
pub struct BoxedRender {
    /// The hook.
    pub hook: Box<dyn TextRender>,
}

impl BoxedRender {
    /// Whether drawing `request` over the raster `before` may leave
    /// `after`.
    pub open spec fn draws(
        &self,
        request: RequestModel,
        placement: TextPlacement,
        before: Seq<u8>,
        after: Seq<u8>,
    ) -> bool {
        self.hook.draws(request, placement, before, after)
    }
}

/// The hooks that are installed.
pub struct TextBackends {
    /// The measuring hook.
    pub measure: Option<Arc<BoxedMeasure>>,
    /// The drawing hook.
    pub render: Option<Arc<BoxedRender>>,
}

impl TextBackends {
    /// Whether a measurement of `request` may come out as `size`: what the
    /// hook measures, and zero without one.
    pub open spec fn measured(&self, request: RequestModel, size: TextLayoutSize) -> bool {
        match self.measure {
            Some(hook) => hook.measures(request, size),
            None => size == zero_size(),
        }
    }

    /// Whether drawing `request` over a cleared raster may give `coverage`:
    /// what the hook draws, and nothing without one.
    pub open spec fn drawn(
        &self,
        request: RequestModel,
        placement: TextPlacement,
        coverage: Seq<u8>,
    ) -> bool {
        &&& self.render matches Some(hook) && hook.draws(
            request,
            placement,
            cleared(placement),
            coverage,
        )
        &&& coverage.len() == placement.target.width * placement.target.height * 4
    }

    /// No hooks.
    pub fn none() -> (r: TextBackends)
        ensures
            r.measure is None,
            r.render is None,
    {
        TextBackends { measure: None, render: None }
    }

    /// The same hooks once more.
    pub fn share(&self) -> (r: TextBackends)
        ensures
            r == *self,
    {
        let measure = match &self.measure {
            Some(hook) => Some(Arc::clone(hook)),
            None => None,
        };
        let render = match &self.render {
            Some(hook) => Some(Arc::clone(hook)),
            None => None,
        };
        TextBackends { measure, render }
    }

    /// Draw a text over a cleared raster; nothing without a drawing hook.
    pub fn draw_text(&self, request: &TextLayoutRequest, placement: TextPlacement) -> (r: Option<
        Vec<u8>,
    >)
        requires
            0 < placement.target.width <= 8192,
            0 < placement.target.height <= 8192,
        ensures
            match r {
                Some(coverage) => self.drawn(request@, placement, coverage@),
                None => self.render is None,
            },
    {
        let hook = match &self.render {
            Some(hook) => hook,
            None => {
                return None;
            },
        };
        assert(placement.target.width * placement.target.height <= 0x400_0000) by (nonlinear_arith)
            requires
                0 < placement.target.width <= 8192,
                0 < placement.target.height <= 8192,
        ;
        assert(placement.target.width * placement.target.height > 0) by (nonlinear_arith)
            requires
                0 < placement.target.width <= 8192,
                0 < placement.target.height <= 8192,
        ;
        let count: usize = placement.target.width as usize * placement.target.height as usize * 4;
        let mut raster: Vec<u8> = vec![0u8;count];
        assert(raster@ =~= cleared(placement));
        hook.hook.render(request, placement, raster.as_mut_slice());
        Some(raster)
    }

    /// The size of the laid out text: zero without a measuring hook.
    pub fn measure_text(&self, request: &TextLayoutRequest) -> (r: TextLayoutSize)
        ensures
            self.measured(request@, r),
    {
        match &self.measure {
            Some(hook) => hook.hook.measure(request),
            None => TextLayoutSize::default(),
        }
    }
}

} // verus!
