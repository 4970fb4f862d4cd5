//! Text generator: lays out a text and puts it out as a texture, over an
//! optional backdrop.
//!
//! The text comes from the plain text input when a measuring hook is
//! installed, and from the older HTML input when none is. An HTML text
//! that was never edited as plain text is taken over once, see
//! [`migrate_legacy_html`].

use vstd::prelude::*;

use crate::double;
use crate::double::Double;
use crate::factory;
use crate::factory::{NodeKind, NodeMeta};
use crate::handle;
use crate::handle::{Boxed, CHandle, Frame, FrameModel, HandleModel, Texture};
use crate::input;
use crate::input::{Input, InputModel};
use crate::markup;
use crate::node;
use crate::node::{Category, NodeBehavior, NodeCore, XmlRead};
use crate::nodes::effect;
use crate::nodes::generatorwithmerge;
use crate::nodes::generatorwithmerge::{GeneratorWithMerge, BASE_INPUT, MERGE_SHADER_ID};
use crate::nodes::shapenodebase;
use crate::nodes::shapenodebase::{ShapeNodeBase, POSITION_INPUT, SIZE_INPUT};
use crate::nodes::textbackend;
use crate::nodes::textbackend::{
    InputText, RequestModel, TextBackends, TextLayoutMode, TextLayoutRequest, TextLayoutSize,
    TextModel, TextPlacement, TextRenderTransform,
};
use crate::nodes::textpost;
use crate::nodes::textpost::{
    GLOW_BLUR_FRAG, GLOW_BLUR_SHADER_ID, GLOW_COLORIZE_FRAG, GLOW_COLORIZE_SHADER_ID,
    GLOW_COLOR_INPUT, GLOW_ENABLED_INPUT, GLOW_RADIUS_INPUT, OUTLINE_COLORIZE_FRAG,
    OUTLINE_COLORIZE_SHADER_ID, OUTLINE_COLOR_INPUT, OUTLINE_DILATE_FRAG,
    OUTLINE_DILATE_SHADER_ID, OUTLINE_ENABLED_INPUT, OUTLINE_WIDTH_INPUT,
};
use crate::placeholder;
use crate::rational::Rational;
use crate::text;
use crate::value::{
    Color, NodeValue, NodeValueRow, NodeValueTable, TableEntry, ValueModel, ValueType, Vec2,
};

verus! {

/// The older HTML text. Hidden; kept so that old projects load and save.
pub const TEXT_INPUT: &'static str = "text_in";

/// The vertical alignment: an index into the combo labels.
pub const VERTICAL_ALIGNMENT_INPUT: &'static str = "valign_in";

/// Whether placeholders are replaced. On by default.
pub const USE_ARGS_INPUT: &'static str = "use_args_in";

/// The placeholder arguments.
pub const ARGS_INPUT: &'static str = "args_in";

/// The text.
pub const PLAIN_TEXT_INPUT: &'static str = "plain_text_in";

/// The font family; empty for the default font.
pub const FONT_FAMILY_INPUT: &'static str = "font_family_in";

/// The font size in points. Default 72.
pub const FONT_SIZE_INPUT: &'static str = "font_size_in";

/// The color of the glyphs. Default opaque white.
pub const COLOR_INPUT: &'static str = "color_in";

/// The default of the older HTML text.
pub const LEGACY_DEFAULT_TEXT_HTML: &'static str =
    "<p style='font-size: 72pt; color: white;'>Sample Text</p>";

/// The default text.
pub const DEFAULT_PLAIN_TEXT: &'static str = "文本";

/// The largest raster dimension.
pub const MAX_RASTER_SIZE: i32 = 8192;

/// The resolution of every request: 96 dots per inch.
pub const DOTS_PER_METER: i32 = 3780;

/// The flags of an input that can neither be connected nor be keyframed.
pub const STATIC_FLAGS: u32 = 6;

/// Where a text stands in its shape.
#[derive(Clone, Copy, PartialEq, Eq, Structural, Debug)]
pub enum VerticalAlignment {
    /// At the top.
    Top,
    /// In the middle.
    Middle,
    /// At the bottom.
    Bottom,
}

impl VerticalAlignment {
    /// The alignment of a combo index; the top for an unknown one.
    pub open spec fn of_index(v: int) -> VerticalAlignment {
        if v == 1 {
            VerticalAlignment::Middle
        } else if v == 2 {
            VerticalAlignment::Bottom
        } else {
            VerticalAlignment::Top
        }
    }

    /// The combo index of an alignment.
    pub open spec fn spec_index(self) -> i64 {
        match self {
            VerticalAlignment::Top => 0,
            VerticalAlignment::Middle => 1,
            VerticalAlignment::Bottom => 2,
        }
    }

    /// The alignment that a value picks: its number, truncated, as a combo
    /// index.
    pub open spec fn of_value(value: ValueModel) -> VerticalAlignment {
        VerticalAlignment::of_index(value.number().truncated(i32::MIN as int, i32::MAX as int))
    }

    /// The alignment of a combo index; the top for an unknown one.
    pub fn from_int(v: i32) -> (r: VerticalAlignment)
        ensures
            r == VerticalAlignment::of_index(v as int),
    {
        if v == 1 {
            VerticalAlignment::Middle
        } else if v == 2 {
            VerticalAlignment::Bottom
        } else {
            VerticalAlignment::Top
        }
    }

    /// The combo index of an alignment.
    pub fn index(self) -> (r: i64)
        ensures
            r == self.spec_index(),
    {
        match self {
            VerticalAlignment::Top => 0,
            VerticalAlignment::Middle => 1,
            VerticalAlignment::Bottom => 2,
        }
    }
}

/// The on-screen control's number of an alignment: its order is top,
/// bottom, middle.
pub open spec fn gizmo_alignment(v: VerticalAlignment) -> i32 {
    match v {
        VerticalAlignment::Top => 0,
        VerticalAlignment::Middle => 2,
        VerticalAlignment::Bottom => 1,
    }
}

/// The alignment of an on-screen control's number; the top for an unknown
/// one.
pub open spec fn our_alignment(v: i32) -> VerticalAlignment {
    if v == 1 {
        VerticalAlignment::Bottom
    } else if v == 2 {
        VerticalAlignment::Middle
    } else {
        VerticalAlignment::Top
    }
}

/// An alignment survives the way to the on-screen control and back, and
/// the way to its combo index and back.
pub proof fn law_alignments_round_trip(v: VerticalAlignment)
    ensures
        our_alignment(gizmo_alignment(v)) == v,
        VerticalAlignment::of_index(v.spec_index() as int) == v,
{
}

/// The size of a value: a number is a width without a height.
pub open spec fn vec2_of(value: ValueModel) -> Vec2 {
    match value {
        ValueModel::Vec2(v) => v,
        other => Vec2 { x: other.number(), y: Double { bits: double::ZERO } },
    }
}

/// The size of a value: a number is a width without a height.
fn to_vec2(value: &NodeValue) -> (r: Vec2)
    ensures
        r == vec2_of(value@),
{
    match value {
        NodeValue::Vec2(v) => *v,
        other => Vec2 { x: other.to_double(), y: Double { bits: double::ZERO } },
    }
}

/// One raster dimension: rounded to the nearest pixel, halves up, and
/// brought into `1..=MAX_RASTER_SIZE`; one pixel for a size that is not
/// finite.
pub open spec fn raster_dimension(v: Double) -> int {
    if v.finite() {
        double::clamped(v.signed(v.round_magnitude()), 1, MAX_RASTER_SIZE as int)
    } else {
        1
    }
}

/// The text of the row's value, and no text where it has none.
pub open spec fn row_text(row: Map<Seq<char>, ValueModel>, id: Seq<char>) -> TextModel {
    if row.contains_key(id) {
        textbackend::text_of(row[id])
    } else {
        TextModel::Text(Seq::empty())
    }
}

/// What is asked of the hooks for a row: the plain text with its font, or
/// the HTML with the font in the markup. Either wraps at the width of the
/// shape.
pub open spec fn request_for(plain_text: bool, row: Map<Seq<char>, ValueModel>) -> RequestModel {
    let wrap_width = if row.contains_key(SIZE_INPUT@) {
        vec2_of(row[SIZE_INPUT@]).x
    } else {
        Double { bits: double::ZERO }
    };
    if plain_text {
        RequestModel {
            text: row_text(row, PLAIN_TEXT_INPUT@),
            mode: TextLayoutMode::PlainText,
            font_family: row_text(row, FONT_FAMILY_INPUT@),
            font_size_pt: if row.contains_key(FONT_SIZE_INPUT@) {
                row[FONT_SIZE_INPUT@].number()
            } else {
                Double { bits: double::ZERO }
            },
            dots_per_meter: DOTS_PER_METER,
            wrap_width,
            center_horizontally: false,
        }
    } else {
        RequestModel {
            text: row_text(row, TEXT_INPUT@),
            mode: TextLayoutMode::OliveHtml,
            font_family: TextModel::Text(Seq::empty()),
            font_size_pt: Double { bits: double::ZERO },
            dots_per_meter: DOTS_PER_METER,
            wrap_width,
            center_horizontally: false,
        }
    }
}

/// The text that is evaluated, before placeholders are replaced.
pub open spec fn source_text(
    plain_text: bool,
    core: &NodeCore,
    row: Map<Seq<char>, ValueModel>,
    time: Rational,
) -> TextModel {
    textbackend::text_of(
        effect::resolved(
            core,
            row,
            if plain_text {
                PLAIN_TEXT_INPUT@
            } else {
                TEXT_INPUT@
            },
            time,
        ),
    )
}

/// `text` with `args` in place of its placeholders. The text of a number
/// has none.
pub open spec fn expanded_text(text: TextModel, args: Seq<Seq<char>>) -> TextModel {
    match text {
        TextModel::Text(s) => TextModel::Text(
            placeholder::expanded(s, args),
        ),
        TextModel::Number(d) => TextModel::Number(d),
    }
}

/// The text that is laid out: the source text, with the row's argument in
/// place of the placeholders when they are on and the row has one.
pub open spec fn final_text(
    plain_text: bool,
    core: &NodeCore,
    row: Map<Seq<char>, ValueModel>,
    time: Rational,
) -> TextModel {
    let source = source_text(plain_text, core, row, time);
    if textpost::enabled(core, row, USE_ARGS_INPUT@, time) && row.contains_key(ARGS_INPUT@) {
        match row[ARGS_INPUT@] {
            ValueModel::Text(arg) => expanded_text(source, seq![arg]),
            _ => source,
        }
    } else {
        source
    }
}

/// The raster dimensions: the size of the shape.
pub open spec fn raster_of(
    core: &NodeCore,
    row: Map<Seq<char>, ValueModel>,
    time: Rational,
) -> (int, int) {
    let size = vec2_of(effect::resolved(core, row, SIZE_INPUT@, time));
    (raster_dimension(size.x), raster_dimension(size.y))
}

/// The vertical alignment of an evaluation: the row's, else the node's
/// own.
pub open spec fn alignment_of(
    core: &NodeCore,
    row: Map<Seq<char>, ValueModel>,
) -> VerticalAlignment {
    if row.contains_key(VERTICAL_ALIGNMENT_INPUT@) {
        VerticalAlignment::of_value(row[VERTICAL_ALIGNMENT_INPUT@])
    } else {
        VerticalAlignment::of_value(core.standard_at(VERTICAL_ALIGNMENT_INPUT@, -1i32))
    }
}

/// The request for an evaluated text: the row's plain text request with
/// that text.
pub open spec fn raster_request(row: Map<Seq<char>, ValueModel>, text: TextModel) -> RequestModel {
    RequestModel { text, ..request_for(true, row) }
}

/// Whether drawing the text may give `raster`: the coverage that the hook
/// draws for the measured text, tinted with the font color. Nothing
/// without a drawing hook.
pub open spec fn rasterizes(
    backends: &TextBackends,
    row: Map<Seq<char>, ValueModel>,
    text: TextModel,
    size: (i32, i32),
    align: VerticalAlignment,
    color: Color,
    raster: Option<ValueModel>,
) -> bool {
    if backends.render is None || size.0 <= 0 || size.1 <= 0 {
        raster is None
    } else {
        exists|doc: TextLayoutSize, coverage: Seq<u8>| #[trigger]
            drawn_raster(backends, row, text, size, align, doc, coverage) && raster == Some(
                ValueModel::Texture(
                    HandleModel::CpuTexture(
                        FrameModel { width: size.0, height: size.1, coverage, tint: color },
                    ),
                ),
            )
    }
}

/// Whether the hooks may measure the text as `doc` and draw it as
/// `coverage`.
pub open spec fn drawn_raster(
    backends: &TextBackends,
    row: Map<Seq<char>, ValueModel>,
    text: TextModel,
    size: (i32, i32),
    align: VerticalAlignment,
    doc: TextLayoutSize,
    coverage: Seq<u8>,
) -> bool {
    &&& backends.measured(raster_request(row, text), doc)
    &&& backends.drawn(
        raster_request(row, text),
        textbackend::placed(align, doc, size.0, size.1),
        coverage,
    )
}

/// Whether an evaluation may draw the text as `raster`.
pub open spec fn evaluates_raster(
    backends: &TextBackends,
    core: &NodeCore,
    row: Map<Seq<char>, ValueModel>,
    text: TextModel,
    time: Rational,
    raster: Option<ValueModel>,
) -> bool {
    let (width, height) = raster_of(core, row, time);
    rasterizes(
        backends,
        row,
        text,
        (width as i32, height as i32),
        alignment_of(core, row),
        textpost::color_of(effect::resolved(core, row, COLOR_INPUT@, time)),
        raster,
    )
}

/// Whether an outline or a glow is on.
pub open spec fn has_post(
    core: &NodeCore,
    row: Map<Seq<char>, ValueModel>,
    time: Rational,
) -> bool {
    textpost::enabled(core, row, OUTLINE_ENABLED_INPUT@, time) || textpost::enabled(
        core,
        row,
        GLOW_ENABLED_INPUT@,
        time,
    )
}

/// The texture of a drawn text: with what is enabled beneath it, and the
/// null handle when nothing was drawn.
pub open spec fn text_handle(
    core: &NodeCore,
    row: Map<Seq<char>, ValueModel>,
    time: Rational,
    raster: Option<ValueModel>,
) -> HandleModel {
    match raster {
        None => HandleModel::Null,
        Some(drawn) => {
            let (width, height) = raster_of(core, row, time);
            match textpost::post_chain(
                core,
                row,
                time,
                "org.olivevideoeditor.Olive.text3"@,
                drawn,
                (width as i32, height as i32),
            ) {
                ValueModel::Texture(handle) => handle,
                _ => HandleModel::Null,
            }
        },
    }
}

/// The text generator.
pub struct TextGeneratorV3 {
    /// Whether changes of the vertical alignment are kept from the
    /// on-screen control, because it drives them itself.
    pub dont_emit_valign: bool,
    /// The installed text hooks.
    pub backends: TextBackends,
}

impl TextGeneratorV3 {
    /// The on-screen control's number of an alignment.
    pub fn get_gizmo_alignment_from_ours(v: VerticalAlignment) -> (r: i32)
        ensures
            r == gizmo_alignment(v),
    {
        match v {
            VerticalAlignment::Top => 0,
            VerticalAlignment::Middle => 2,
            VerticalAlignment::Bottom => 1,
        }
    }

    /// The alignment of an on-screen control's number; the top for an
    /// unknown one.
    pub fn get_our_alignment_from_gizmos(v: i32) -> (r: VerticalAlignment)
        ensures
            r == our_alignment(v),
    {
        if v == 1 {
            VerticalAlignment::Bottom
        } else if v == 2 {
            VerticalAlignment::Middle
        } else {
            VerticalAlignment::Top
        }
    }

    /// The node's own alignment.
    pub fn vertical_alignment(core: &NodeCore) -> (r: VerticalAlignment)
        ensures
            r == VerticalAlignment::of_value(core.standard_at(VERTICAL_ALIGNMENT_INPUT@, -1i32)),
    {
        VerticalAlignment::from_int(
            core.standard_value(VERTICAL_ALIGNMENT_INPUT, -1).to_double().to_i32(),
        )
    }

    /// Replace the placeholders of a text.
    pub fn format_string(input: &str, args: &Vec<String>) -> (r: String)
        ensures
            r@ == placeholder::expanded(input@, text::strings_of(args@)),
    {
        placeholder::expand(input, args)
    }

    /// The on-screen control took over: placeholders are shown as they
    /// are.
    pub fn gizmo_activated(&mut self, core: &mut NodeCore)
        ensures
            final(core).standard_values() == old(core).standard_values().insert(
                (USE_ARGS_INPUT@, -1i32),
                ValueModel::Boolean(false),
            ),
            final(core).inputs == old(core).inputs,
            final(core).effect_input == old(core).effect_input,
            final(core).flags == old(core).flags,
            final(core).input_tracks() == old(core).input_tracks(),
            final(self).dont_emit_valign,
            final(self).backends == old(self).backends,
    {
        core.set_standard_value(USE_ARGS_INPUT, -1, NodeValue::Boolean(false));
        self.dont_emit_valign = true;
    }

    /// The on-screen control let go: placeholders are replaced again.
    pub fn gizmo_deactivated(&mut self, core: &mut NodeCore)
        ensures
            final(core).standard_values() == old(core).standard_values().insert(
                (USE_ARGS_INPUT@, -1i32),
                ValueModel::Boolean(true),
            ),
            final(core).inputs == old(core).inputs,
            final(core).effect_input == old(core).effect_input,
            final(core).flags == old(core).flags,
            final(core).input_tracks() == old(core).input_tracks(),
            final(self).dont_emit_valign,
            final(self).backends == old(self).backends,
    {
        core.set_standard_value(USE_ARGS_INPUT, -1, NodeValue::Boolean(true));
        self.dont_emit_valign = true;
    }

    /// Set the alignment from an on-screen control's number.
    pub fn set_vertical_alignment_undoable(&mut self, core: &mut NodeCore, a: i32)
        ensures
            final(core).standard_values() == old(core).standard_values().insert(
                (VERTICAL_ALIGNMENT_INPUT@, -1i32),
                ValueModel::Combo(our_alignment(a).spec_index()),
            ),
            final(core).inputs == old(core).inputs,
            final(core).effect_input == old(core).effect_input,
            final(core).flags == old(core).flags,
            final(core).input_tracks() == old(core).input_tracks(),
            *final(self) == *old(self),
    {
        core.set_standard_value(
            VERTICAL_ALIGNMENT_INPUT,
            -1,
            NodeValue::Combo(Self::get_our_alignment_from_gizmos(a).index()),
        );
    }

    /// Whether the plain text is used: a measuring hook is installed.
    pub fn plain_text_path(backends: &TextBackends) -> (r: bool)
        ensures
            r == (backends.measure is Some),
    {
        backends.measure.is_some()
    }

    /// The text that is evaluated, before placeholders are replaced.
    pub fn job_text(
        plain_text: bool,
        core: &NodeCore,
        inputs: &NodeValueRow,
        time: Rational,
    ) -> (r: InputText)
        ensures
            r@ == source_text(plain_text, core, inputs@, time),
    {
        let id: &str = if plain_text {
            PLAIN_TEXT_INPUT
        } else {
            TEXT_INPUT
        };
        InputText::of(&effect::resolve(core, inputs, id, time))
    }

    /// The request for a row, on the path that the installed hooks pick.
    pub fn layout_request(backends: &TextBackends, row: &NodeValueRow) -> (r: TextLayoutRequest)
        ensures
            r@ == request_for(backends.measure is Some, row@),
    {
        Self::layout_request_path(Self::plain_text_path(backends), row)
    }

    /// The row's text, and no text where it has none.
    fn text_arg(row: &NodeValueRow, id: &str) -> (r: InputText)
        ensures
            r@ == row_text(row@, id@),
    {
        match row.get(id) {
            Some(v) => InputText::of(v),
            None => InputText::none(),
        }
    }

    /// The request for a row on a given path.
    pub fn layout_request_path(plain_text: bool, row: &NodeValueRow) -> (r: TextLayoutRequest)
        ensures
            r@ == request_for(plain_text, row@),
    {
        let wrap_width: Double = match row.get(SIZE_INPUT) {
            Some(v) => to_vec2(v).x,
            None => Double { bits: double::ZERO },
        };
        if plain_text {
            let font_size_pt: Double = match row.get(FONT_SIZE_INPUT) {
                Some(v) => v.to_double(),
                None => Double { bits: double::ZERO },
            };
            TextLayoutRequest {
                text: Self::text_arg(row, PLAIN_TEXT_INPUT),
                mode: TextLayoutMode::PlainText,
                font_family: Self::text_arg(row, FONT_FAMILY_INPUT),
                font_size_pt,
                dots_per_meter: DOTS_PER_METER,
                wrap_width,
                center_horizontally: false,
            }
        } else {
            TextLayoutRequest {
                text: Self::text_arg(row, TEXT_INPUT),
                mode: TextLayoutMode::OliveHtml,
                font_family: InputText::none(),
                font_size_pt: Double { bits: double::ZERO },
                dots_per_meter: DOTS_PER_METER,
                wrap_width,
                center_horizontally: false,
            }
        }
    }

    /// The request for a row and the size of its text: zero without a
    /// measuring hook.
    pub fn measure_and_layout(backends: &TextBackends, row: &NodeValueRow) -> (r: (
        TextLayoutRequest,
        TextLayoutSize,
    ))
        ensures
            r.0@ == request_for(backends.measure is Some, row@),
            backends.measured(r.0@, r.1),
    {
        let request = Self::layout_request(backends, row);
        let doc = backends.measure_text(&request);
        (request, doc)
    }

    /// The transform of a drawing: the text at the draw offset, clipped to
    /// the shape at the base offset, which the alignment does not move.
    pub fn render_transform(
        scale: Double,
        draw: (Double, Double),
        base: (Double, Double),
        size: (Double, Double),
    ) -> (r: TextRenderTransform)
        ensures
            r.scale == scale,
            (r.draw_offset_x, r.draw_offset_y) == draw,
            r.clip_enabled,
            (r.clip_offset_x, r.clip_offset_y) == base,
            (r.clip_width, r.clip_height) == size,
    {
        TextRenderTransform {
            scale,
            draw_offset_x: draw.0,
            draw_offset_y: draw.1,
            clip_enabled: true,
            clip_offset_x: base.0,
            clip_offset_y: base.1,
            clip_width: size.0,
            clip_height: size.1,
        }
    }

    /// The vertical alignment of an evaluation.
    pub fn alignment_arg(core: &NodeCore, inputs: &NodeValueRow) -> (r: VerticalAlignment)
        ensures
            r == alignment_of(core, inputs@),
    {
        match inputs.get(VERTICAL_ALIGNMENT_INPUT) {
            Some(v) => VerticalAlignment::from_int(v.to_double().to_i32()),
            None => Self::vertical_alignment(core),
        }
    }

    /// One raster dimension.
    pub fn clamp_raster(v: Double) -> (r: i32)
        ensures
            r == raster_dimension(v),
            1 <= r <= MAX_RASTER_SIZE,
    {
        if !v.is_finite() {
            return 1;
        }
        v.rounded_into(1, MAX_RASTER_SIZE)
    }

    /// The raster dimensions.
    pub fn raster_size(core: &NodeCore, inputs: &NodeValueRow, time: Rational) -> (r: (i32, i32))
        ensures
            (r.0 as int, r.1 as int) == raster_of(core, inputs@, time),
            1 <= r.0 <= MAX_RASTER_SIZE,
            1 <= r.1 <= MAX_RASTER_SIZE,
    {
        let size: Vec2 = to_vec2(&effect::resolve(core, inputs, SIZE_INPUT, time));
        (Self::clamp_raster(size.x), Self::clamp_raster(size.y))
    }

    /// Draw a text through the hooks: its coverage, tinted with the font
    /// color. Nothing without a drawing hook and for an empty raster.
    pub fn rasterize_text(
        backends: &TextBackends,
        row: &NodeValueRow,
        text: &InputText,
        size: (i32, i32),
        align: VerticalAlignment,
        color: Color,
    ) -> (r: Option<NodeValue>)
        requires
            size.0 <= MAX_RASTER_SIZE,
            size.1 <= MAX_RASTER_SIZE,
        ensures
            rasterizes(
                backends,
                row@,
                text@,
                size,
                align,
                color,
                match r {
                    Some(v) => Some(v@),
                    None => None,
                },
            ),
    {
        let (width, height) = size;
        if width <= 0 || height <= 0 {
            return None;
        }
        let mut request = Self::layout_request_path(true, row);
        request.text = text.duplicate();
        assert(request@ == raster_request(row@, text@));
        let doc: TextLayoutSize = backends.measure_text(&request);
        let placement = TextPlacement::of_shape(align, doc, width, height);
        match backends.draw_text(&request, placement) {
            Some(coverage) => {
                let frame = Frame { width, height, coverage, tint: color };
                assert(drawn_raster(backends, row@, text@, size, align, doc, frame.coverage@));
                Some(
                    NodeValue::Texture(
                        handle::make_owned(Boxed::Texture(Texture::Cpu(frame))),
                    ),
                )
            },
            None => None,
        }
    }

    /// Draw the text of an evaluation.
    fn rasterize_evaluated(
        &self,
        core: &NodeCore,
        inputs: &NodeValueRow,
        text: &InputText,
        time: Rational,
    ) -> (r: Option<NodeValue>)
        ensures
            evaluates_raster(
                &self.backends,
                core,
                inputs@,
                text@,
                time,
                match r {
                    Some(v) => Some(v@),
                    None => None,
                },
            ),
            r matches Some(v) ==> v@ is Texture,
    {
        let size: (i32, i32) = Self::raster_size(core, inputs, time);
        let align: VerticalAlignment = Self::alignment_arg(core, inputs);
        let color: Color = textpost::to_color(&effect::resolve(core, inputs, COLOR_INPUT, time));
        Self::rasterize_text(&self.backends, inputs, text, size, align, color)
    }

    /// The outline and glow passes around an evaluated text; nothing when
    /// both are off or nothing is drawn.
    pub fn build_post_job(
        &self,
        core: &NodeCore,
        inputs: &NodeValueRow,
        text: &InputText,
        time: Rational,
    ) -> (r: Option<CHandle>)
        ensures
            !has_post(core, inputs@, time) ==> r is None,
            has_post(core, inputs@, time) ==> exists|raster: Option<ValueModel>| #[trigger]
                evaluates_raster(&self.backends, core, inputs@, text@, time, raster) && match r {
                    Some(handle) => raster is Some && handle@ == text_handle(
                        core,
                        inputs@,
                        time,
                        raster,
                    ),
                    None => raster is None,
                },
    {
        let outline: bool = textpost::to_bool(
            &effect::resolve(core, inputs, OUTLINE_ENABLED_INPUT, time),
        );
        let glow: bool = textpost::to_bool(
            &effect::resolve(core, inputs, GLOW_ENABLED_INPUT, time),
        );
        if !outline && !glow {
            return None;
        }
        match self.rasterize_evaluated(core, inputs, text, time) {
            Some(drawn) => {
                let ghost raster = Some(drawn@);
                assert(evaluates_raster(&self.backends, core, inputs@, text@, time, raster));
                let size: (i32, i32) = Self::raster_size(core, inputs, time);
                let result: NodeValue = textpost::chain(
                    core,
                    inputs,
                    time,
                    "org.olivevideoeditor.Olive.text3",
                    drawn,
                    size,
                );
                match result {
                    NodeValue::Texture(handle) => Some(handle),
                    _ => None,
                }
            },
            None => {
                assert(evaluates_raster(&self.backends, core, inputs@, text@, time, None));
                None
            },
        }
    }

    /// The text that is laid out, with its placeholders replaced.
    fn evaluated_text(&self, core: &NodeCore, inputs: &NodeValueRow, time: Rational) -> (r:
        InputText)
        ensures
            r@ == final_text(self.backends.measure is Some, core, inputs@, time),
    {
        let source: InputText = Self::job_text(
            Self::plain_text_path(&self.backends),
            core,
            inputs,
            time,
        );
        if !textpost::to_bool(&effect::resolve(core, inputs, USE_ARGS_INPUT, time)) {
            return source;
        }
        match inputs.get(ARGS_INPUT) {
            Some(NodeValue::Text(arg)) => {
                let mut args: Vec<String> = Vec::new();
                args.push(arg.clone());
                assert(text::strings_of(args@) =~= seq![arg@]);
                match source {
                    InputText::Text(s) => InputText::Text(
                        Self::format_string(s.as_str(), &args),
                    ),
                    InputText::Number(d) => InputText::Number(d),
                }
            },
            _ => source,
        }
    }
}

/// What a row's HTML text becomes as plain text, where it is due: the node
/// has a plain text input that was left empty or at its default, and an
/// HTML text other than empty and its default, with some text in it.
pub open spec fn migrated_text(core: &NodeCore) -> Option<Seq<char>> {
    let plain_untouched = match core.standard_at(PLAIN_TEXT_INPUT@, -1i32) {
        ValueModel::Text(s) => s.len() == 0 || s == DEFAULT_PLAIN_TEXT@,
        _ => false,
    };
    if input::find_input(core.input_models(), PLAIN_TEXT_INPUT@) is Some && plain_untouched {
        match core.standard_at(TEXT_INPUT@, -1i32) {
            ValueModel::Text(html) => if html.len() > 0 && html != LEGACY_DEFAULT_TEXT_HTML@
                && markup::stripped(html).len() > 0 {
                Some(markup::stripped(html))
            } else {
                None
            },
            _ => None,
        }
    } else {
        None
    }
}

/// Whether `after` is `before` with its HTML text taken over as plain text
/// where it is due, and nothing else changed.
pub open spec fn migrates(before: &NodeCore, after: &NodeCore) -> bool {
    match migrated_text(before) {
        Some(plain) => {
            &&& after.standard_values() == before.standard_values().insert(
                (PLAIN_TEXT_INPUT@, -1i32),
                ValueModel::Text(plain),
            )
            &&& after.inputs == before.inputs
            &&& after.effect_input == before.effect_input
            &&& after.flags == before.flags
            &&& after.input_tracks() == before.input_tracks()
        },
        None => *after == *before,
    }
}

/// The plain text of an HTML fragment: its tags dropped, its entities
/// replaced after that.
pub fn strip_html_to_plain(html: &str) -> (r: String)
    ensures
        r@ == markup::stripped(html@),
{
    markup::strip(html)
}

/// Take the HTML text over as plain text, where it is due. The HTML text
/// itself stays as it is.
pub fn migrate_legacy_html(core: &mut NodeCore) -> (r: bool)
    ensures
        r == (migrated_text(old(core)) is Some),
        migrates(old(core), final(core)),
{
    if core.get_input(PLAIN_TEXT_INPUT).is_none() {
        return false;
    }
    match core.standard_value(PLAIN_TEXT_INPUT, -1) {
        NodeValue::Text(s) => {
            if !s.as_str().is_empty() && !text::same(s.as_str(), DEFAULT_PLAIN_TEXT) {
                return false;
            }
        },
        _ => {
            return false;
        },
    }
    match core.standard_value(TEXT_INPUT, -1) {
        NodeValue::Text(html) => {
            if html.as_str().is_empty() || text::same(html.as_str(), LEGACY_DEFAULT_TEXT_HTML) {
                return false;
            }
            let plain: String = strip_html_to_plain(html.as_str());
            if plain.as_str().is_empty() {
                return false;
            }
            core.set_standard_value(PLAIN_TEXT_INPUT, -1, NodeValue::Text(plain));
            true
        },
        _ => false,
    }
}

/// Taking the HTML text over leaves the HTML text and every other value as
/// it was.
pub proof fn law_migration_keeps_the_html(
    before: &NodeCore,
    after: &NodeCore,
    id: Seq<char>,
    element: i32,
)
    requires
        migrates(before, after),
        id != PLAIN_TEXT_INPUT@,
    ensures
        after.standard_at(id, element) == before.standard_at(id, element),
{
}

/// Taking the HTML text over a second time changes nothing, and is not due
/// unless the HTML text spells the default text.
pub proof fn law_migration_happens_once(before: &NodeCore, after: &NodeCore, again: &NodeCore)
    requires
        migrates(before, after),
        migrates(after, again),
    ensures
        again.standard_values() == after.standard_values(),
        migrated_text(before) != Some(DEFAULT_PLAIN_TEXT@) ==> migrated_text(after) is None,
{
    reveal_strlit("plain_text_in");
    reveal_strlit("text_in");
    assert(PLAIN_TEXT_INPUT@.len() != TEXT_INPUT@.len());
    if migrated_text(before) is Some {
        law_migration_keeps_the_html(before, after, TEXT_INPUT@, -1i32);
        assert(after.standard_at(PLAIN_TEXT_INPUT@, -1i32) == ValueModel::Text(
            migrated_text(before)->0,
        ));
        if migrated_text(after) is Some {
            assert(again.standard_values() =~= after.standard_values());
        }
    }
}

impl NodeBehavior for TextGeneratorV3 {
    open spec fn spec_name(&self) -> Seq<char> {
        "Text"@
    }

    open spec fn spec_type_id(&self) -> Seq<char> {
        "org.olivevideoeditor.Olive.text3"@
    }

    open spec fn emits(
        &self,
        core: &NodeCore,
        row: Map<Seq<char>, ValueModel>,
        time: Rational,
        before: Seq<TableEntry>,
        after: Seq<TableEntry>,
    ) -> bool {
        let text = final_text(self.backends.measure is Some, core, row, time);
        if text.is_empty() {
            if effect::has_texture(row, BASE_INPUT@) {
                after == before.push(effect::texture_entry(row[BASE_INPUT@]))
            } else {
                after == before
            }
        } else {
            exists|raster: Option<ValueModel>| #[trigger]
                evaluates_raster(&self.backends, core, row, text, time, raster) && after
                    == before.push(
                    generatorwithmerge::mergable_entry(
                        row,
                        text_handle(core, row, time, raster),
                        time,
                    ),
                )
        }
    }

    fn name(&self) -> (r: &str) {
        "Text"
    }

    fn type_id(&self) -> (r: &str) {
        "org.olivevideoeditor.Olive.text3"
    }

    fn categories(&self) -> (r: &[Category])
        ensures
            r@ == seq![Category::Generator],
    {
        &[Category::Generator]
    }

    fn description(&self) -> (r: &str)
        ensures
            r@ == "Generate rich text."@,
    {
        "Generate rich text."
    }

    fn input_name<'a>(&self, id: &'a str) -> (r: &'a str)
        ensures
            r@ == displayed_name(id@),
    {
        if text::same(id, TEXT_INPUT) || text::same(id, PLAIN_TEXT_INPUT) {
            "Text"
        } else if text::same(id, FONT_FAMILY_INPUT) {
            "Font Family"
        } else if text::same(id, FONT_SIZE_INPUT) {
            "Font Size"
        } else if text::same(id, OUTLINE_ENABLED_INPUT) {
            "Outline"
        } else if text::same(id, OUTLINE_COLOR_INPUT) {
            "Outline Color"
        } else if text::same(id, OUTLINE_WIDTH_INPUT) {
            "Outline Width"
        } else if text::same(id, GLOW_ENABLED_INPUT) {
            "Glow"
        } else if text::same(id, GLOW_COLOR_INPUT) {
            "Glow Color"
        } else if text::same(id, GLOW_RADIUS_INPUT) {
            "Glow Radius"
        } else if text::same(id, COLOR_INPUT) {
            "Color"
        } else if text::same(id, VERTICAL_ALIGNMENT_INPUT) {
            "Vertical Alignment"
        } else if text::same(id, ARGS_INPUT) {
            "Arguments"
        } else if text::same(id, BASE_INPUT) {
            "Base"
        } else {
            ShapeNodeBase::input_name(id)
        }
    }

    /// The labels of the vertical alignment, by index. The host lists the
    /// font families.
    fn input_combo_strings(&self, id: &str) -> (r: Vec<&'static str>)
        ensures
            r@ == (if id@ == VERTICAL_ALIGNMENT_INPUT@ {
                seq!["Top", "Middle", "Bottom"]
            } else {
                Seq::empty()
            }),
    {
        if text::same(id, VERTICAL_ALIGNMENT_INPUT) {
            vec!["Top", "Middle", "Bottom"]
        } else {
            Vec::new()
        }
    }

    /// An empty text passes the backdrop on. Any other text is drawn, with
    /// what is enabled beneath it, over the backdrop; the null handle
    /// stands for it when nothing can draw it.
    fn value(
        &self,
        core: &NodeCore,
        inputs: &NodeValueRow,
        time: Rational,
        table: &mut NodeValueTable,
    ) {
        let evaluated: InputText = self.evaluated_text(core, inputs, time);
        if evaluated.is_empty() {
            if effect::is_texture(inputs, BASE_INPUT) {
                effect::push_row_texture(table, inputs, BASE_INPUT);
            }
            return ;
        }
        let job: CHandle = match self.build_post_job(core, inputs, &evaluated, time) {
            Some(handle) => handle,
            None => match self.rasterize_evaluated(core, inputs, &evaluated, time) {
                Some(drawn) => {
                    assert(evaluates_raster(
                        &self.backends,
                        core,
                        inputs@,
                        evaluated@,
                        time,
                        Some(drawn@),
                    ));
                    assert(!has_post(core, inputs@, time));
                    match drawn {
                        NodeValue::Texture(handle) => handle,
                        _ => CHandle::null(),
                    }
                },
                None => {
                    assert(evaluates_raster(
                        &self.backends,
                        core,
                        inputs@,
                        evaluated@,
                        time,
                        None,
                    ));
                    CHandle::null()
                },
            },
        };
        GeneratorWithMerge::push_mergable_job(inputs, job, time, table);
    }

    /// The merge pass and the outline and glow passes; nothing else.
    fn shader_code(&self, request: &str) -> (r: Option<String>)
        ensures
            match shader_text(request@) {
                Some(code) => r matches Some(s) && s@ == code,
                None => r is None,
            },
    {
        if text::same(request, MERGE_SHADER_ID) {
            Some(generatorwithmerge::merge_shader_frag().to_string())
        } else if text::same(request, OUTLINE_DILATE_SHADER_ID) {
            Some(OUTLINE_DILATE_FRAG.to_string())
        } else if text::same(request, OUTLINE_COLORIZE_SHADER_ID) {
            Some(OUTLINE_COLORIZE_FRAG.to_string())
        } else if text::same(request, GLOW_BLUR_SHADER_ID) {
            Some(GLOW_BLUR_FRAG.to_string())
        } else if text::same(request, GLOW_COLORIZE_SHADER_ID) {
            Some(GLOW_COLORIZE_FRAG.to_string())
        } else {
            None
        }
    }

    /// A changed HTML text is taken over where that is due.
    fn input_value_changed(&mut self, core: &mut NodeCore, changed: &str, element: i32)
        ensures
            if changed@ == TEXT_INPUT@ {
                migrates(old(core), final(core))
            } else {
                *final(core) == *old(core)
            },
            *final(self) == *old(self),
    {
        if text::same(changed, TEXT_INPUT) {
            migrate_legacy_html(core);
        }
    }

    /// A loaded HTML text is taken over where that is due.
    fn post_load(&mut self, core: &mut NodeCore)
        ensures
            migrates(old(core), final(core)),
            *final(self) == *old(self),
    {
        migrate_legacy_html(core);
    }

    /// There is no part of its own to read, so it is skipped; a loaded HTML
    /// text is taken over where that is due.
    fn load_custom(&mut self, core: &mut NodeCore, reader: &mut dyn XmlRead) -> (r: bool)
        ensures
            r,
            final(reader).skipped() == old(reader).skipped() + 1,
            migrates(old(core), final(core)),
            *final(self) == *old(self),
    {
        reader.skip_current_element();
        migrate_legacy_html(core);
        true
    }

    fn duplicate(&self, core: &NodeCore) -> (r: Option<Self>)
        ensures
            r == Some(*self),
    {
        Some(
            TextGeneratorV3 {
                dont_emit_valign: self.dont_emit_valign,
                backends: self.backends.share(),
            },
        )
    }
}

/// The human-readable name of an input.
pub open spec fn displayed_name(id: Seq<char>) -> Seq<char> {
    if id == TEXT_INPUT@ || id == PLAIN_TEXT_INPUT@ {
        "Text"@
    } else if id == FONT_FAMILY_INPUT@ {
        "Font Family"@
    } else if id == FONT_SIZE_INPUT@ {
        "Font Size"@
    } else if id == OUTLINE_ENABLED_INPUT@ {
        "Outline"@
    } else if id == OUTLINE_COLOR_INPUT@ {
        "Outline Color"@
    } else if id == OUTLINE_WIDTH_INPUT@ {
        "Outline Width"@
    } else if id == GLOW_ENABLED_INPUT@ {
        "Glow"@
    } else if id == GLOW_COLOR_INPUT@ {
        "Glow Color"@
    } else if id == GLOW_RADIUS_INPUT@ {
        "Glow Radius"@
    } else if id == COLOR_INPUT@ {
        "Color"@
    } else if id == VERTICAL_ALIGNMENT_INPUT@ {
        "Vertical Alignment"@
    } else if id == ARGS_INPUT@ {
        "Arguments"@
    } else if id == BASE_INPUT@ {
        "Base"@
    } else {
        shapenodebase::shape_input_name(id)
    }
}

/// The fragment shader of a pass.
pub open spec fn shader_text(request: Seq<char>) -> Option<Seq<char>> {
    if request == MERGE_SHADER_ID@ {
        Some(generatorwithmerge::MERGE_FRAG@)
    } else if request == OUTLINE_DILATE_SHADER_ID@ {
        Some(OUTLINE_DILATE_FRAG@)
    } else if request == OUTLINE_COLORIZE_SHADER_ID@ {
        Some(OUTLINE_COLORIZE_FRAG@)
    } else if request == GLOW_BLUR_SHADER_ID@ {
        Some(GLOW_BLUR_FRAG@)
    } else if request == GLOW_COLORIZE_SHADER_ID@ {
        Some(GLOW_COLORIZE_FRAG@)
    } else {
        None
    }
}

/// The inputs a new node declares after the enabled toggle.
pub open spec fn declared() -> Seq<InputModel> {
    seq![
        effect::texture_input(BASE_INPUT@),
        effect::point_input(POSITION_INPUT@, double::ZERO, double::ZERO),
        effect::extent_input(SIZE_INPUT@, double::HUNDRED, double::HUNDRED),
        input::plain_input(
            PLAIN_TEXT_INPUT@,
            ValueType::Text,
            ValueModel::Text(DEFAULT_PLAIN_TEXT@),
        ),
        legacy_text_input(),
        input::plain_input(
            FONT_FAMILY_INPUT@,
            ValueType::StrCombo,
            ValueModel::StrCombo(Seq::empty()),
        ),
        effect::bounded_input(FONT_SIZE_INPUT@, double::SEVENTY_TWO, double::ONE),
        effect::toggle_input(OUTLINE_ENABLED_INPUT@, false),
        effect::color_input(OUTLINE_COLOR_INPUT@, double::ZERO, double::ZERO, double::ZERO),
        effect::bounded_input(OUTLINE_WIDTH_INPUT@, double::TWO, double::ZERO),
        effect::toggle_input(GLOW_ENABLED_INPUT@, false),
        effect::color_input(GLOW_COLOR_INPUT@, double::ONE, double::ONE, double::ZERO),
        effect::bounded_input(GLOW_RADIUS_INPUT@, double::EIGHT, double::ZERO),
        effect::color_input(COLOR_INPUT@, double::ONE, double::ONE, double::ONE),
        input::plain_input(
            VERTICAL_ALIGNMENT_INPUT@,
            ValueType::Combo,
            ValueModel::Combo(0),
        ).flagged(STATIC_FLAGS | input::flags::HIDDEN),
        effect::toggle_input(USE_ARGS_INPUT@, true).flagged(STATIC_FLAGS | input::flags::HIDDEN),
        arguments_input(),
    ]
}

/// The older HTML text: hidden, and shown in the viewer only.
pub open spec fn legacy_text_input() -> InputModel {
    input::plain_input(
        TEXT_INPUT@,
        ValueType::Text,
        ValueModel::Text(LEGACY_DEFAULT_TEXT_HTML@),
    ).flagged(input::flags::HIDDEN).described(seq![("vieweronly"@, ValueModel::Boolean(true))])
}

/// The placeholder arguments: an array that counts from one.
pub open spec fn arguments_input() -> InputModel {
    input::plain_input(ARGS_INPUT@, ValueType::Text, ValueModel::Text(Seq::empty())).flagged(
        input::flags::ARRAY,
    ).described(seq![("arraystart"@, ValueModel::Int(1))])
}

/// The state of a new node: every value at its default but the size of the
/// shape.
pub open spec fn created(core: &NodeCore) -> bool {
    &&& core.input_models() == seq![node::enabled_input()] + declared()
    &&& core.effect_input@ == BASE_INPUT@
    &&& core.flags == node::flags::VIDEO_EFFECT | node::flags::DONT_SHOW_IN_CREATE_MENU
    &&& core.standard_values() == Map::<(Seq<char>, i32), ValueModel>::empty().insert(
        (SIZE_INPUT@, -1i32),
        ValueModel::Vec2(
            Vec2 {
                x: Double { bits: double::FOUR_HUNDRED },
                y: Double { bits: double::THREE_HUNDRED },
            },
        ),
    )
    &&& core.input_tracks() == Seq::<node::InputTrack>::empty()
}

/// Declare the older HTML text.
fn legacy_text() -> (r: Input)
    ensures
        r@ == legacy_text_input(),
{
    let r = Input::new(
        TEXT_INPUT,
        ValueType::Text,
        NodeValue::Text(LEGACY_DEFAULT_TEXT_HTML.to_string()),
    ).with_flags(input::flags::HIDDEN).with_property("vieweronly", NodeValue::Boolean(true));
    assert(r@.properties =~= legacy_text_input().properties);
    r
}

/// Declare the placeholder arguments.
fn arguments() -> (r: Input)
    ensures
        r@ == arguments_input(),
{
    let r = Input::new(ARGS_INPUT, ValueType::Text, NodeValue::Text(String::new())).with_flags(
        input::flags::ARRAY,
    ).with_property("arraystart", NodeValue::Int(1));
    assert(r@.properties =~= arguments_input().properties);
    r
}

/// Declare the inputs of the shape and the text.
fn add_text_inputs(core: &mut NodeCore)
    ensures
        final(core).input_models() == old(core).input_models() + declared().subrange(0, 7),
        final(core).effect_input == old(core).effect_input,
        final(core).flags == old(core).flags,
        final(core).standard_values() == old(core).standard_values(),
        final(core).input_tracks() == old(core).input_tracks(),
{
    core.add_input(effect::texture(BASE_INPUT));
    core.add_input(effect::point(POSITION_INPUT, double::ZERO, double::ZERO));
    core.add_input(effect::extent(SIZE_INPUT, double::HUNDRED, double::HUNDRED));
    core.add_input(
        Input::new(
            PLAIN_TEXT_INPUT,
            ValueType::Text,
            NodeValue::Text(DEFAULT_PLAIN_TEXT.to_string()),
        ),
    );
    core.add_input(legacy_text());
    core.add_input(
        Input::new(FONT_FAMILY_INPUT, ValueType::StrCombo, NodeValue::StrCombo(String::new())),
    );
    core.add_input(effect::bounded(FONT_SIZE_INPUT, double::SEVENTY_TWO, double::ONE));
    assert(core.input_models() =~= old(core).input_models() + declared().subrange(0, 7));
}

/// Declare the inputs of the passes, the alignment and the placeholders.
fn add_style_inputs(core: &mut NodeCore)
    ensures
        final(core).input_models() == old(core).input_models() + declared().subrange(7, 17),
        final(core).effect_input == old(core).effect_input,
        final(core).flags == old(core).flags,
        final(core).standard_values() == old(core).standard_values(),
        final(core).input_tracks() == old(core).input_tracks(),
{
    core.add_input(effect::toggle(OUTLINE_ENABLED_INPUT, false));
    core.add_input(effect::color(OUTLINE_COLOR_INPUT, double::ZERO, double::ZERO, double::ZERO));
    core.add_input(effect::bounded(OUTLINE_WIDTH_INPUT, double::TWO, double::ZERO));
    core.add_input(effect::toggle(GLOW_ENABLED_INPUT, false));
    core.add_input(effect::color(GLOW_COLOR_INPUT, double::ONE, double::ONE, double::ZERO));
    core.add_input(effect::bounded(GLOW_RADIUS_INPUT, double::EIGHT, double::ZERO));
    core.add_input(effect::color(COLOR_INPUT, double::ONE, double::ONE, double::ONE));
    core.add_input(
        Input::new(VERTICAL_ALIGNMENT_INPUT, ValueType::Combo, NodeValue::Combo(0)).with_flags(
            STATIC_FLAGS | input::flags::HIDDEN,
        ),
    );
    core.add_input(
        effect::toggle(USE_ARGS_INPUT, true).with_flags(STATIC_FLAGS | input::flags::HIDDEN),
    );
    core.add_input(arguments());
    assert(core.input_models() =~= old(core).input_models() + declared().subrange(7, 17));
}

/// A new node that uses the given text hooks. It is hidden from menus, and
/// still a video effect.
pub fn create(backends: &TextBackends) -> (r: (NodeCore, TextGeneratorV3))
    ensures
        created(&r.0),
        !r.1.dont_emit_valign,
        r.1.backends == *backends,
{
    let mut core = NodeCore::new();
    add_text_inputs(&mut core);
    add_style_inputs(&mut core);
    core.effect_input = BASE_INPUT.to_string();
    core.flags = node::flags::VIDEO_EFFECT | node::flags::DONT_SHOW_IN_CREATE_MENU;
    assert(core.input_models() =~= seq![node::enabled_input()] + declared());
    core.set_standard_value(
        SIZE_INPUT,
        -1,
        NodeValue::Vec2(
            Vec2 {
                x: Double { bits: double::FOUR_HUNDRED },
                y: Double { bits: double::THREE_HUNDRED },
            },
        ),
    );
    (core, TextGeneratorV3 { dont_emit_valign: false, backends: backends.share() })
}

/// Register this node type.
pub fn register(meta: &mut Vec<NodeMeta>)
    ensures
        factory::registered(
            old(meta)@,
            final(meta)@,
            "org.olivevideoeditor.Olive.text3"@,
            "Text"@,
            seq![Category::Generator],
            NodeKind::Text,
        ),
{
    meta.push(
        NodeMeta {
            type_id: "org.olivevideoeditor.Olive.text3",
            name: "Text",
            categories: &[Category::Generator],
            kind: NodeKind::Text,
        },
    );
}

} // verus!
