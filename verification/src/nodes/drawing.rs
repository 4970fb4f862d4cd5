//! What the text generator draws.

use vstd::prelude::*;

use crate::builtin::BuiltIn;
use crate::double;
use crate::double::Double;
use crate::handle::{FrameModel, HandleModel};
use crate::id::NodeId;
use crate::jobs::JobModel;
use crate::node;
use crate::node::{NodeBehavior, NodeCore};
use crate::nodes::effect;
use crate::nodes::textbackend::{
    InputText, RequestModel, TextBackends, TextLayoutMode, TextLayoutRequest, TextLayoutSize, TextModel,
    TextPlacement,
};
use crate::nodes::textpost;
use crate::nodes::textv3;
use crate::nodes::textv3::{TextGeneratorV3, VerticalAlignment};
use crate::nodes::uniforms;
use crate::placeholder;
use crate::rational::Rational;
use crate::value::{Color, NodeValue, NodeValueRow, TableEntry, ValueModel, Vec2};

verus! {

/// The value of a whole size.
pub open spec fn whole_size(width: int, height: int) -> ValueModel {
    ValueModel::Vec2(Vec2 { x: double::double_of_int(width), y: double::double_of_int(height) })
}

/// The raster is as wide and as high as the shape, where its width and its
/// height are whole and from 1 to 8192. A larger side is cut to 8192, and a
/// smaller one becomes 1.
pub proof fn law_rasters_have_the_size_of_the_shape(
    core: &NodeCore,
    inputs: &NodeValueRow,
    time: Rational,
    width: int,
    height: int,
    r: (i32, i32),
)
    requires
        call_ensures(TextGeneratorV3::raster_size, (core, inputs, time), r),
        uniforms::in_use(core, inputs@, "size_in"@, time, whole_size(width, height)),
        -0x1000_0000 < width < 0x1000_0000,
        -0x1000_0000 < height < 0x1000_0000,
    ensures
        1 <= width <= 8192 ==> r.0 == width,
        1 <= height <= 8192 ==> r.1 == height,
        width > 8192 ==> r.0 == 8192,
        height > 8192 ==> r.1 == 8192,
        width < 1 ==> r.0 == 1,
        height < 1 ==> r.1 == 1,
{
    uniforms::lemma_in_use(core, inputs@, "size_in"@, time, whole_size(width, height));
    double::lemma_integers_round(width);
    double::lemma_integers_round(height);
}

/// Whether `text` is what a text node lays out: the text in use on the
/// plain text input, or on the HTML input where nothing can measure, with
/// its placeholders replaced by the row's argument where they are on.
pub open spec fn lays_out(
    node: &TextGeneratorV3,
    core: &NodeCore,
    row: Map<Seq<char>, ValueModel>,
    time: Rational,
    source: Seq<char>,
    placeholders: bool,
    text: Seq<char>,
) -> bool {
    &&& uniforms::in_use(
        core,
        row,
        if node.backends.measure is Some {
            "plain_text_in"@
        } else {
            "text_in"@
        },
        time,
        ValueModel::Text(source),
    )
    &&& uniforms::in_use(core, row, "use_args_in"@, time, ValueModel::Boolean(placeholders))
    &&& placeholders && row.contains_key("args_in"@) ==> (row["args_in"@] matches ValueModel::Text(
        arg,
    ) ==> text == placeholder::expanded(source, seq![arg]))
    &&& !(placeholders && row.contains_key("args_in"@) && row["args_in"@] is Text) ==> text
        == source
}

/// The text that is laid out.
proof fn lemma_lays_out(
    node: &TextGeneratorV3,
    core: &NodeCore,
    row: Map<Seq<char>, ValueModel>,
    time: Rational,
    source: Seq<char>,
    placeholders: bool,
    text: Seq<char>,
)
    requires
        lays_out(node, core, row, time, source, placeholders, text),
    ensures
        textv3::final_text(node.backends.measure is Some, core, row, time) == TextModel::Text(text),
{
    let id = if node.backends.measure is Some {
        "plain_text_in"@
    } else {
        "text_in"@
    };
    uniforms::lemma_in_use(core, row, id, time, ValueModel::Text(source));
    uniforms::lemma_in_use(core, row, "use_args_in"@, time, ValueModel::Boolean(placeholders));
}

/// A text node without a text hands the backdrop on, where the row has one.
pub proof fn law_no_text_leaves_the_backdrop(
    node: &TextGeneratorV3,
    core: &NodeCore,
    row: Map<Seq<char>, ValueModel>,
    time: Rational,
    before: Seq<TableEntry>,
    after: Seq<TableEntry>,
    source: Seq<char>,
    placeholders: bool,
)
    requires
        BuiltIn::Text(*node).emits(core, row, time, before, after),
        lays_out(node, core, row, time, source, placeholders, Seq::empty()),
    ensures
        !uniforms::carries_texture(row, "base_in"@) ==> after == before,
        uniforms::carries_texture(row, "base_in"@) ==> uniforms::gains_texture(
            before,
            after,
            row["base_in"@],
        ),
{
    lemma_lays_out(node, core, row, time, source, placeholders, Seq::empty());
}

/// Whether a request asks for `text` in the font of the row, wrapped at the
/// width of its shape.
pub open spec fn asks_for(
    request: RequestModel,
    row: Map<Seq<char>, ValueModel>,
    text: Seq<char>,
) -> bool {
    let none = TextModel::Text(Seq::empty());
    &&& request.text == TextModel::Text(text)
    &&& request.mode == TextLayoutMode::PlainText
    &&& request.dots_per_meter == 3780
    &&& !request.center_horizontally
    &&& !row.contains_key("font_family_in"@) ==> request.font_family == none
    &&& row.contains_key("font_family_in"@) ==> (row["font_family_in"@] matches ValueModel::StrCombo(
        family,
    ) ==> request.font_family == TextModel::Text(family))
    &&& row.contains_key("font_family_in"@) ==> (row["font_family_in"@] matches ValueModel::Text(
        family,
    ) ==> request.font_family == TextModel::Text(family))
    &&& !row.contains_key("font_size_in"@) ==> request.font_size_pt == (Double { bits: 0 })
    &&& row.contains_key("font_size_in"@) ==> (row["font_size_in"@] matches ValueModel::Float(size)
        ==> request.font_size_pt == size)
    &&& !row.contains_key("size_in"@) ==> request.wrap_width == (Double { bits: 0 })
    &&& row.contains_key("size_in"@) ==> (row["size_in"@] matches ValueModel::Vec2(size)
        ==> request.wrap_width == size.x)
}

/// Whether a placement fills a raster with the shape: as large as it is,
/// without gaps between the rows, at the given alignment.
pub open spec fn fills(
    placement: TextPlacement,
    align: VerticalAlignment,
    doc: TextLayoutSize,
    width: int,
    height: int,
) -> bool {
    &&& placement.align == align
    &&& placement.doc == doc
    &&& placement.target.width == width
    &&& placement.target.height == height
    &&& placement.target.linesize_bytes == 4 * width
    &&& placement.target.channel_count == 4
    &&& placement.scale == double::double_of_int(1)
    &&& placement.base == (Double { bits: 0 }, Double { bits: 0 })
    &&& placement.size == (double::double_of_int(width), double::double_of_int(height))
}

/// Whether a frame holds `text` as the hooks draw it: on a clear raster of
/// the given size, from the size they measure.
pub open spec fn shows(
    frame: FrameModel,
    backends: &TextBackends,
    row: Map<Seq<char>, ValueModel>,
    text: Seq<char>,
    align: VerticalAlignment,
    width: int,
    height: int,
) -> bool {
    &&& frame.width == width
    &&& frame.height == height
    &&& frame.coverage.len() == width * height * 4
    &&& exists|request: RequestModel, doc: TextLayoutSize, placement: TextPlacement, clear: Seq<u8>|
        {
            &&& #[trigger] fills(placement, align, doc, width, height)
            &&& asks_for(request, row, text)
            &&& backends.measure matches Some(hook) ==> hook.measures(request, doc)
            &&& backends.measure is None ==> doc == (TextLayoutSize {
                width: Double { bits: 0 },
                height: Double { bits: 0 },
            })
            &&& clear.len() == width * height * 4
            &&& forall|k: int| 0 <= k < clear.len() ==> clear[k] == 0u8
            &&& #[trigger] backends.render->0.draws(request, placement, clear, frame.coverage)
        }
}

/// Whether `index` is the vertical alignment in use: the row's, and what is
/// set on the node where the row has none.
pub open spec fn aligned(core: &NodeCore, row: Map<Seq<char>, ValueModel>, index: i64) -> bool {
    &&& row.contains_key("valign_in"@) ==> row["valign_in"@] == ValueModel::Combo(index)
    &&& !row.contains_key("valign_in"@) ==> node::is_standard_value(
        core,
        "valign_in"@,
        -1i32,
        ValueModel::Combo(index),
    )
}

/// The alignment that is used.
proof fn lemma_aligned(core: &NodeCore, row: Map<Seq<char>, ValueModel>, index: i64)
    requires
        aligned(core, row, index),
        0 <= index < 3,
    ensures
        textv3::alignment_of(core, row) == (if index == 0 {
            VerticalAlignment::Top
        } else if index == 1 {
            VerticalAlignment::Middle
        } else {
            VerticalAlignment::Bottom
        }),
{
    double::law_small_integers_survive(index as int);
    if !row.contains_key("valign_in"@) {
        node::lemma_one_standard_value(core, "valign_in"@, -1i32, ValueModel::Combo(index));
    }
}

/// A text is drawn into a frame of its shape's size, in the color and at
/// the alignment in use. That frame is put out with its outline and its
/// glow beneath it; over a backdrop, as the upper of two textures.
#[verifier::rlimit(50)]
pub proof fn law_texts_are_drawn_into_their_shape(
    node: &TextGeneratorV3,
    core: &NodeCore,
    row: Map<Seq<char>, ValueModel>,
    time: Rational,
    before: Seq<TableEntry>,
    after: Seq<TableEntry>,
    source: Seq<char>,
    placeholders: bool,
    text: Seq<char>,
    width: int,
    height: int,
    color: Color,
    align: i64,
    post: Post,
) -> (r: (FrameModel, ValueModel))
    requires
        BuiltIn::Text(*node).emits(core, row, time, before, after),
        node.backends.render is Some,
        lays_out(node, core, row, time, source, placeholders, text),
        text.len() > 0,
        1 <= width <= 8192,
        1 <= height <= 8192,
        uniforms::in_use(core, row, "size_in"@, time, whole_size(width, height)),
        uniforms::in_use(core, row, "color_in"@, time, ValueModel::Color(color)),
        aligned(core, row, align),
        0 <= align < 3,
        posts(post, core, row, time),
    ensures
        shows(
            r.0,
            &node.backends,
            row,
            text,
            if align == 0 {
                VerticalAlignment::Top
            } else if align == 1 {
                VerticalAlignment::Middle
            } else {
                VerticalAlignment::Bottom
            },
            width,
            height,
        ),
        r.0.tint == color,
        layered(
            r.1,
            post,
            time,
            "org.olivevideoeditor.Olive.text3"@,
            ValueModel::Texture(HandleModel::CpuTexture(r.0)),
            (width as i32, height as i32),
        ),
        ({
            let texture = after[before.len() as int].1;
            &&& uniforms::gains_texture(before, after, texture)
            &&& !uniforms::carries_texture(row, "base_in"@) ==> texture == r.1
            &&& uniforms::carries_texture(row, "base_in"@) ==> uniforms::draws_over(
                texture,
                false,
                row["base_in"@],
                r.1,
                time,
            )
        }),
{
    lemma_lays_out(node, core, row, time, source, placeholders, text);
    lemma_aligned(core, row, align);
    uniforms::lemma_in_use(core, row, "size_in"@, time, whole_size(width, height));
    uniforms::lemma_in_use(core, row, "color_in"@, time, ValueModel::Color(color));
    double::lemma_integers_round(width);
    double::lemma_integers_round(height);
    let laid_out = TextModel::Text(text);
    let raster = choose|raster: Option<ValueModel>| #[trigger]
        textv3::evaluates_raster(&node.backends, core, row, laid_out, time, raster) && after
            == before.push(
            crate::nodes::generatorwithmerge::mergable_entry(
                row,
                textv3::text_handle(core, row, time, raster),
                time,
            ),
        );
    let frame = lemma_rasterized(node, core, row, time, laid_out, text, width, height, color, raster);
    let drawn = ValueModel::Texture(HandleModel::CpuTexture(frame));
    let type_id = "org.olivevideoeditor.Olive.text3"@;
    let size = (width as i32, height as i32);
    let top = textpost::post_chain(core, row, time, type_id, drawn, size);
    lemma_layered(core, row, time, type_id, drawn, size, post);
    if uniforms::carries_texture(row, "base_in"@) {
        uniforms::lemma_merge_draws_over(row["base_in"@], top, time, false);
    }
    (frame, top)
}

/// The frame of a text that was rasterized.
proof fn lemma_rasterized(
    node: &TextGeneratorV3,
    core: &NodeCore,
    row: Map<Seq<char>, ValueModel>,
    time: Rational,
    laid_out: TextModel,
    text: Seq<char>,
    width: int,
    height: int,
    color: Color,
    raster: Option<ValueModel>,
) -> (frame: FrameModel)
    requires
        laid_out == TextModel::Text(text),
        node.backends.render is Some,
        textv3::evaluates_raster(&node.backends, core, row, laid_out, time, raster),
        1 <= width <= 8192,
        1 <= height <= 8192,
        textv3::raster_of(core, row, time) == (width, height),
        effect::resolved(core, row, "color_in"@, time) == ValueModel::Color(color),
    ensures
        shows(
            frame,
            &node.backends,
            row,
            text,
            textv3::alignment_of(core, row),
            width,
            height,
        ),
        frame.tint == color,
        raster == Some(ValueModel::Texture(HandleModel::CpuTexture(frame))),
{
    let align = textv3::alignment_of(core, row);
    let size = (width as i32, height as i32);
    let (doc, coverage) = choose|doc: TextLayoutSize, coverage: Seq<u8>| #[trigger]
        textv3::drawn_raster(&node.backends, row, laid_out, size, align, doc, coverage) && raster
            == Some(
            ValueModel::Texture(
                HandleModel::CpuTexture(
                    FrameModel { width: size.0, height: size.1, coverage, tint: color },
                ),
            ),
        );
    let frame = FrameModel { width: size.0, height: size.1, coverage, tint: color };
    lemma_shown(&node.backends, row, text, size, align, doc, frame);
    frame
}

/// Whether `texture` is a pass of the text node over `source`, with one
/// setting, for a raster of the given size.
pub open spec fn is_layer(
    texture: ValueModel,
    time: Rational,
    type_id: Seq<char>,
    shader_id: Seq<char>,
    iterations: i32,
    source: ValueModel,
    setting: Seq<char>,
    value: ValueModel,
    size: (i32, i32),
) -> bool {
    texture matches ValueModel::Texture(HandleModel::Job(JobModel::Shader(pass))) && {
        &&& pass.node_id == NodeId(u64::MAX)
        &&& pass.time == time
        &&& pass.iterations == iterations
        &&& pass.type_id == type_id
        &&& pass.shader_id == shader_id
        &&& pass.effect_input == "tex_in"@
        &&& pass.iterative_input.len() == 0
        &&& pass.params.dom() == set!["tex_in"@, setting, "resolution_in"@]
        &&& pass.params["tex_in"@] == source
        &&& pass.params[setting] == value
        &&& pass.params["resolution_in"@] == whole_size(size.0 as int, size.1 as int)
    }
}

/// Whether `texture` lays `top` over `bottom`.
pub open spec fn lays_over(
    texture: ValueModel,
    time: Rational,
    type_id: Seq<char>,
    bottom: ValueModel,
    top: ValueModel,
) -> bool {
    texture matches ValueModel::Texture(HandleModel::Job(JobModel::Shader(pass))) && {
        &&& pass.node_id == NodeId(u64::MAX)
        &&& pass.time == time
        &&& pass.iterations == 1
        &&& pass.type_id == type_id
        &&& pass.shader_id == "mrg"@
        &&& pass.effect_input == "base_in"@
        &&& pass.iterative_input.len() == 0
        &&& pass.params.dom() == set!["base_in"@, "blend_in"@]
        &&& pass.params["base_in"@] == bottom
        &&& pass.params["blend_in"@] == top
    }
}

/// Whether `texture` is `source` over its own outline: the source widened,
/// then colored.
pub open spec fn outlines(
    texture: ValueModel,
    time: Rational,
    type_id: Seq<char>,
    source: ValueModel,
    width: Double,
    color: Color,
    size: (i32, i32),
) -> bool {
    exists|wide: ValueModel, colored: ValueModel|
        {
            &&& #[trigger] is_layer(
                wide,
                time,
                type_id,
                "outline_dilate"@,
                1,
                source,
                "outline_width_in"@,
                ValueModel::Float(width),
                size,
            )
            &&& #[trigger] is_layer(
                colored,
                time,
                type_id,
                "outline_colorize"@,
                1,
                wide,
                "outline_color_in"@,
                ValueModel::Color(color),
                size,
            )
            &&& lays_over(texture, time, type_id, colored, source)
        }
}

/// Whether `texture` is `source` over its own glow: the source blurred in
/// two directions, then colored.
pub open spec fn glows(
    texture: ValueModel,
    time: Rational,
    type_id: Seq<char>,
    source: ValueModel,
    radius: Double,
    color: Color,
    size: (i32, i32),
) -> bool {
    exists|blurred: ValueModel, colored: ValueModel|
        {
            &&& #[trigger] is_layer(
                blurred,
                time,
                type_id,
                "glow_blur"@,
                2,
                source,
                "glow_radius_in"@,
                ValueModel::Float(radius),
                size,
            )
            &&& #[trigger] is_layer(
                colored,
                time,
                type_id,
                "glow_colorize"@,
                1,
                blurred,
                "glow_color_in"@,
                ValueModel::Color(color),
                size,
            )
            &&& lays_over(texture, time, type_id, colored, source)
        }
}

/// The outline and the glow of a text.
pub struct Post {
    pub outline: bool,
    pub outline_width: Double,
    pub outline_color: Color,
    pub glow: bool,
    pub glow_radius: Double,
    pub glow_color: Color,
}

/// Whether `post` is what the outline and glow inputs of a node say.
pub open spec fn posts(
    post: Post,
    core: &NodeCore,
    row: Map<Seq<char>, ValueModel>,
    time: Rational,
) -> bool {
    &&& uniforms::in_use(core, row, "outline_enabled_in"@, time, ValueModel::Boolean(post.outline))
    &&& uniforms::in_use(
        core,
        row,
        "outline_width_in"@,
        time,
        ValueModel::Float(post.outline_width),
    )
    &&& uniforms::in_use(
        core,
        row,
        "outline_color_in"@,
        time,
        ValueModel::Color(post.outline_color),
    )
    &&& uniforms::in_use(core, row, "glow_enabled_in"@, time, ValueModel::Boolean(post.glow))
    &&& uniforms::in_use(core, row, "glow_radius_in"@, time, ValueModel::Float(post.glow_radius))
    &&& uniforms::in_use(core, row, "glow_color_in"@, time, ValueModel::Color(post.glow_color))
}

/// Whether `body` is `text` over its outline, and `texture` is `body` over
/// its glow, each where it is on.
pub open spec fn layered_around(
    texture: ValueModel,
    body: ValueModel,
    post: Post,
    time: Rational,
    type_id: Seq<char>,
    text: ValueModel,
    size: (i32, i32),
) -> bool {
    &&& post.outline ==> outlines(
        body,
        time,
        type_id,
        text,
        post.outline_width,
        post.outline_color,
        size,
    )
    &&& !post.outline ==> body == text
    &&& post.glow ==> glows(
        texture,
        time,
        type_id,
        body,
        post.glow_radius,
        post.glow_color,
        size,
    )
    &&& !post.glow ==> texture == body
}

/// Whether `texture` is `text` over its outline and that over its glow,
/// each where it is on.
pub open spec fn layered(
    texture: ValueModel,
    post: Post,
    time: Rational,
    type_id: Seq<char>,
    text: ValueModel,
    size: (i32, i32),
) -> bool {
    exists|body: ValueModel| #[trigger]
        layered_around(texture, body, post, time, type_id, text, size)
}

/// The passes around a text are its outline, then its glow, each beneath
/// what was there and only where it is on, in the width, the radius and the
/// colors in use.
pub proof fn law_outlines_and_glows_lie_beneath(
    core: &NodeCore,
    inputs: &NodeValueRow,
    time: Rational,
    type_id: &str,
    text: NodeValue,
    size: (i32, i32),
    r: NodeValue,
    post: Post,
)
    requires
        call_ensures(textpost::chain, (core, inputs, time, type_id, text, size), r),
        posts(post, core, inputs@, time),
    ensures
        layered(r@, post, time, type_id@, text@, size),
{
    lemma_layered(core, inputs@, time, type_id@, text@, size, post);
}

proof fn lemma_layered(
    core: &NodeCore,
    row: Map<Seq<char>, ValueModel>,
    time: Rational,
    type_id: Seq<char>,
    text: ValueModel,
    size: (i32, i32),
    post: Post,
)
    requires
        posts(post, core, row, time),
    ensures
        layered(
            textpost::post_chain(core, row, time, type_id, text, size),
            post,
            time,
            type_id,
            text,
            size,
        ),
{
    let (width, radius) = (
        ValueModel::Float(post.outline_width),
        ValueModel::Float(post.glow_radius),
    );
    let (around, beneath) = (
        ValueModel::Color(post.outline_color),
        ValueModel::Color(post.glow_color),
    );
    uniforms::lemma_in_use(
        core,
        row,
        "outline_enabled_in"@,
        time,
        ValueModel::Boolean(post.outline),
    );
    uniforms::lemma_in_use(core, row, "outline_width_in"@, time, width);
    uniforms::lemma_in_use(core, row, "outline_color_in"@, time, around);
    uniforms::lemma_in_use(core, row, "glow_enabled_in"@, time, ValueModel::Boolean(post.glow));
    uniforms::lemma_in_use(core, row, "glow_radius_in"@, time, radius);
    uniforms::lemma_in_use(core, row, "glow_color_in"@, time, beneath);
    let body = if post.outline {
        lemma_outlines(
            core,
            row,
            time,
            type_id,
            text,
            size,
            post.outline_width,
            post.outline_color,
        );
        textpost::outlined(core, row, time, type_id, text, size)
    } else {
        text
    };
    if post.glow {
        lemma_glows(core, row, time, type_id, body, size, post.glow_radius, post.glow_color);
    }
    let texture = textpost::post_chain(core, row, time, type_id, text, size);
    assert(layered_around(texture, body, post, time, type_id, text, size));
}

proof fn lemma_layer(
    time: Rational,
    type_id: Seq<char>,
    shader_id: Seq<char>,
    iterations: i32,
    source: ValueModel,
    setting: Seq<char>,
    value: ValueModel,
    size: (i32, i32),
)
    requires
        setting != "tex_in"@,
        setting != "resolution_in"@,
    ensures
        is_layer(
            textpost::pass_value(
                textpost::post_pass(
                    time,
                    type_id,
                    shader_id,
                    "tex_in"@,
                    iterations,
                    textpost::post_params(source, setting, value, size),
                ),
            ),
            time,
            type_id,
            shader_id,
            iterations,
            source,
            setting,
            value,
            size,
        ),
{
    reveal_strlit("tex_in");
    reveal_strlit("resolution_in");
    assert("tex_in"@.len() == 6 && "resolution_in"@.len() == 13);
    let params = textpost::post_params(source, setting, value, size);
    assert(params.dom() =~= set!["tex_in"@, setting, "resolution_in"@]);
}

proof fn lemma_lays_over(
    time: Rational,
    type_id: Seq<char>,
    bottom: ValueModel,
    top: ValueModel,
)
    ensures
        lays_over(textpost::merged(time, type_id, bottom, top), time, type_id, bottom, top),
{
    reveal_strlit("base_in");
    reveal_strlit("blend_in");
    assert("base_in"@.len() == 7 && "blend_in"@.len() == 8);
    let params = Map::<Seq<char>, ValueModel>::empty().insert("base_in"@, bottom).insert(
        "blend_in"@,
        top,
    );
    assert(params.dom() =~= set!["base_in"@, "blend_in"@]);
}

proof fn lemma_outlines(
    core: &NodeCore,
    row: Map<Seq<char>, ValueModel>,
    time: Rational,
    type_id: Seq<char>,
    text: ValueModel,
    size: (i32, i32),
    width: Double,
    color: Color,
)
    requires
        effect::resolved(core, row, "outline_width_in"@, time) == ValueModel::Float(width),
        effect::resolved(core, row, "outline_color_in"@, time) == ValueModel::Color(color),
    ensures
        outlines(
            textpost::outlined(core, row, time, type_id, text, size),
            time,
            type_id,
            text,
            width,
            color,
            size,
        ),
{
    reveal_strlit("outline_width_in");
    reveal_strlit("outline_color_in");
    reveal_strlit("tex_in");
    reveal_strlit("resolution_in");
    assert("outline_width_in"@[0] == 'o' && "outline_color_in"@[0] == 'o');
    assert("tex_in"@[0] == 't' && "resolution_in"@[0] == 'r');
    let setting = "outline_width_in"@;
    let value = ValueModel::Float(width);
    lemma_layer(time, type_id, "outline_dilate"@, 1, text, setting, value, size);
    let wide = textpost::pass_value(
        textpost::post_pass(
            time,
            type_id,
            "outline_dilate"@,
            "tex_in"@,
            1,
            textpost::post_params(text, setting, value, size),
        ),
    );
    let tint = ValueModel::Color(color);
    lemma_layer(time, type_id, "outline_colorize"@, 1, wide, "outline_color_in"@, tint, size);
    let colored = textpost::pass_value(
        textpost::post_pass(
            time,
            type_id,
            "outline_colorize"@,
            "tex_in"@,
            1,
            textpost::post_params(wide, "outline_color_in"@, tint, size),
        ),
    );
    lemma_lays_over(time, type_id, colored, text);
}

proof fn lemma_glows(
    core: &NodeCore,
    row: Map<Seq<char>, ValueModel>,
    time: Rational,
    type_id: Seq<char>,
    source: ValueModel,
    size: (i32, i32),
    radius: Double,
    color: Color,
)
    requires
        effect::resolved(core, row, "glow_radius_in"@, time) == ValueModel::Float(radius),
        effect::resolved(core, row, "glow_color_in"@, time) == ValueModel::Color(color),
    ensures
        glows(
            textpost::glowing(core, row, time, type_id, source, size),
            time,
            type_id,
            source,
            radius,
            color,
            size,
        ),
{
    reveal_strlit("glow_radius_in");
    reveal_strlit("glow_color_in");
    reveal_strlit("tex_in");
    reveal_strlit("resolution_in");
    assert("glow_radius_in"@[0] == 'g' && "glow_color_in"@[0] == 'g');
    assert("tex_in"@[0] == 't' && "resolution_in"@[0] == 'r');
    let setting = "glow_radius_in"@;
    let value = ValueModel::Float(radius);
    lemma_layer(time, type_id, "glow_blur"@, 2, source, setting, value, size);
    let blurred = textpost::pass_value(
        textpost::post_pass(
            time,
            type_id,
            "glow_blur"@,
            "tex_in"@,
            2,
            textpost::post_params(source, setting, value, size),
        ),
    );
    let tint = ValueModel::Color(color);
    lemma_layer(time, type_id, "glow_colorize"@, 1, blurred, "glow_color_in"@, tint, size);
    let colored = textpost::pass_value(
        textpost::post_pass(
            time,
            type_id,
            "glow_colorize"@,
            "tex_in"@,
            1,
            textpost::post_params(blurred, "glow_color_in"@, tint, size),
        ),
    );
    lemma_lays_over(time, type_id, colored, source);
}

/// A request asks for the row's plain text in its font, or for its HTML
/// with the font in the markup; either wraps at the width of the shape.
pub proof fn law_requests_ask_for_the_rows_text(
    row: &NodeValueRow,
    plain: TextLayoutRequest,
    marked: TextLayoutRequest,
    text: Seq<char>,
    html: Seq<char>,
)
    requires
        call_ensures(TextGeneratorV3::layout_request_path, (true, row), plain),
        call_ensures(TextGeneratorV3::layout_request_path, (false, row), marked),
        row@.contains_key("plain_text_in"@),
        row@["plain_text_in"@] == ValueModel::Text(text),
        row@.contains_key("text_in"@),
        row@["text_in"@] == ValueModel::Text(html),
    ensures
        asks_for(plain@, row@, text),
        marked@.text == TextModel::Text(html),
        marked@.mode == TextLayoutMode::OliveHtml,
        marked@.font_family == TextModel::Text(Seq::empty()),
        marked@.font_size_pt == (Double { bits: 0 }),
        marked@.wrap_width == plain@.wrap_width,
        marked@.dots_per_meter == 3780,
        !marked@.center_horizontally,
{
}

/// A request is made for the plain text exactly where something can measure
/// it.
pub proof fn law_measuring_picks_the_plain_text(
    backends: &TextBackends,
    row: &NodeValueRow,
    r: TextLayoutRequest,
    plain: TextLayoutRequest,
    marked: TextLayoutRequest,
)
    requires
        call_ensures(TextGeneratorV3::layout_request, (backends, row), r),
        call_ensures(TextGeneratorV3::layout_request_path, (true, row), plain),
        call_ensures(TextGeneratorV3::layout_request_path, (false, row), marked),
    ensures
        backends.measure is Some ==> r@ == plain@,
        backends.measure is None ==> r@ == marked@,
{
}

/// The alignment of a node is the one that was set on it: 0 is the top, 1
/// the middle and 2 the bottom. An on-screen control counts otherwise, with
/// 1 for the bottom and 2 for the middle, and what it sets is read back.
pub proof fn law_alignments_are_read_back(
    node: &mut TextGeneratorV3,
    core: &mut NodeCore,
    a: i32,
    r: VerticalAlignment,
    index: i64,
    from: i32,
    picked: VerticalAlignment,
)
    requires
        call_ensures(TextGeneratorV3::set_vertical_alignment_undoable, (node, core, a), ()),
        call_ensures(TextGeneratorV3::vertical_alignment, (final(core),), r),
        call_ensures(VerticalAlignment::index, (r,), index),
        call_ensures(VerticalAlignment::from_int, (from,), picked),
    ensures
        a == 0 ==> r == VerticalAlignment::Top,
        a == 1 ==> r == VerticalAlignment::Bottom,
        a == 2 ==> r == VerticalAlignment::Middle,
        a < 0 || a > 2 ==> r == VerticalAlignment::Top,
        index == (if r == VerticalAlignment::Top {
            0int
        } else if r == VerticalAlignment::Middle {
            1
        } else {
            2
        }),
        node::is_standard_value(&*final(core), "valign_in"@, -1i32, ValueModel::Combo(index)),
        from == 1 ==> picked == VerticalAlignment::Middle,
        from == 2 ==> picked == VerticalAlignment::Bottom,
        from != 1 && from != 2 ==> picked == VerticalAlignment::Top,
{
    let core_after = *final(core);
    node::lemma_standard_value(&core_after, "valign_in"@, -1i32);
    double::law_small_integers_survive(0);
    double::law_small_integers_survive(1);
    double::law_small_integers_survive(2);
}

/// An HTML text is taken over as its plain text where the node has a plain
/// text input that was left empty or at its default, and the HTML is
/// neither empty nor at its default and holds some text. Nothing changes
/// otherwise.
pub proof fn law_html_is_taken_over_as_its_text(
    core: &mut NodeCore,
    r: bool,
    plain: ValueModel,
    html: &str,
    stripped: String,
    at: int,
)
    requires
        call_ensures(textv3::migrate_legacy_html, (core,), r),
        call_ensures(textv3::strip_html_to_plain, (html,), stripped),
        node::is_standard_value(&*old(core), "plain_text_in"@, -1i32, plain),
        node::is_standard_value(&*old(core), "text_in"@, -1i32, ValueModel::Text(html@)),
        node::is_first_declared(old(core).inputs@, at, "plain_text_in"@),
    ensures
        r <==> (plain == ValueModel::Text(Seq::empty()) || plain == ValueModel::Text(
            textv3::DEFAULT_PLAIN_TEXT@,
        )) && html@.len() > 0 && html@ != textv3::LEGACY_DEFAULT_TEXT_HTML@ && stripped@.len() > 0,
        r ==> node::is_standard_value(
            &*final(core),
            "plain_text_in"@,
            -1i32,
            ValueModel::Text(stripped@),
        ),
        r ==> node::is_standard_value(&*final(core), "text_in"@, -1i32, ValueModel::Text(html@)),
        !r ==> *final(core) == *old(core),
{
    let (start, end) = (*old(core), *final(core));
    node::lemma_one_standard_value(&start, "plain_text_in"@, -1i32, plain);
    node::lemma_one_standard_value(&start, "text_in"@, -1i32, ValueModel::Text(html@));
    node::lemma_standard_value(&end, "plain_text_in"@, -1i32);
    node::lemma_standard_value(&end, "text_in"@, -1i32);
    node::lemma_input_found(&start, "plain_text_in"@, 0);
    assert(start.input_models().skip(0) =~= start.input_models());
    reveal_strlit("plain_text_in");
    reveal_strlit("text_in");
    assert("plain_text_in"@.len() == 13 && "text_in"@.len() == 7);
    if let ValueModel::Text(s) = plain {
        if s.len() == 0 {
            assert(s =~= Seq::empty());
        }
    }
}

/// While the on-screen control is in use, placeholders are shown as they
/// are; they are replaced again once it lets go.
pub proof fn law_controls_show_placeholders(
    node: &mut TextGeneratorV3,
    core: &mut NodeCore,
    again: &mut TextGeneratorV3,
    other: &mut NodeCore,
)
    requires
        call_ensures(TextGeneratorV3::gizmo_activated, (node, core), ()),
        call_ensures(TextGeneratorV3::gizmo_deactivated, (again, other), ()),
    ensures
        node::is_standard_value(&*final(core), "use_args_in"@, -1i32, ValueModel::Boolean(false)),
        node::is_standard_value(&*final(other), "use_args_in"@, -1i32, ValueModel::Boolean(true)),
{
    let (first, second) = (*final(core), *final(other));
    node::lemma_standard_value(&first, "use_args_in"@, -1i32);
    node::lemma_standard_value(&second, "use_args_in"@, -1i32);
}

/// A text is drawn at the size that was asked for, in the color that was
/// asked for. Nothing is drawn without a drawing hook and into a raster
/// without pixels.
pub proof fn law_rasters_are_drawn_as_asked(
    backends: &TextBackends,
    row: &NodeValueRow,
    text: &InputText,
    size: (i32, i32),
    align: VerticalAlignment,
    color: Color,
    r: Option<NodeValue>,
    letters: Seq<char>,
)
    requires
        call_ensures(
            TextGeneratorV3::rasterize_text,
            (backends, row, text, size, align, color),
            r,
        ),
        text@ == TextModel::Text(letters),
        size.0 <= 8192,
        size.1 <= 8192,
    ensures
        backends.render is None || size.0 <= 0 || size.1 <= 0 ==> r is None,
        backends.render is Some && size.0 > 0 && size.1 > 0 ==> (r matches Some(drawn)
            && drawn@ matches ValueModel::Texture(HandleModel::CpuTexture(frame)) && frame.tint
            == color && shows(
            frame,
            backends,
            row@,
            letters,
            align,
            size.0 as int,
            size.1 as int,
        )),
{
    if backends.render is Some && size.0 > 0 && size.1 > 0 {
        let raster = match r {
            Some(v) => Some(v@),
            None => None,
        };
        let laid_out = TextModel::Text(letters);
        let (doc, coverage) = choose|doc: TextLayoutSize, coverage: Seq<u8>| #[trigger]
            textv3::drawn_raster(backends, row@, laid_out, size, align, doc, coverage) && raster
                == Some(
                ValueModel::Texture(
                    HandleModel::CpuTexture(
                        FrameModel { width: size.0, height: size.1, coverage, tint: color },
                    ),
                ),
            );
        let frame = FrameModel { width: size.0, height: size.1, coverage, tint: color };
        lemma_shown(backends, row@, letters, size, align, doc, frame);
    }
}

/// What the hooks draw is shown.
proof fn lemma_shown(
    backends: &TextBackends,
    row: Map<Seq<char>, ValueModel>,
    text: Seq<char>,
    size: (i32, i32),
    align: VerticalAlignment,
    doc: TextLayoutSize,
    frame: FrameModel,
)
    requires
        0 < size.0 <= 8192,
        0 < size.1 <= 8192,
        frame.width == size.0,
        frame.height == size.1,
        textv3::drawn_raster(
            backends,
            row,
            TextModel::Text(text),
            size,
            align,
            doc,
            frame.coverage,
        ),
    ensures
        shows(frame, backends, row, text, align, size.0 as int, size.1 as int),
{
    let (width, height) = (size.0 as int, size.1 as int);
    let request = textv3::raster_request(row, TextModel::Text(text));
    let placement = crate::nodes::textbackend::placed(align, doc, size.0, size.1);
    let clear = crate::nodes::textbackend::cleared(placement);
    double::lemma_one();
    assert(width * height * 4 >= 0) by (nonlinear_arith)
        requires
            1 <= width,
            1 <= height,
    ;
    assert(fills(placement, align, doc, width, height));
    assert(asks_for(request, row, text));
    assert(backends.render->0.draws(request, placement, clear, frame.coverage));
}

/// The code of a pass is found under the id that the pass carries; no other
/// id has one.
pub proof fn law_passes_have_their_code(node: &TextGeneratorV3, request: &str, r: Option<String>)
    requires
        call_ensures(<TextGeneratorV3 as NodeBehavior>::shader_code, (node, request), r),
    ensures
        request@ == "mrg"@ ==> (r matches Some(code) && code@
            == crate::nodes::generatorwithmerge::MERGE_FRAG@),
        request@ == "outline_dilate"@ ==> (r matches Some(code) && code@
            == textpost::OUTLINE_DILATE_FRAG@),
        request@ == "outline_colorize"@ ==> (r matches Some(code) && code@
            == textpost::OUTLINE_COLORIZE_FRAG@),
        request@ == "glow_blur"@ ==> (r matches Some(code) && code@ == textpost::GLOW_BLUR_FRAG@),
        request@ == "glow_colorize"@ ==> (r matches Some(code) && code@
            == textpost::GLOW_COLORIZE_FRAG@),
        request@ != "mrg"@ && request@ != "outline_dilate"@ && request@ != "outline_colorize"@
            && request@ != "glow_blur"@ && request@ != "glow_colorize"@ ==> r is None,
{
    reveal_strlit("mrg");
    reveal_strlit("outline_dilate");
    reveal_strlit("outline_colorize");
    reveal_strlit("glow_blur");
    reveal_strlit("glow_colorize");
    assert("mrg"@.len() == 3 && "outline_dilate"@.len() == 14 && "outline_colorize"@.len() == 16);
    assert("glow_blur"@.len() == 9 && "glow_colorize"@.len() == 13);
}

/// The labels of the vertical alignment stand at the indices of the
/// alignments that they name.
pub proof fn law_alignment_labels_stand_at_their_indices(
    node: &TextGeneratorV3,
    id: &str,
    labels: Vec<&'static str>,
    align: VerticalAlignment,
    index: i64,
)
    requires
        id@ == "valign_in"@,
        call_ensures(<TextGeneratorV3 as NodeBehavior>::input_combo_strings, (node, id), labels),
        call_ensures(VerticalAlignment::index, (align,), index),
    ensures
        labels@.len() == 3,
        align == VerticalAlignment::Top ==> labels@[index as int]@ == "Top"@,
        align == VerticalAlignment::Middle ==> labels@[index as int]@ == "Middle"@,
        align == VerticalAlignment::Bottom ==> labels@[index as int]@ == "Bottom"@,
{
}

/// A toggle is on where its boolean is, and where its number is not zero. A
/// color is its own, and what is no color is an opaque black.
pub proof fn law_toggles_and_colors_are_read(
    value: &NodeValue,
    on: bool,
    color: Color,
)
    requires
        call_ensures(textpost::to_bool, (value,), on),
        call_ensures(textpost::to_color, (value,), color),
    ensures
        on <==> uniforms::is_on(value@),
        value@ matches ValueModel::Color(c) ==> color == c,
        !(value@ is Color) ==> color.r.bits == 0 && color.g.bits == 0 && color.b.bits == 0
            && color.a == double::double_of_int(1),
{
    double::lemma_one();
}

/// A shape that is a number is that wide, and one pixel high.
pub proof fn law_numbers_are_widths(
    core: &NodeCore,
    inputs: &NodeValueRow,
    time: Rational,
    width: int,
    r: (i32, i32),
)
    requires
        call_ensures(TextGeneratorV3::raster_size, (core, inputs, time), r),
        uniforms::in_use(
            core,
            inputs@,
            "size_in"@,
            time,
            ValueModel::Float(double::double_of_int(width)),
        ),
        1 <= width <= 8192,
    ensures
        r.0 == width,
        r.1 == 1,
{
    let value = ValueModel::Float(double::double_of_int(width));
    uniforms::lemma_in_use(core, inputs@, "size_in"@, time, value);
    double::lemma_integers_round(width);
    double::lemma_integers_round(0);
    assert(double::double_of_int(0) == (Double { bits: 0 }));
}

/// The text of a value is the text it holds; any other value has the text
/// of its number.
pub proof fn law_values_have_a_text(value: &NodeValue, r: InputText, number: Double)
    requires
        call_ensures(InputText::of, (value,), r),
        call_ensures(NodeValue::to_double, (value,), number),
    ensures
        value@ matches ValueModel::Text(s) ==> r@ == TextModel::Text(s),
        value@ matches ValueModel::StrCombo(s) ==> r@ == TextModel::Text(s),
        !(value@ is Text) && !(value@ is StrCombo) ==> r@ == TextModel::Number(number),
{
}

} // verus!
