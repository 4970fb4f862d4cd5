//! The outline and glow passes of the text generator.
//!
//! The outline widens the coverage of the text and colors it; the glow
//! blurs what it surrounds, once per axis, and colors it. Each is drawn
//! beneath what it surrounds. With both on, the glow surrounds the
//! outlined text.

use vstd::prelude::*;

use crate::double;
use crate::double::Double;
use crate::handle;
use crate::handle::{Boxed, CHandle, HandleModel};
use crate::id;
use crate::id::NodeId;
use crate::jobs::{Job, JobModel, ShaderJobModel, ShaderJobPayload};
use crate::node::NodeCore;
use crate::nodes::effect;
use crate::nodes::generatorwithmerge;
use crate::nodes::merge;
use crate::rational::Rational;
use crate::value::{Color, NodeValue, NodeValueRow, ValueModel, Vec2};

verus! {

/// Whether there is an outline. Off by default.
pub const OUTLINE_ENABLED_INPUT: &'static str = "outline_enabled_in";

/// The color of the outline. Default opaque black.
pub const OUTLINE_COLOR_INPUT: &'static str = "outline_color_in";

/// The width of the outline, in pixels. Default 2.
pub const OUTLINE_WIDTH_INPUT: &'static str = "outline_width_in";

/// Whether there is a glow. Off by default.
pub const GLOW_ENABLED_INPUT: &'static str = "glow_enabled_in";

/// The color of the glow. Default opaque yellow.
pub const GLOW_COLOR_INPUT: &'static str = "glow_color_in";

/// The radius of the glow, in pixels. Default 8.
pub const GLOW_RADIUS_INPUT: &'static str = "glow_radius_in";

/// The shader id of the pass that widens the coverage.
pub const OUTLINE_DILATE_SHADER_ID: &'static str = "outline_dilate";

/// The shader id of the pass that colors the outline.
pub const OUTLINE_COLORIZE_SHADER_ID: &'static str = "outline_colorize";

/// The shader id of the pass that blurs the coverage along one axis.
pub const GLOW_BLUR_SHADER_ID: &'static str = "glow_blur";

/// The shader id of the pass that colors the glow.
pub const GLOW_COLORIZE_SHADER_ID: &'static str = "glow_colorize";

/// The texture that a pass reads.
pub const POST_TEXTURE_INPUT: &'static str = "tex_in";

/// The size of the raster. A pass carries it, so that the size of the
/// sequence does not take its place.
pub const RESOLUTION_INPUT: &'static str = "resolution_in";

/// Fragment shader that widens the coverage: the maximum over a square
/// whose radius is rounded and brought into 0 to 7.
pub const OUTLINE_DILATE_FRAG: &'static str = r#"uniform sampler2D tex_in;
uniform float outline_width_in;
uniform vec2 resolution_in;

in vec2 ove_texcoord;
out vec4 frag_color;

void main() {
  int radius = int(clamp(outline_width_in, 0.0, 7.0) + 0.5);
  vec2 texel = vec2(1.0) / resolution_in;

  vec4 acc = texture(tex_in, ove_texcoord);
  for (int dy = -radius; dy <= radius; ++dy) {
    for (int dx = -radius; dx <= radius; ++dx) {
      vec2 uv = ove_texcoord + vec2(float(dx), float(dy)) * texel;
      acc = max(acc, texture(tex_in, uv));
    }
  }

  frag_color = acc;
}
"#;

/// Fragment shader that colors the outline, premultiplied.
pub const OUTLINE_COLORIZE_FRAG: &'static str = r#"uniform sampler2D tex_in;
uniform vec4 outline_color_in;

in vec2 ove_texcoord;
out vec4 frag_color;

void main() {
  vec4 coverage = texture(tex_in, ove_texcoord);
  float alpha = coverage.a * outline_color_in.a;

  frag_color = vec4(outline_color_in.rgb * alpha, alpha);
}
"#;

/// Fragment shader that blurs along one axis: the first pass
/// horizontally, the second vertically. The radius is rounded and
/// brought into 0 to 64.
pub const GLOW_BLUR_FRAG: &'static str = r#"uniform sampler2D tex_in;
uniform float glow_radius_in;
uniform vec2 resolution_in;

uniform int ove_iteration;

in vec2 ove_texcoord;
out vec4 frag_color;

void main() {
  int radius = int(clamp(glow_radius_in, 0.0, 64.0) + 0.5);
  if (radius < 1) {
    frag_color = texture(tex_in, ove_texcoord);
    return;
  }

  vec4 composite = vec4(0.0);
  for (int i = -radius; i <= radius; ++i) {
    vec2 uv = ove_texcoord;
    if (ove_iteration == 0) {
      uv.x += float(i) / resolution_in.x;
    } else {
      uv.y += float(i) / resolution_in.y;
    }
    composite += texture(tex_in, uv);
  }

  frag_color = composite / float(radius * 2 + 1);
}
"#;

/// Fragment shader that colors the glow, premultiplied.
pub const GLOW_COLORIZE_FRAG: &'static str = r#"uniform sampler2D tex_in;
uniform vec4 glow_color_in;

in vec2 ove_texcoord;
out vec4 frag_color;

void main() {
  vec4 coverage = texture(tex_in, ove_texcoord);
  float alpha = coverage.a * glow_color_in.a;

  frag_color = vec4(glow_color_in.rgb * alpha, alpha);
}
"#;

/// The truth of a value: a boolean's own, else whether the number is not
/// zero.
pub open spec fn truth(value: ValueModel) -> bool {
    match value {
        ValueModel::Boolean(b) => b,
        other => !other.number().zero(),
    }
}

/// The truth of a value.
pub fn to_bool(value: &NodeValue) -> (r: bool)
    ensures
        r == truth(value@),
{
    match value {
        NodeValue::Boolean(b) => *b,
        other => !other.to_double().is_zero(),
    }
}

/// The color of a value: opaque black when it is no color.
pub open spec fn color_of(value: ValueModel) -> Color {
    match value {
        ValueModel::Color(c) => c,
        _ => Color {
            r: Double { bits: double::ZERO },
            g: Double { bits: double::ZERO },
            b: Double { bits: double::ZERO },
            a: Double { bits: double::ONE },
        },
    }
}

/// The color of a value: opaque black when it is no color.
pub fn to_color(value: &NodeValue) -> (r: Color)
    ensures
        r == color_of(value@),
{
    match value {
        NodeValue::Color(c) => *c,
        _ => Color {
            r: Double { bits: double::ZERO },
            g: Double { bits: double::ZERO },
            b: Double { bits: double::ZERO },
            a: Double { bits: double::ONE },
        },
    }
}

/// Whether an enabled toggle is on.
pub open spec fn enabled(
    core: &NodeCore,
    row: Map<Seq<char>, ValueModel>,
    id: Seq<char>,
    time: Rational,
) -> bool {
    truth(effect::resolved(core, row, id, time))
}

/// A pass as a texture value.
pub open spec fn pass_value(pass: ShaderJobModel) -> ValueModel {
    ValueModel::Texture(HandleModel::Job(JobModel::Shader(pass)))
}

/// A pass of the text node.
pub open spec fn post_pass(
    time: Rational,
    type_id: Seq<char>,
    shader_id: Seq<char>,
    effect_input: Seq<char>,
    iterations: i32,
    params: Map<Seq<char>, ValueModel>,
) -> ShaderJobModel {
    ShaderJobModel {
        node_id: id::invalid_id(),
        time,
        iterations,
        type_id,
        shader_id,
        effect_input,
        params,
        iterative_input: Seq::empty(),
    }
}

/// The texture that draws `top` over `bottom`.
pub open spec fn merged(
    time: Rational,
    type_id: Seq<char>,
    bottom: ValueModel,
    top: ValueModel,
) -> ValueModel {
    pass_value(
        post_pass(
            time,
            type_id,
            generatorwithmerge::MERGE_SHADER_ID@,
            merge::BASE_INPUT@,
            1,
            Map::<Seq<char>, ValueModel>::empty().insert(merge::BASE_INPUT@, bottom).insert(
                merge::BLEND_INPUT@,
                top,
            ),
        ),
    )
}

/// The parameters of a pass over `source`: the texture, one setting and
/// the size of the raster.
pub open spec fn post_params(
    source: ValueModel,
    setting: Seq<char>,
    value: ValueModel,
    size: (i32, i32),
) -> Map<Seq<char>, ValueModel> {
    Map::<Seq<char>, ValueModel>::empty().insert(POST_TEXTURE_INPUT@, source).insert(
        setting,
        value,
    ).insert(
        RESOLUTION_INPUT@,
        ValueModel::Vec2(
            Vec2 {
                x: double::double_of_int(size.0 as int),
                y: double::double_of_int(size.1 as int),
            },
        ),
    )
}

/// `text` with its outline beneath it: the widened and colored coverage.
pub open spec fn outlined(
    core: &NodeCore,
    row: Map<Seq<char>, ValueModel>,
    time: Rational,
    type_id: Seq<char>,
    text: ValueModel,
    size: (i32, i32),
) -> ValueModel {
    let width = effect::resolved(core, row, OUTLINE_WIDTH_INPUT@, time).number();
    let color = color_of(effect::resolved(core, row, OUTLINE_COLOR_INPUT@, time));
    let widened = pass_value(
        post_pass(
            time,
            type_id,
            OUTLINE_DILATE_SHADER_ID@,
            POST_TEXTURE_INPUT@,
            1,
            post_params(text, OUTLINE_WIDTH_INPUT@, ValueModel::Float(width), size),
        ),
    );
    let colored = pass_value(
        post_pass(
            time,
            type_id,
            OUTLINE_COLORIZE_SHADER_ID@,
            POST_TEXTURE_INPUT@,
            1,
            post_params(widened, OUTLINE_COLOR_INPUT@, ValueModel::Color(color), size),
        ),
    );
    merged(time, type_id, colored, text)
}

/// `source` with its glow beneath it: the coverage blurred once per axis
/// and colored.
pub open spec fn glowing(
    core: &NodeCore,
    row: Map<Seq<char>, ValueModel>,
    time: Rational,
    type_id: Seq<char>,
    source: ValueModel,
    size: (i32, i32),
) -> ValueModel {
    let radius = effect::resolved(core, row, GLOW_RADIUS_INPUT@, time).number();
    let color = color_of(effect::resolved(core, row, GLOW_COLOR_INPUT@, time));
    let blurred = pass_value(
        post_pass(
            time,
            type_id,
            GLOW_BLUR_SHADER_ID@,
            POST_TEXTURE_INPUT@,
            2,
            post_params(source, GLOW_RADIUS_INPUT@, ValueModel::Float(radius), size),
        ),
    );
    let colored = pass_value(
        post_pass(
            time,
            type_id,
            GLOW_COLORIZE_SHADER_ID@,
            POST_TEXTURE_INPUT@,
            1,
            post_params(blurred, GLOW_COLOR_INPUT@, ValueModel::Color(color), size),
        ),
    );
    merged(time, type_id, colored, source)
}

/// The text with what is enabled: the outline first, and the glow around
/// that.
pub open spec fn post_chain(
    core: &NodeCore,
    row: Map<Seq<char>, ValueModel>,
    time: Rational,
    type_id: Seq<char>,
    text: ValueModel,
    size: (i32, i32),
) -> ValueModel {
    let body = if enabled(core, row, OUTLINE_ENABLED_INPUT@, time) {
        outlined(core, row, time, type_id, text, size)
    } else {
        text
    };
    if enabled(core, row, GLOW_ENABLED_INPUT@, time) {
        glowing(core, row, time, type_id, body, size)
    } else {
        body
    }
}

/// Box one pass.
pub fn shader_job(
    time: Rational,
    type_id: &str,
    shader_id: &str,
    effect_input: &str,
    iterations: i32,
    params: NodeValueRow,
) -> (r: CHandle)
    ensures
        r@ == HandleModel::Job(
            JobModel::Shader(
                post_pass(time, type_id@, shader_id@, effect_input@, iterations, params@),
            ),
        ),
{
    handle::make_owned(
        Boxed::Job(
            Job::ShaderJob(
                ShaderJobPayload {
                    node_id: NodeId::invalid(),
                    time,
                    iterations,
                    type_id: type_id.to_string(),
                    shader_id: shader_id.to_string(),
                    effect_input: effect_input.to_string(),
                    params,
                    iterative_input: String::new(),
                },
            ),
        ),
    )
}

/// Box the pass that draws `top` over `bottom`.
pub fn merge_job(time: Rational, type_id: &str, bottom: &NodeValue, top: &NodeValue) -> (r: CHandle)
    ensures
        ValueModel::Texture(r@) == merged(time, type_id@, bottom@, top@),
{
    let mut params: NodeValueRow = NodeValueRow::new();
    params.insert(merge::BASE_INPUT.to_string(), bottom.clone());
    params.insert(merge::BLEND_INPUT.to_string(), top.clone());
    shader_job(
        time,
        type_id,
        generatorwithmerge::MERGE_SHADER_ID,
        merge::BASE_INPUT,
        1,
        params,
    )
}

/// The parameters of a pass.
fn pass_params(
    source: &NodeValue,
    setting: &str,
    value: NodeValue,
    size: (i32, i32),
) -> (r: NodeValueRow)
    ensures
        r@ == post_params(source@, setting@, value@, size),
{
    let mut params: NodeValueRow = NodeValueRow::new();
    params.insert(POST_TEXTURE_INPUT.to_string(), source.clone());
    params.insert(setting.to_string(), value);
    params.insert(
        RESOLUTION_INPUT.to_string(),
        NodeValue::Vec2(
            Vec2 { x: Double::of_int(size.0 as i64), y: Double::of_int(size.1 as i64) },
        ),
    );
    params
}

/// Draw the outline beneath the text.
fn outline(
    core: &NodeCore,
    inputs: &NodeValueRow,
    time: Rational,
    type_id: &str,
    text: &NodeValue,
    size: (i32, i32),
) -> (r: NodeValue)
    ensures
        r@ == outlined(core, inputs@, time, type_id@, text@, size),
{
    let width: Double = effect::resolve(core, inputs, OUTLINE_WIDTH_INPUT, time).to_double();
    let color: Color = to_color(&effect::resolve(core, inputs, OUTLINE_COLOR_INPUT, time));
    let widened = NodeValue::Texture(
        shader_job(
            time,
            type_id,
            OUTLINE_DILATE_SHADER_ID,
            POST_TEXTURE_INPUT,
            1,
            pass_params(text, OUTLINE_WIDTH_INPUT, NodeValue::Float(width), size),
        ),
    );
    let colored = NodeValue::Texture(
        shader_job(
            time,
            type_id,
            OUTLINE_COLORIZE_SHADER_ID,
            POST_TEXTURE_INPUT,
            1,
            pass_params(&widened, OUTLINE_COLOR_INPUT, NodeValue::Color(color), size),
        ),
    );
    NodeValue::Texture(merge_job(time, type_id, &colored, text))
}

/// Draw the glow beneath what it surrounds.
fn glow(
    core: &NodeCore,
    inputs: &NodeValueRow,
    time: Rational,
    type_id: &str,
    source: &NodeValue,
    size: (i32, i32),
) -> (r: NodeValue)
    ensures
        r@ == glowing(core, inputs@, time, type_id@, source@, size),
{
    let radius: Double = effect::resolve(core, inputs, GLOW_RADIUS_INPUT, time).to_double();
    let color: Color = to_color(&effect::resolve(core, inputs, GLOW_COLOR_INPUT, time));
    let blurred = NodeValue::Texture(
        shader_job(
            time,
            type_id,
            GLOW_BLUR_SHADER_ID,
            POST_TEXTURE_INPUT,
            2,
            pass_params(source, GLOW_RADIUS_INPUT, NodeValue::Float(radius), size),
        ),
    );
    let colored = NodeValue::Texture(
        shader_job(
            time,
            type_id,
            GLOW_COLORIZE_SHADER_ID,
            POST_TEXTURE_INPUT,
            1,
            pass_params(&blurred, GLOW_COLOR_INPUT, NodeValue::Color(color), size),
        ),
    );
    NodeValue::Texture(merge_job(time, type_id, &colored, source))
}

/// Draw what is enabled beneath the text.
pub fn chain(
    core: &NodeCore,
    inputs: &NodeValueRow,
    time: Rational,
    type_id: &str,
    text: NodeValue,
    size: (i32, i32),
) -> (r: NodeValue)
    ensures
        r@ == post_chain(core, inputs@, time, type_id@, text@, size),
{
    let body: NodeValue = if to_bool(
        &effect::resolve(core, inputs, OUTLINE_ENABLED_INPUT, time),
    ) {
        outline(core, inputs, time, type_id, &text, size)
    } else {
        text
    };
    if to_bool(&effect::resolve(core, inputs, GLOW_ENABLED_INPUT, time)) {
        glow(core, inputs, time, type_id, &body, size)
    } else {
        body
    }
}

/// Whatever is enabled, the text or the pass that ends in it is the top
/// layer of the last merge, and a chain is a texture when the text is.
pub proof fn law_the_text_stays_on_top(
    core: &NodeCore,
    row: Map<Seq<char>, ValueModel>,
    time: Rational,
    type_id: Seq<char>,
    text: ValueModel,
    size: (i32, i32),
)
    requires
        text is Texture,
    ensures
        post_chain(core, row, time, type_id, text, size) is Texture,
        forall|bottom: ValueModel, top: ValueModel|
            #[trigger] merged(time, type_id, bottom, top) matches ValueModel::Texture(
                HandleModel::Job(JobModel::Shader(pass)),
            ) && pass.params[merge::BLEND_INPUT@] == top && pass.params[merge::BASE_INPUT@]
                == bottom,
        enabled(core, row, GLOW_ENABLED_INPUT@, time) && !enabled(
            core,
            row,
            OUTLINE_ENABLED_INPUT@,
            time,
        ) ==> exists|bottom: ValueModel|
            post_chain(core, row, time, type_id, text, size) == #[trigger] merged(
                time,
                type_id,
                bottom,
                text,
            ),
        !enabled(core, row, GLOW_ENABLED_INPUT@, time) && enabled(
            core,
            row,
            OUTLINE_ENABLED_INPUT@,
            time,
        ) ==> exists|bottom: ValueModel|
            post_chain(core, row, time, type_id, text, size) == #[trigger] merged(
                time,
                type_id,
                bottom,
                text,
            ),
        enabled(core, row, GLOW_ENABLED_INPUT@, time) && enabled(
            core,
            row,
            OUTLINE_ENABLED_INPUT@,
            time,
        ) ==> exists|bottom: ValueModel|
            post_chain(core, row, time, type_id, text, size) == #[trigger] merged(
                time,
                type_id,
                bottom,
                outlined(core, row, time, type_id, text, size),
            ),
{
    reveal_strlit("base_in");
    reveal_strlit("blend_in");
    assert(merge::BASE_INPUT@.len() == 7);
    assert(merge::BLEND_INPUT@.len() == 8);
}

} // verus!
