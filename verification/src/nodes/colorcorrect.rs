//! Color correction: saturation toward the Rec. 709 luma, contrast
//! around the 0.18 mid gray, gamma as a reciprocal exponent, then gain
//! and offset. Alpha is not touched.

use vstd::prelude::*;

use crate::double;
use crate::factory;
use crate::factory::{NodeKind, NodeMeta};
use crate::input::InputModel;
use crate::node;
use crate::node::{Category, NodeBehavior, NodeCore};
use crate::nodes::effect;
use crate::rational::Rational;
use crate::text;
use crate::value::{NodeValueRow, NodeValueTable, TableEntry, ValueModel};

verus! {

/// The texture to work on: the node's effect input.
pub const TEXTURE_INPUT: &'static str = "tex_in";

/// Saturation: 0 is gray, 1 leaves the picture alone.
pub const SATURATION_INPUT: &'static str = "saturation_in";

/// Contrast: a power curve around mid gray.
pub const CONTRAST_INPUT: &'static str = "contrast_in";

/// Gamma: a reciprocal exponent.
pub const GAMMA_INPUT: &'static str = "gamma_in";

/// Gain: multiplies the color channels.
pub const GAIN_INPUT: &'static str = "gain_in";

/// Offset: added to the color channels after the gain.
pub const OFFSET_INPUT: &'static str = "offset_in";

/// The color correct node.
pub struct ColorCorrectNode;

/// Fragment shader. The uniforms are named after the inputs.
pub const SHADER_FRAG: &'static str = r#"// Inputs
uniform sampler2D tex_in;

uniform float saturation_in;
uniform float contrast_in;
uniform float gamma_in;
uniform float gain_in;
uniform float offset_in;

// Input texture coordinate
in vec2 ove_texcoord;
out vec4 frag_color;

void main() {
  vec4 c = texture(tex_in, ove_texcoord);

  // Saturation: lerp each channel toward the pixel's Rec. 709 luma.
  float luma = dot(c.rgb, vec3(0.2126, 0.7152, 0.0722));
  c.rgb = (1.0 - saturation_in) * luma + saturation_in * c.rgb;

  // Contrast: power curve pivoting on 0.18 mid gray. Non-positive
  // values pass through unchanged (a negative base has no real power).
  if (contrast_in != 1.0) {
    if (c.r > 0.0) {
      c.r = pow(c.r / 0.18, contrast_in) * 0.18;
    }
    if (c.g > 0.0) {
      c.g = pow(c.g / 0.18, contrast_in) * 0.18;
    }
    if (c.b > 0.0) {
      c.b = pow(c.b / 0.18, contrast_in) * 0.18;
    }
  }

  // Gamma: reciprocal exponent, positive values only. A non-positive
  // gamma would divide by zero, so it is clamped to a tiny minimum.
  if (gamma_in != 1.0) {
    float g = max(gamma_in, 1.0e-8);
    if (c.r > 0.0) {
      c.r = pow(c.r, 1.0 / g);
    }
    if (c.g > 0.0) {
      c.g = pow(c.g, 1.0 / g);
    }
    if (c.b > 0.0) {
      c.b = pow(c.b, 1.0 / g);
    }
  }

  // Gain, then offset.
  c.rgb = c.rgb * gain_in + offset_in;

  frag_color = c;
}
"#;

/// The parameters of the job: the row with every control resolved.
pub open spec fn job_params(
    core: &NodeCore,
    row: Map<Seq<char>, ValueModel>,
    time: Rational,
) -> Map<Seq<char>, ValueModel> {
    row.insert(
        SATURATION_INPUT@,
        effect::resolved(core, row, SATURATION_INPUT@, time),
    ).insert(
        CONTRAST_INPUT@,
        effect::resolved(core, row, CONTRAST_INPUT@, time),
    ).insert(
        GAMMA_INPUT@,
        effect::resolved(core, row, GAMMA_INPUT@, time),
    ).insert(
        GAIN_INPUT@,
        effect::resolved(core, row, GAIN_INPUT@, time),
    ).insert(
        OFFSET_INPUT@,
        effect::resolved(core, row, OFFSET_INPUT@, time),
    )
}

impl NodeBehavior for ColorCorrectNode {
    open spec fn spec_name(&self) -> Seq<char> {
        "Color Correct"@
    }

    open spec fn spec_type_id(&self) -> Seq<char> {
        "org.olivevideoeditor.Olive.colorcorrect"@
    }

    open spec fn emits(
        &self,
        core: &NodeCore,
        row: Map<Seq<char>, ValueModel>,
        time: Rational,
        before: Seq<TableEntry>,
        after: Seq<TableEntry>,
    ) -> bool {
        if effect::has_texture(row, TEXTURE_INPUT@) {
            after == before.push(
                effect::shader_entry(
                    effect::shader_pass(
                        self.spec_type_id(),
                        ""@,
                        core,
                        time,
                        job_params(core, row, time),
                        ""@,
                    ),
                ),
            )
        } else {
            after == before
        }
    }

    fn name(&self) -> (r: &str) {
        "Color Correct"
    }

    fn type_id(&self) -> (r: &str) {
        "org.olivevideoeditor.Olive.colorcorrect"
    }

    fn categories(&self) -> (r: &[Category])
        ensures
            r@ == seq![Category::Color],
    {
        &[Category::Color]
    }

    fn description(&self) -> (r: &str)
        ensures
            r@ == "Adjust color using saturation, contrast, gamma, gain, and offset."@,
    {
        "Adjust color using saturation, contrast, gamma, gain, and offset."
    }

    fn input_name<'a>(&self, id: &'a str) -> (r: &'a str)
        ensures
            r@ == (if id@ == TEXTURE_INPUT@ {
                "Input"@
            } else if id@ == SATURATION_INPUT@ {
                "Saturation"@
            } else if id@ == CONTRAST_INPUT@ {
                "Contrast"@
            } else if id@ == GAMMA_INPUT@ {
                "Gamma"@
            } else if id@ == GAIN_INPUT@ {
                "Gain"@
            } else if id@ == OFFSET_INPUT@ {
                "Offset"@
            } else {
                id@
            }),
    {
        if text::same(id, TEXTURE_INPUT) {
            "Input"
        } else if text::same(id, SATURATION_INPUT) {
            "Saturation"
        } else if text::same(id, CONTRAST_INPUT) {
            "Contrast"
        } else if text::same(id, GAMMA_INPUT) {
            "Gamma"
        } else if text::same(id, GAIN_INPUT) {
            "Gain"
        } else if text::same(id, OFFSET_INPUT) {
            "Offset"
        } else {
            id
        }
    }

    /// No texture, no output; else one shader job over the row, with
    /// every control resolved so that each uniform has a value.
    fn value(
        &self,
        core: &NodeCore,
        inputs: &NodeValueRow,
        time: Rational,
        table: &mut NodeValueTable,
    ) {
        if !effect::is_texture(inputs, TEXTURE_INPUT) {
            return ;
        }
        let mut params: NodeValueRow = inputs.clone();
        params.insert(SATURATION_INPUT.to_string(), effect::resolve(core, inputs, SATURATION_INPUT, time));
        params.insert(CONTRAST_INPUT.to_string(), effect::resolve(core, inputs, CONTRAST_INPUT, time));
        params.insert(GAMMA_INPUT.to_string(), effect::resolve(core, inputs, GAMMA_INPUT, time));
        params.insert(GAIN_INPUT.to_string(), effect::resolve(core, inputs, GAIN_INPUT, time));
        params.insert(OFFSET_INPUT.to_string(), effect::resolve(core, inputs, OFFSET_INPUT, time));
        effect::push_shader(
            table,
            effect::shader_payload(self.type_id(), "", core, time, params, ""),
        );
    }

    /// There is one shader; the request is ignored.
    fn shader_code(&self, request: &str) -> (r: Option<String>)
        ensures
            r matches Some(code) && code@ == SHADER_FRAG@,
    {
        Some(SHADER_FRAG.to_string())
    }

    fn duplicate(&self, core: &NodeCore) -> (r: Option<Self>)
        ensures
            r == Some(ColorCorrectNode),
    {
        Some(ColorCorrectNode)
    }
}

/// The inputs a new node declares after the enabled toggle.
pub open spec fn declared() -> Seq<InputModel> {
    seq![
        effect::texture_input(TEXTURE_INPUT@),
        effect::ranged_input(SATURATION_INPUT@, double::ONE, double::ZERO, double::FOUR, "normal"@),
        effect::ranged_input(CONTRAST_INPUT@, double::ONE, double::ZERO, double::FOUR, "normal"@),
        effect::ranged_input(GAMMA_INPUT@, double::ONE, double::FIFTH, double::FIVE, "normal"@),
        effect::ranged_input(GAIN_INPUT@, double::ONE, double::ZERO, double::FOUR, "normal"@),
        effect::ranged_input(OFFSET_INPUT@, double::ZERO, double::MINUS_ONE, double::ONE, "normal"@),
    ]
}

/// The state of a new node.
pub open spec fn created(core: &NodeCore) -> bool {
    node::fresh_core(core, declared(), TEXTURE_INPUT@, node::flags::VIDEO_EFFECT)
}

/// A new node: the texture and the five controls with their ranges.
pub fn create() -> (r: (NodeCore, ColorCorrectNode))
    ensures
        created(&r.0),
{
    let mut core = NodeCore::new();
    core.add_input(effect::texture(TEXTURE_INPUT));
    core.add_input(effect::ranged(SATURATION_INPUT, double::ONE, double::ZERO, double::FOUR, "normal"));
    core.add_input(effect::ranged(CONTRAST_INPUT, double::ONE, double::ZERO, double::FOUR, "normal"));
    core.add_input(effect::ranged(GAMMA_INPUT, double::ONE, double::FIFTH, double::FIVE, "normal"));
    core.add_input(effect::ranged(GAIN_INPUT, double::ONE, double::ZERO, double::FOUR, "normal"));
    core.add_input(effect::ranged(OFFSET_INPUT, double::ZERO, double::MINUS_ONE, double::ONE, "normal"));
    core.flags = node::flags::VIDEO_EFFECT;
    core.effect_input = TEXTURE_INPUT.to_string();
    assert(core.input_models() =~= seq![node::enabled_input()] + declared());
    (core, ColorCorrectNode)
}

/// Register this node type.
pub fn register(meta: &mut Vec<NodeMeta>)
    ensures
        factory::registered(
            old(meta)@,
            final(meta)@,
            "org.olivevideoeditor.Olive.colorcorrect"@,
            "Color Correct"@,
            seq![Category::Color],
            NodeKind::ColorCorrect,
        ),
{
    meta.push(
        NodeMeta {
            type_id: "org.olivevideoeditor.Olive.colorcorrect",
            name: "Color Correct",
            categories: &[Category::Color],
            kind: NodeKind::ColorCorrect,
        },
    );
}

} // verus!
