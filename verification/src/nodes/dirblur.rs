//! Directional blur: the average of evenly spaced taps along a
//! direction, centered on the pixel.

use vstd::prelude::*;

use crate::double;
use crate::factory;
use crate::factory::{NodeKind, NodeMeta};
use crate::input::InputModel;
use crate::node;
use crate::node::{Category, NodeBehavior, NodeCore};
use crate::nodes::effect;
use crate::rational::Rational;
use crate::text;
use crate::value::{NodeValue, NodeValueRow, NodeValueTable, TableEntry, ValueModel};

verus! {

/// The texture to work on: the node's effect input.
pub const TEXTURE_INPUT: &'static str = "tex_in";

/// Half the length of the smear, in pixels. Default 0.
pub const AMOUNT_INPUT: &'static str = "amount_in";

/// The direction, in degrees. Default 0.
pub const ANGLE_INPUT: &'static str = "angle_in";

/// Taps averaged per pixel: the number in the shader.
pub const TAP_COUNT: i32 = 16;

/// The directional blur node.
pub struct DirBlurNode;

/// Fragment shader: a constant number of taps. With an amount of zero
/// all taps fall on the pixel, so the picture is left alone without a
/// branch.
pub const SHADER_FRAG: &'static str = r#"uniform sampler2D tex_in;
uniform float amount_in;
uniform float angle_in;
uniform vec2 resolution_in;

in vec2 ove_texcoord;
out vec4 frag_color;

// Taps averaged per pixel.
#define TAP_COUNT 16

// Degrees to radians without relying on built-in constants.
#define M_PI 3.1415926535897932384626433832795

void main() {
  float angle = (angle_in * M_PI) / 180.0;
  vec2 direction = vec2(cos(angle), sin(angle));

  // Distance between neighboring taps: TAP_COUNT taps evenly spread
  // over the 2 * amount_in pixel-long segment centered on the pixel.
  vec2 step = direction * (2.0 * amount_in) / (resolution_in * float(TAP_COUNT - 1));

  vec4 sum = vec4(0.0);
  for (int i = 0; i < TAP_COUNT; ++i) {
    // Tap offset in [-amount_in, +amount_in] pixels, centered on 0.
    float t = float(i) - float(TAP_COUNT - 1) * 0.5;
    sum += texture(tex_in, ove_texcoord + step * t);
  }

  frag_color = sum / float(TAP_COUNT);
}
"#;

/// The parameters of the job: the row with the amount and the angle resolved.
pub open spec fn job_params(
    core: &NodeCore,
    row: Map<Seq<char>, ValueModel>,
    time: Rational,
) -> Map<Seq<char>, ValueModel> {
    row.insert(
        AMOUNT_INPUT@,
        ValueModel::Float(effect::resolved(core, row, AMOUNT_INPUT@, time).number()),
    ).insert(
        ANGLE_INPUT@,
        ValueModel::Float(effect::resolved(core, row, ANGLE_INPUT@, time).number()),
    )
}

impl NodeBehavior for DirBlurNode {
    open spec fn spec_name(&self) -> Seq<char> {
        "Directional Blur"@
    }

    open spec fn spec_type_id(&self) -> Seq<char> {
        "org.olivevideoeditor.Olive.dirblur"@
    }

    open spec fn emits(
        &self,
        core: &NodeCore,
        row: Map<Seq<char>, ValueModel>,
        time: Rational,
        before: Seq<TableEntry>,
        after: Seq<TableEntry>,
    ) -> bool {
        if effect::has_texture(row, TEXTURE_INPUT@) {
            after == before.push(
                effect::shader_entry(
                    effect::shader_pass(
                        self.spec_type_id(),
                        ""@,
                        core,
                        time,
                        job_params(core, row, time),
                        ""@,
                    ),
                ),
            )
        } else {
            after == before
        }
    }

    fn name(&self) -> (r: &str) {
        "Directional Blur"
    }

    fn type_id(&self) -> (r: &str) {
        "org.olivevideoeditor.Olive.dirblur"
    }

    fn categories(&self) -> (r: &[Category])
        ensures
            r@ == seq![Category::Filter],
    {
        &[Category::Filter]
    }

    fn description(&self) -> (r: &str)
        ensures
            r@ == "Blurs an image along a direction."@,
    {
        "Blurs an image along a direction."
    }

    fn input_name<'a>(&self, id: &'a str) -> (r: &'a str)
        ensures
            r@ == (if id@ == TEXTURE_INPUT@ {
                "Input"@
            } else if id@ == AMOUNT_INPUT@ {
                "Amount"@
            } else if id@ == ANGLE_INPUT@ {
                "Angle"@
            } else {
                id@
            }),
    {
        if text::same(id, TEXTURE_INPUT) {
            "Input"
        } else if text::same(id, AMOUNT_INPUT) {
            "Amount"
        } else if text::same(id, ANGLE_INPUT) {
            "Angle"
        } else {
            id
        }
    }

    /// No texture, no output; else one shader job over the row, with
    /// the amount and the angle written in as numbers. An amount of
    /// zero puts the job out as well.
    fn value(
        &self,
        core: &NodeCore,
        inputs: &NodeValueRow,
        time: Rational,
        table: &mut NodeValueTable,
    ) {
        if !effect::is_texture(inputs, TEXTURE_INPUT) {
            return ;
        }
        let mut params: NodeValueRow = inputs.clone();
        params.insert(
            AMOUNT_INPUT.to_string(),
            NodeValue::Float(effect::resolve(core, inputs, AMOUNT_INPUT, time).to_double()),
        );
        params.insert(
            ANGLE_INPUT.to_string(),
            NodeValue::Float(effect::resolve(core, inputs, ANGLE_INPUT, time).to_double()),
        );
        effect::push_shader(
            table,
            effect::shader_payload(self.type_id(), "", core, time, params, ""),
        );
    }

    /// There is one shader; the request is ignored.
    fn shader_code(&self, request: &str) -> (r: Option<String>)
        ensures
            r matches Some(code) && code@ == SHADER_FRAG@,
    {
        Some(SHADER_FRAG.to_string())
    }

    fn duplicate(&self, core: &NodeCore) -> (r: Option<Self>)
        ensures
            r == Some(DirBlurNode),
    {
        Some(DirBlurNode)
    }
}

/// The inputs a new node declares after the enabled toggle.
pub open spec fn declared() -> Seq<InputModel> {
    seq![
        effect::texture_input(TEXTURE_INPUT@),
        effect::bounded_input(AMOUNT_INPUT@, double::ZERO, double::ZERO),
        effect::float_input(ANGLE_INPUT@, double::ZERO),
    ]
}

/// The state of a new node.
pub open spec fn created(core: &NodeCore) -> bool {
    node::fresh_core(core, declared(), TEXTURE_INPUT@, node::flags::VIDEO_EFFECT)
}

/// A new node: the texture, the amount and the angle.
pub fn create() -> (r: (NodeCore, DirBlurNode))
    ensures
        created(&r.0),
{
    let mut core = NodeCore::new();
    core.add_input(effect::texture(TEXTURE_INPUT));
    core.add_input(effect::bounded(AMOUNT_INPUT, double::ZERO, double::ZERO));
    core.add_input(effect::float(ANGLE_INPUT, double::ZERO));
    core.flags = node::flags::VIDEO_EFFECT;
    core.effect_input = TEXTURE_INPUT.to_string();
    assert(core.input_models() =~= seq![node::enabled_input()] + declared());
    (core, DirBlurNode)
}

/// Register this node type.
pub fn register(meta: &mut Vec<NodeMeta>)
    ensures
        factory::registered(
            old(meta)@,
            final(meta)@,
            "org.olivevideoeditor.Olive.dirblur"@,
            "Directional Blur"@,
            seq![Category::Filter],
            NodeKind::DirBlur,
        ),
{
    meta.push(
        NodeMeta {
            type_id: "org.olivevideoeditor.Olive.dirblur",
            name: "Directional Blur",
            categories: &[Category::Filter],
            kind: NodeKind::DirBlur,
        },
    );
}

} // verus!
