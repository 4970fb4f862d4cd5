//! Saturation effect: each color channel moves between the pixel's Rec.
//! 709 luma and its own value. Alpha is not touched.

use vstd::prelude::*;

use crate::double;
use crate::factory;
use crate::factory::{NodeKind, NodeMeta};
use crate::input::InputModel;
use crate::node;
use crate::node::{Category, NodeBehavior, NodeCore};
use crate::nodes::effect;
use crate::rational::Rational;
use crate::text;
use crate::value::{NodeValueRow, NodeValueTable, TableEntry, ValueModel};

verus! {

/// The texture to work on: the node's effect input.
pub const TEXTURE_INPUT: &'static str = "tex_in";

/// Saturation: 0 is gray, 1 leaves the picture alone.
pub const SATURATION_INPUT: &'static str = "saturation_in";

/// The saturation node.
pub struct SaturationNode;

/// Fragment shader. The uniforms are named after the inputs.
pub const SHADER_FRAG: &'static str = r#"// Inputs
uniform sampler2D tex_in;

uniform float saturation_in;

// Input texture coordinate
in vec2 ove_texcoord;
out vec4 frag_color;

void main() {
  vec4 c = texture(tex_in, ove_texcoord);

  // Lerp every color channel between the pixel's Rec. 709 luma and its
  // original value.
  float luma = dot(c.rgb, vec3(0.2126, 0.7152, 0.0722));
  c.rgb = (1.0 - saturation_in) * luma + saturation_in * c.rgb;

  frag_color = c;
}
"#;

/// The parameters of the job: the row with the control resolved.
pub open spec fn job_params(
    core: &NodeCore,
    row: Map<Seq<char>, ValueModel>,
    time: Rational,
) -> Map<Seq<char>, ValueModel> {
    row.insert(
        SATURATION_INPUT@,
        effect::resolved(core, row, SATURATION_INPUT@, time),
    )
}

impl NodeBehavior for SaturationNode {
    open spec fn spec_name(&self) -> Seq<char> {
        "Saturation"@
    }

    open spec fn spec_type_id(&self) -> Seq<char> {
        "org.olivevideoeditor.Olive.saturation"@
    }

    open spec fn emits(
        &self,
        core: &NodeCore,
        row: Map<Seq<char>, ValueModel>,
        time: Rational,
        before: Seq<TableEntry>,
        after: Seq<TableEntry>,
    ) -> bool {
        if effect::has_texture(row, TEXTURE_INPUT@) {
            after == before.push(
                effect::job_entry(
                    effect::shader_pass(
                        self.spec_type_id(),
                        ""@,
                        core,
                        time,
                        job_params(core, row, time),
                        ""@,
                    ),
                ),
            )
        } else {
            after == before
        }
    }

    fn name(&self) -> (r: &str) {
        "Saturation"
    }

    fn type_id(&self) -> (r: &str) {
        "org.olivevideoeditor.Olive.saturation"
    }

    fn categories(&self) -> (r: &[Category])
        ensures
            r@ == seq![Category::Color],
    {
        &[Category::Color]
    }

    fn description(&self) -> (r: &str)
        ensures
            r@ == "Adjust the color intensity by lerping toward the image luma."@,
    {
        "Adjust the color intensity by lerping toward the image luma."
    }

    fn input_name<'a>(&self, id: &'a str) -> (r: &'a str)
        ensures
            r@ == (if id@ == TEXTURE_INPUT@ {
                "Input"@
            } else if id@ == SATURATION_INPUT@ {
                "Saturation"@
            } else {
                id@
            }),
    {
        if text::same(id, TEXTURE_INPUT) {
            "Input"
        } else if text::same(id, SATURATION_INPUT) {
            "Saturation"
        } else {
            id
        }
    }

    /// No texture, no output; else one shader job over the row, with
    /// the control resolved so that the uniform has a value.
    fn value(
        &self,
        core: &NodeCore,
        inputs: &NodeValueRow,
        time: Rational,
        table: &mut NodeValueTable,
    ) {
        if !effect::is_texture(inputs, TEXTURE_INPUT) {
            return ;
        }
        let mut params: NodeValueRow = inputs.clone();
        params.insert(SATURATION_INPUT.to_string(), effect::resolve(core, inputs, SATURATION_INPUT, time));
        effect::push_shader_job(
            table,
            effect::shader_payload(self.type_id(), "", core, time, params, ""),
        );
    }

    /// There is one shader; the request is ignored.
    fn shader_code(&self, request: &str) -> (r: Option<String>)
        ensures
            r matches Some(code) && code@ == SHADER_FRAG@,
    {
        Some(SHADER_FRAG.to_string())
    }

    fn duplicate(&self, core: &NodeCore) -> (r: Option<Self>)
        ensures
            r == Some(SaturationNode),
    {
        Some(SaturationNode)
    }
}

/// The inputs a new node declares after the enabled toggle.
pub open spec fn declared() -> Seq<InputModel> {
    seq![
        effect::texture_input(TEXTURE_INPUT@),
        effect::ranged_input(SATURATION_INPUT@, double::ONE, double::ZERO, double::FOUR, "normal"@),
    ]
}

/// The state of a new node.
pub open spec fn created(core: &NodeCore) -> bool {
    node::fresh_core(core, declared(), TEXTURE_INPUT@, node::flags::VIDEO_EFFECT)
}

/// A new node: the texture and the saturation with its range.
pub fn create() -> (r: (NodeCore, SaturationNode))
    ensures
        created(&r.0),
{
    let mut core = NodeCore::new();
    core.add_input(effect::texture(TEXTURE_INPUT));
    core.add_input(effect::ranged(SATURATION_INPUT, double::ONE, double::ZERO, double::FOUR, "normal"));
    core.flags = node::flags::VIDEO_EFFECT;
    core.effect_input = TEXTURE_INPUT.to_string();
    assert(core.input_models() =~= seq![node::enabled_input()] + declared());
    (core, SaturationNode)
}

/// Register this node type.
pub fn register(meta: &mut Vec<NodeMeta>)
    ensures
        factory::registered(
            old(meta)@,
            final(meta)@,
            "org.olivevideoeditor.Olive.saturation"@,
            "Saturation"@,
            seq![Category::Color],
            NodeKind::Saturation,
        ),
{
    meta.push(
        NodeMeta {
            type_id: "org.olivevideoeditor.Olive.saturation",
            name: "Saturation",
            categories: &[Category::Color],
            kind: NodeKind::Saturation,
        },
    );
}

} // verus!
