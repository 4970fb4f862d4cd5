//! Sharpen filter: an unsharp mask against a three by three box blur
//! computed in the same pass. A negative amount softens.

use vstd::prelude::*;

use crate::double;
use crate::factory;
use crate::factory::{NodeKind, NodeMeta};
use crate::input::InputModel;
use crate::node;
use crate::node::{Category, NodeBehavior, NodeCore};
use crate::nodes::effect;
use crate::rational::Rational;
use crate::text;
use crate::value::{NodeValue, NodeValueRow, NodeValueTable, TableEntry, ValueModel};

verus! {

/// The texture to work on: the node's effect input.
pub const TEXTURE_INPUT: &'static str = "tex_in";

/// The amount. Default 1; 0 leaves the picture alone.
pub const AMOUNT_INPUT: &'static str = "amount_in";

/// The sharpen node.
pub struct SharpenNode;

/// Fragment shader: the box blur of the neighborhood, then the mask on
/// all four channels. The result is not clamped.
pub const SHADER_FRAG: &'static str = r#"uniform sampler2D tex_in;
uniform float amount_in;
uniform vec2 resolution_in;

in vec2 ove_texcoord;
out vec4 frag_color;

// Blur kernel edge (3x3 box, i.e. 9 taps).
#define KERNEL_RADIUS 1

void main() {
  vec2 texel = vec2(1.0) / resolution_in;

  vec4 center = texture(tex_in, ove_texcoord);

  // 3x3 box blur, computed inline: the unsharp mask only needs a small
  // neighborhood, so no second pass (and no nested job) is involved.
  vec4 blurred = vec4(0.0);
  for (int y = -KERNEL_RADIUS; y <= KERNEL_RADIUS; ++y) {
    for (int x = -KERNEL_RADIUS; x <= KERNEL_RADIUS; ++x) {
      blurred += texture(tex_in, ove_texcoord + vec2(float(x), float(y)) * texel);
    }
  }
  float kernel_area = float((2 * KERNEL_RADIUS + 1) * (2 * KERNEL_RADIUS + 1));
  blurred /= kernel_area;

  frag_color = center + amount_in * (center - blurred);
}
"#;

/// The parameters of the job: the row with the amount resolved.
pub open spec fn job_params(
    core: &NodeCore,
    row: Map<Seq<char>, ValueModel>,
    time: Rational,
) -> Map<Seq<char>, ValueModel> {
    row.insert(
        AMOUNT_INPUT@,
        ValueModel::Float(effect::resolved(core, row, AMOUNT_INPUT@, time).number()),
    )
}

impl NodeBehavior for SharpenNode {
    open spec fn spec_name(&self) -> Seq<char> {
        "Sharpen"@
    }

    open spec fn spec_type_id(&self) -> Seq<char> {
        "org.olivevideoeditor.Olive.sharpen"@
    }

    open spec fn emits(
        &self,
        core: &NodeCore,
        row: Map<Seq<char>, ValueModel>,
        time: Rational,
        before: Seq<TableEntry>,
        after: Seq<TableEntry>,
    ) -> bool {
        if effect::has_texture(row, TEXTURE_INPUT@) {
            after == before.push(
                effect::shader_entry(
                    effect::shader_pass(
                        self.spec_type_id(),
                        ""@,
                        core,
                        time,
                        job_params(core, row, time),
                        ""@,
                    ),
                ),
            )
        } else {
            after == before
        }
    }

    fn name(&self) -> (r: &str) {
        "Sharpen"
    }

    fn type_id(&self) -> (r: &str) {
        "org.olivevideoeditor.Olive.sharpen"
    }

    fn categories(&self) -> (r: &[Category])
        ensures
            r@ == seq![Category::Filter],
    {
        &[Category::Filter]
    }

    fn description(&self) -> (r: &str)
        ensures
            r@ == "Sharpens an image with an unsharp mask."@,
    {
        "Sharpens an image with an unsharp mask."
    }

    fn input_name<'a>(&self, id: &'a str) -> (r: &'a str)
        ensures
            r@ == (if id@ == TEXTURE_INPUT@ {
                "Input"@
            } else if id@ == AMOUNT_INPUT@ {
                "Amount"@
            } else {
                id@
            }),
    {
        if text::same(id, TEXTURE_INPUT) {
            "Input"
        } else if text::same(id, AMOUNT_INPUT) {
            "Amount"
        } else {
            id
        }
    }

    /// No texture, no output; else one shader job over the row, with
    /// the amount written in as a number. An amount of zero puts the
    /// job out as well.
    fn value(
        &self,
        core: &NodeCore,
        inputs: &NodeValueRow,
        time: Rational,
        table: &mut NodeValueTable,
    ) {
        if !effect::is_texture(inputs, TEXTURE_INPUT) {
            return ;
        }
        let mut params: NodeValueRow = inputs.clone();
        params.insert(
            AMOUNT_INPUT.to_string(),
            NodeValue::Float(effect::resolve(core, inputs, AMOUNT_INPUT, time).to_double()),
        );
        effect::push_shader(
            table,
            effect::shader_payload(self.type_id(), "", core, time, params, ""),
        );
    }

    /// There is one shader; the request is ignored.
    fn shader_code(&self, request: &str) -> (r: Option<String>)
        ensures
            r matches Some(code) && code@ == SHADER_FRAG@,
    {
        Some(SHADER_FRAG.to_string())
    }

    fn duplicate(&self, core: &NodeCore) -> (r: Option<Self>)
        ensures
            r == Some(SharpenNode),
    {
        Some(SharpenNode)
    }
}

/// The inputs a new node declares after the enabled toggle.
pub open spec fn declared() -> Seq<InputModel> {
    seq![
        effect::texture_input(TEXTURE_INPUT@),
        effect::float_input(AMOUNT_INPUT@, double::ONE),
    ]
}

/// The state of a new node.
pub open spec fn created(core: &NodeCore) -> bool {
    node::fresh_core(core, declared(), TEXTURE_INPUT@, node::flags::VIDEO_EFFECT)
}

/// A new node: the texture and the amount, which has no range of its
/// own.
pub fn create() -> (r: (NodeCore, SharpenNode))
    ensures
        created(&r.0),
{
    let mut core = NodeCore::new();
    core.add_input(effect::texture(TEXTURE_INPUT));
    core.add_input(effect::float(AMOUNT_INPUT, double::ONE));
    core.flags = node::flags::VIDEO_EFFECT;
    core.effect_input = TEXTURE_INPUT.to_string();
    assert(core.input_models() =~= seq![node::enabled_input()] + declared());
    (core, SharpenNode)
}

/// Register this node type.
pub fn register(meta: &mut Vec<NodeMeta>)
    ensures
        factory::registered(
            old(meta)@,
            final(meta)@,
            "org.olivevideoeditor.Olive.sharpen"@,
            "Sharpen"@,
            seq![Category::Filter],
            NodeKind::Sharpen,
        ),
{
    meta.push(
        NodeMeta {
            type_id: "org.olivevideoeditor.Olive.sharpen",
            name: "Sharpen",
            categories: &[Category::Filter],
            kind: NodeKind::Sharpen,
        },
    );
}

} // verus!
