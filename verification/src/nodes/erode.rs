//! Erode filter: every channel becomes its minimum over a square around
//! the pixel.

use vstd::prelude::*;

use crate::double;
use crate::double::Double;
use crate::factory;
use crate::factory::{NodeKind, NodeMeta};
use crate::input::InputModel;
use crate::node;
use crate::node::{Category, NodeBehavior, NodeCore};
use crate::nodes::effect;
use crate::rational::Rational;
use crate::text;
use crate::value::{NodeValue, NodeValueRow, NodeValueTable, TableEntry, ValueModel};

verus! {

/// The texture to work on: the node's effect input.
pub const TEXTURE_INPUT: &'static str = "tex_in";

/// The radius of the square, in pixels. Default 1.
pub const RADIUS_INPUT: &'static str = "radius_in";

/// The bits of the greatest radius, seven.
pub const MAX_RADIUS: u64 = 0x401C_0000_0000_0000;

/// The erode node.
pub struct ErodeNode;

/// Fragment shader: the minimum over a square whose bound is a
/// constant, with the samples outside the radius skipped.
pub const SHADER_FRAG: &'static str = r#"uniform sampler2D tex_in;
uniform float radius_in;
uniform vec2 resolution_in;

in vec2 ove_texcoord;
out vec4 frag_color;

void main() {
  int radius = int(clamp(radius_in, 0.0, 7.0) + 0.5);
  vec2 texel = vec2(1.0) / resolution_in;

  vec4 acc = texture(tex_in, ove_texcoord);
  for (int dy = -radius; dy <= radius; ++dy) {
    for (int dx = -radius; dx <= radius; ++dx) {
      vec2 uv = ove_texcoord + vec2(float(dx), float(dy)) * texel;
      acc = min(acc, texture(tex_in, uv));
    }
  }

  frag_color = acc;
}
"#;

/// The parameters of the job: the row with the radius as a number.
pub open spec fn job_params(
    core: &NodeCore,
    row: Map<Seq<char>, ValueModel>,
    time: Rational,
) -> Map<Seq<char>, ValueModel> {
    row.insert(
        RADIUS_INPUT@,
        ValueModel::Float(effect::resolved(core, row, RADIUS_INPUT@, time).number()),
    )
}

impl NodeBehavior for ErodeNode {
    open spec fn spec_name(&self) -> Seq<char> {
        "Erode"@
    }

    open spec fn spec_type_id(&self) -> Seq<char> {
        "org.olivevideoeditor.Olive.erode"@
    }

    open spec fn emits(
        &self,
        core: &NodeCore,
        row: Map<Seq<char>, ValueModel>,
        time: Rational,
        before: Seq<TableEntry>,
        after: Seq<TableEntry>,
    ) -> bool {
        if !effect::has_texture(row, TEXTURE_INPUT@) {
            after == before
        } else if effect::resolved(core, row, RADIUS_INPUT@, time).number().nonpositive() {
            after == before.push(effect::texture_entry(row[TEXTURE_INPUT@]))
        } else {
            after == before.push(
                effect::shader_entry(
                    effect::shader_pass(
                        self.spec_type_id(),
                        ""@,
                        core,
                        time,
                        job_params(core, row, time),
                        ""@,
                    ),
                ),
            )
        }
    }

    fn name(&self) -> (r: &str) {
        "Erode"
    }

    fn type_id(&self) -> (r: &str) {
        "org.olivevideoeditor.Olive.erode"
    }

    fn categories(&self) -> (r: &[Category])
        ensures
            r@ == seq![Category::Filter],
    {
        &[Category::Filter]
    }

    fn description(&self) -> (r: &str)
        ensures
            r@ == "Shrink bright areas by taking the minimum over a square neighborhood."@,
    {
        "Shrink bright areas by taking the minimum over a square neighborhood."
    }

    fn input_name<'a>(&self, id: &'a str) -> (r: &'a str)
        ensures
            r@ == (if id@ == TEXTURE_INPUT@ {
                "Input"@
            } else if id@ == RADIUS_INPUT@ {
                "Radius"@
            } else {
                id@
            }),
    {
        if text::same(id, TEXTURE_INPUT) {
            "Input"
        } else if text::same(id, RADIUS_INPUT) {
            "Radius"
        } else {
            id
        }
    }

    /// No texture, no output. A radius of at most zero passes the
    /// texture on; else one shader job over the row, with the radius
    /// written in as a number.
    fn value(
        &self,
        core: &NodeCore,
        inputs: &NodeValueRow,
        time: Rational,
        table: &mut NodeValueTable,
    ) {
        if !effect::is_texture(inputs, TEXTURE_INPUT) {
            return ;
        }
        let radius: Double = effect::resolve(core, inputs, RADIUS_INPUT, time).to_double();
        if radius.at_most_zero() {
            effect::push_row_texture(table, inputs, TEXTURE_INPUT);
            return ;
        }
        let mut params: NodeValueRow = inputs.clone();
        params.insert(RADIUS_INPUT.to_string(), NodeValue::Float(radius));
        effect::push_shader(
            table,
            effect::shader_payload(self.type_id(), "", core, time, params, ""),
        );
    }

    /// There is one shader; the request is ignored.
    fn shader_code(&self, request: &str) -> (r: Option<String>)
        ensures
            r matches Some(code) && code@ == SHADER_FRAG@,
    {
        Some(SHADER_FRAG.to_string())
    }

    fn duplicate(&self, core: &NodeCore) -> (r: Option<Self>)
        ensures
            r == Some(ErodeNode),
    {
        Some(ErodeNode)
    }
}

/// The inputs a new node declares after the enabled toggle.
pub open spec fn declared() -> Seq<InputModel> {
    seq![
        effect::texture_input(TEXTURE_INPUT@),
        effect::float_input(RADIUS_INPUT@, double::ONE).described(
            seq![
                ("min"@, ValueModel::Float(Double { bits: double::ZERO })),
                ("max"@, ValueModel::Float(Double { bits: MAX_RADIUS })),
            ],
        ),
    ]
}

/// The state of a new node.
pub open spec fn created(core: &NodeCore) -> bool {
    node::fresh_core(core, declared(), TEXTURE_INPUT@, node::flags::VIDEO_EFFECT)
}

/// A new node: the texture and the radius with its range.
pub fn create() -> (r: (NodeCore, ErodeNode))
    ensures
        created(&r.0),
{
    let mut core = NodeCore::new();
    core.add_input(effect::texture(TEXTURE_INPUT));
    core.add_input(
        effect::float(RADIUS_INPUT, double::ONE).with_property(
            "min",
            NodeValue::Float(Double { bits: double::ZERO }),
        ).with_property("max", NodeValue::Float(Double { bits: MAX_RADIUS })),
    );
    core.flags = node::flags::VIDEO_EFFECT;
    core.effect_input = TEXTURE_INPUT.to_string();
    assert(core.input_models() =~~= seq![node::enabled_input()] + declared());
    (core, ErodeNode)
}

/// Register this node type.
pub fn register(meta: &mut Vec<NodeMeta>)
    ensures
        factory::registered(
            old(meta)@,
            final(meta)@,
            "org.olivevideoeditor.Olive.erode"@,
            "Erode"@,
            seq![Category::Filter],
            NodeKind::Erode,
        ),
{
    meta.push(
        NodeMeta {
            type_id: "org.olivevideoeditor.Olive.erode",
            name: "Erode",
            categories: &[Category::Filter],
            kind: NodeKind::Erode,
        },
    );
}

} // verus!
