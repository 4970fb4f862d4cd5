//! Edge detection: the Sobel gradient magnitude of each color channel,
//! black where it is below a threshold.

use vstd::prelude::*;

use crate::double;
use crate::factory;
use crate::factory::{NodeKind, NodeMeta};
use crate::input::InputModel;
use crate::node;
use crate::node::{Category, NodeBehavior, NodeCore};
use crate::nodes::effect;
use crate::rational::Rational;
use crate::text;
use crate::value::{NodeValue, NodeValueRow, NodeValueTable, TableEntry, ValueModel};

verus! {

/// The texture to work on: the node's effect input.
pub const TEXTURE_INPUT: &'static str = "tex_in";

/// Magnitudes below this come out black. Default 0.
pub const THRESHOLD_INPUT: &'static str = "threshold_in";

/// The edge detect node.
pub struct EdgeDetectNode;

/// Fragment shader: the gradient over the three by three neighborhood.
/// Alpha passes through, and magnitudes are not clamped.
pub const SHADER_FRAG: &'static str = r#"uniform sampler2D tex_in;
uniform float threshold_in;
uniform vec2 resolution_in;

in vec2 ove_texcoord;
out vec4 frag_color;

vec3 edge_sample(vec2 uv) {
  return texture(tex_in, uv).rgb;
}

void main() {
  vec2 texel = vec2(1.0) / resolution_in;

  vec3 tl = edge_sample(ove_texcoord + texel * vec2(-1.0, -1.0));
  vec3 tc = edge_sample(ove_texcoord + texel * vec2( 0.0, -1.0));
  vec3 tr = edge_sample(ove_texcoord + texel * vec2( 1.0, -1.0));
  vec3 ml = edge_sample(ove_texcoord + texel * vec2(-1.0,  0.0));
  vec3 mr = edge_sample(ove_texcoord + texel * vec2( 1.0,  0.0));
  vec3 bl = edge_sample(ove_texcoord + texel * vec2(-1.0,  1.0));
  vec3 bc = edge_sample(ove_texcoord + texel * vec2( 0.0,  1.0));
  vec3 br = edge_sample(ove_texcoord + texel * vec2( 1.0,  1.0));

  vec3 gx = (tr + 2.0 * mr + br) - (tl + 2.0 * ml + bl);
  vec3 gy = (bl + 2.0 * bc + br) - (tl + 2.0 * tc + tr);
  vec3 magnitude = sqrt(gx * gx + gy * gy);

  vec3 masked = magnitude * step(vec3(threshold_in), magnitude);
  frag_color = vec4(masked, texture(tex_in, ove_texcoord).a);
}
"#;

/// The parameters of the job: the row with the threshold resolved.
pub open spec fn job_params(
    core: &NodeCore,
    row: Map<Seq<char>, ValueModel>,
    time: Rational,
) -> Map<Seq<char>, ValueModel> {
    row.insert(
        THRESHOLD_INPUT@,
        ValueModel::Float(effect::resolved(core, row, THRESHOLD_INPUT@, time).number()),
    )
}

impl NodeBehavior for EdgeDetectNode {
    open spec fn spec_name(&self) -> Seq<char> {
        "Edge Detect"@
    }

    open spec fn spec_type_id(&self) -> Seq<char> {
        "org.olivevideoeditor.Olive.edgedetect"@
    }

    open spec fn emits(
        &self,
        core: &NodeCore,
        row: Map<Seq<char>, ValueModel>,
        time: Rational,
        before: Seq<TableEntry>,
        after: Seq<TableEntry>,
    ) -> bool {
        if effect::has_texture(row, TEXTURE_INPUT@) {
            after == before.push(
                effect::job_entry(
                    effect::shader_pass(
                        self.spec_type_id(),
                        ""@,
                        core,
                        time,
                        job_params(core, row, time),
                        ""@,
                    ),
                ),
            )
        } else {
            after == before
        }
    }

    fn name(&self) -> (r: &str) {
        "Edge Detect"
    }

    fn type_id(&self) -> (r: &str) {
        "org.olivevideoeditor.Olive.edgedetect"
    }

    fn categories(&self) -> (r: &[Category])
        ensures
            r@ == seq![Category::Filter],
    {
        &[Category::Filter]
    }

    fn description(&self) -> (r: &str)
        ensures
            r@ == "Detect edges with a Sobel gradient filter."@,
    {
        "Detect edges with a Sobel gradient filter."
    }

    fn input_name<'a>(&self, id: &'a str) -> (r: &'a str)
        ensures
            r@ == (if id@ == TEXTURE_INPUT@ {
                "Input"@
            } else if id@ == THRESHOLD_INPUT@ {
                "Threshold"@
            } else {
                id@
            }),
    {
        if text::same(id, TEXTURE_INPUT) {
            "Input"
        } else if text::same(id, THRESHOLD_INPUT) {
            "Threshold"
        } else {
            id
        }
    }

    /// No texture, no output; else one shader job over the row, with
    /// the threshold written in as a number.
    fn value(
        &self,
        core: &NodeCore,
        inputs: &NodeValueRow,
        time: Rational,
        table: &mut NodeValueTable,
    ) {
        if !effect::is_texture(inputs, TEXTURE_INPUT) {
            return ;
        }
        let mut params: NodeValueRow = inputs.clone();
        params.insert(
            THRESHOLD_INPUT.to_string(),
            NodeValue::Float(effect::resolve(core, inputs, THRESHOLD_INPUT, time).to_double()),
        );
        effect::push_shader_job(
            table,
            effect::shader_payload(self.type_id(), "", core, time, params, ""),
        );
    }

    /// There is one shader; the request is ignored.
    fn shader_code(&self, request: &str) -> (r: Option<String>)
        ensures
            r matches Some(code) && code@ == SHADER_FRAG@,
    {
        Some(SHADER_FRAG.to_string())
    }

    fn duplicate(&self, core: &NodeCore) -> (r: Option<Self>)
        ensures
            r == Some(EdgeDetectNode),
    {
        Some(EdgeDetectNode)
    }
}

/// The inputs a new node declares after the enabled toggle.
pub open spec fn declared() -> Seq<InputModel> {
    seq![
        effect::texture_input(TEXTURE_INPUT@),
        effect::bounded_input(THRESHOLD_INPUT@, double::ZERO, double::ZERO),
    ]
}

/// The state of a new node.
pub open spec fn created(core: &NodeCore) -> bool {
    node::fresh_core(core, declared(), TEXTURE_INPUT@, node::flags::VIDEO_EFFECT)
}

/// A new node: the texture and the threshold.
pub fn create() -> (r: (NodeCore, EdgeDetectNode))
    ensures
        created(&r.0),
{
    let mut core = NodeCore::new();
    core.add_input(effect::texture(TEXTURE_INPUT));
    core.add_input(effect::bounded(THRESHOLD_INPUT, double::ZERO, double::ZERO));
    core.flags = node::flags::VIDEO_EFFECT;
    core.effect_input = TEXTURE_INPUT.to_string();
    assert(core.input_models() =~= seq![node::enabled_input()] + declared());
    (core, EdgeDetectNode)
}

/// Register this node type.
pub fn register(meta: &mut Vec<NodeMeta>)
    ensures
        factory::registered(
            old(meta)@,
            final(meta)@,
            "org.olivevideoeditor.Olive.edgedetect"@,
            "Edge Detect"@,
            seq![Category::Filter],
            NodeKind::EdgeDetect,
        ),
{
    meta.push(
        NodeMeta {
            type_id: "org.olivevideoeditor.Olive.edgedetect",
            name: "Edge Detect",
            categories: &[Category::Filter],
            kind: NodeKind::EdgeDetect,
        },
    );
}

} // verus!
