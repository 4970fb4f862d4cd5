//! Clamp effect: every channel, alpha included, is raised to a lower
//! bound and then lowered to an upper bound, so that the upper bound
//! wins where the two conflict.

use vstd::prelude::*;

use crate::double;
use crate::factory;
use crate::factory::{NodeKind, NodeMeta};
use crate::input::InputModel;
use crate::node;
use crate::node::{Category, NodeBehavior, NodeCore};
use crate::nodes::effect;
use crate::rational::Rational;
use crate::text;
use crate::value::{NodeValueRow, NodeValueTable, TableEntry, ValueModel};

verus! {

/// The texture to work on: the node's effect input.
pub const TEXTURE_INPUT: &'static str = "tex_in";

/// The lower bound. Default 0.
pub const MIN_INPUT: &'static str = "min_in";

/// The upper bound. Default 1.
pub const MAX_INPUT: &'static str = "max_in";

/// The clamp node.
pub struct ClampNode;

/// Fragment shader: lower bound first, upper bound second.
pub const SHADER_FRAG: &'static str = r#"// Inputs
uniform sampler2D tex_in;

uniform float min_in;
uniform float max_in;

// Input texture coordinate
in vec2 ove_texcoord;
out vec4 frag_color;

void main() {
  vec4 c = texture(tex_in, ove_texcoord);

  // Lower bound first, upper bound second: when max_in < min_in the
  // upper bound wins.
  vec4 lo = vec4(min_in, min_in, min_in, min_in);
  vec4 hi = vec4(max_in, max_in, max_in, max_in);
  c = min(max(c, lo), hi);

  frag_color = c;
}
"#;

/// The parameters of the job: the row with both bounds resolved.
pub open spec fn job_params(
    core: &NodeCore,
    row: Map<Seq<char>, ValueModel>,
    time: Rational,
) -> Map<Seq<char>, ValueModel> {
    row.insert(
        MIN_INPUT@,
        effect::resolved(core, row, MIN_INPUT@, time),
    ).insert(
        MAX_INPUT@,
        effect::resolved(core, row, MAX_INPUT@, time),
    )
}

impl NodeBehavior for ClampNode {
    open spec fn spec_name(&self) -> Seq<char> {
        "Clamp"@
    }

    open spec fn spec_type_id(&self) -> Seq<char> {
        "org.olivevideoeditor.Olive.clamp"@
    }

    open spec fn emits(
        &self,
        core: &NodeCore,
        row: Map<Seq<char>, ValueModel>,
        time: Rational,
        before: Seq<TableEntry>,
        after: Seq<TableEntry>,
    ) -> bool {
        if effect::has_texture(row, TEXTURE_INPUT@) {
            after == before.push(
                effect::shader_entry(
                    effect::shader_pass(
                        self.spec_type_id(),
                        ""@,
                        core,
                        time,
                        job_params(core, row, time),
                        ""@,
                    ),
                ),
            )
        } else {
            after == before
        }
    }

    fn name(&self) -> (r: &str) {
        "Clamp"
    }

    fn type_id(&self) -> (r: &str) {
        "org.olivevideoeditor.Olive.clamp"
    }

    fn categories(&self) -> (r: &[Category])
        ensures
            r@ == seq![Category::Color],
    {
        &[Category::Color]
    }

    fn description(&self) -> (r: &str)
        ensures
            r@ == "Clamp every channel to a lower and an upper bound."@,
    {
        "Clamp every channel to a lower and an upper bound."
    }

    fn input_name<'a>(&self, id: &'a str) -> (r: &'a str)
        ensures
            r@ == (if id@ == TEXTURE_INPUT@ {
                "Input"@
            } else if id@ == MIN_INPUT@ {
                "Min"@
            } else if id@ == MAX_INPUT@ {
                "Max"@
            } else {
                id@
            }),
    {
        if text::same(id, TEXTURE_INPUT) {
            "Input"
        } else if text::same(id, MIN_INPUT) {
            "Min"
        } else if text::same(id, MAX_INPUT) {
            "Max"
        } else {
            id
        }
    }

    /// No texture, no output; else one shader job over the row, with
    /// every control resolved so that each uniform has a value.
    fn value(
        &self,
        core: &NodeCore,
        inputs: &NodeValueRow,
        time: Rational,
        table: &mut NodeValueTable,
    ) {
        if !effect::is_texture(inputs, TEXTURE_INPUT) {
            return ;
        }
        let mut params: NodeValueRow = inputs.clone();
        params.insert(MIN_INPUT.to_string(), effect::resolve(core, inputs, MIN_INPUT, time));
        params.insert(MAX_INPUT.to_string(), effect::resolve(core, inputs, MAX_INPUT, time));
        effect::push_shader(
            table,
            effect::shader_payload(self.type_id(), "", core, time, params, ""),
        );
    }

    /// There is one shader; the request is ignored.
    fn shader_code(&self, request: &str) -> (r: Option<String>)
        ensures
            r matches Some(code) && code@ == SHADER_FRAG@,
    {
        Some(SHADER_FRAG.to_string())
    }

    fn duplicate(&self, core: &NodeCore) -> (r: Option<Self>)
        ensures
            r == Some(ClampNode),
    {
        Some(ClampNode)
    }
}

/// The inputs a new node declares after the enabled toggle.
pub open spec fn declared() -> Seq<InputModel> {
    seq![
        effect::texture_input(TEXTURE_INPUT@),
        effect::float_input(MIN_INPUT@, double::ZERO),
        effect::float_input(MAX_INPUT@, double::ONE),
    ]
}

/// The state of a new node.
pub open spec fn created(core: &NodeCore) -> bool {
    node::fresh_core(core, declared(), TEXTURE_INPUT@, node::flags::VIDEO_EFFECT)
}

/// A new node: the texture and the two bounds, which have no range of
/// their own.
pub fn create() -> (r: (NodeCore, ClampNode))
    ensures
        created(&r.0),
{
    let mut core = NodeCore::new();
    core.add_input(effect::texture(TEXTURE_INPUT));
    core.add_input(effect::float(MIN_INPUT, double::ZERO));
    core.add_input(effect::float(MAX_INPUT, double::ONE));
    core.flags = node::flags::VIDEO_EFFECT;
    core.effect_input = TEXTURE_INPUT.to_string();
    assert(core.input_models() =~= seq![node::enabled_input()] + declared());
    (core, ClampNode)
}

/// Register this node type.
pub fn register(meta: &mut Vec<NodeMeta>)
    ensures
        factory::registered(
            old(meta)@,
            final(meta)@,
            "org.olivevideoeditor.Olive.clamp"@,
            "Clamp"@,
            seq![Category::Color],
            NodeKind::Clamp,
        ),
{
    meta.push(
        NodeMeta {
            type_id: "org.olivevideoeditor.Olive.clamp",
            name: "Clamp",
            categories: &[Category::Color],
            kind: NodeKind::Clamp,
        },
    );
}

} // verus!
