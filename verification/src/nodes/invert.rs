//! Invert effect: one toggle per channel, each replacing its channel by
//! one minus it.

use vstd::prelude::*;

use crate::factory;
use crate::factory::{NodeKind, NodeMeta};
use crate::input::InputModel;
use crate::node;
use crate::node::{Category, NodeBehavior, NodeCore};
use crate::nodes::effect;
use crate::rational::Rational;
use crate::text;
use crate::value::{NodeValueRow, NodeValueTable, TableEntry, ValueModel};

verus! {

/// The texture to work on: the node's effect input.
pub const TEXTURE_INPUT: &'static str = "tex_in";

/// Invert red. On by default.
pub const INVERT_R_INPUT: &'static str = "invert_r_in";

/// Invert green. On by default.
pub const INVERT_G_INPUT: &'static str = "invert_g_in";

/// Invert blue. On by default.
pub const INVERT_B_INPUT: &'static str = "invert_b_in";

/// Invert alpha. On by default.
pub const INVERT_A_INPUT: &'static str = "invert_a_in";

/// The invert node.
pub struct InvertNode;

/// Fragment shader. The uniforms are named after the inputs.
pub const SHADER_FRAG: &'static str = r#"// Inputs
uniform sampler2D tex_in;

uniform bool invert_r_in;
uniform bool invert_g_in;
uniform bool invert_b_in;
uniform bool invert_a_in;

// Input texture coordinate
in vec2 ove_texcoord;
out vec4 frag_color;

void main() {
  vec4 c = texture(tex_in, ove_texcoord);

  // One independent toggle per channel.
  if (invert_r_in) {
    c.r = 1.0 - c.r;
  }
  if (invert_g_in) {
    c.g = 1.0 - c.g;
  }
  if (invert_b_in) {
    c.b = 1.0 - c.b;
  }
  if (invert_a_in) {
    c.a = 1.0 - c.a;
  }

  frag_color = c;
}
"#;

/// The parameters of the job: the row with every toggle resolved.
pub open spec fn job_params(
    core: &NodeCore,
    row: Map<Seq<char>, ValueModel>,
    time: Rational,
) -> Map<Seq<char>, ValueModel> {
    row.insert(
        INVERT_R_INPUT@,
        effect::resolved(core, row, INVERT_R_INPUT@, time),
    ).insert(
        INVERT_G_INPUT@,
        effect::resolved(core, row, INVERT_G_INPUT@, time),
    ).insert(
        INVERT_B_INPUT@,
        effect::resolved(core, row, INVERT_B_INPUT@, time),
    ).insert(
        INVERT_A_INPUT@,
        effect::resolved(core, row, INVERT_A_INPUT@, time),
    )
}

impl NodeBehavior for InvertNode {
    open spec fn spec_name(&self) -> Seq<char> {
        "Invert"@
    }

    open spec fn spec_type_id(&self) -> Seq<char> {
        "org.olivevideoeditor.Olive.invert"@
    }

    open spec fn emits(
        &self,
        core: &NodeCore,
        row: Map<Seq<char>, ValueModel>,
        time: Rational,
        before: Seq<TableEntry>,
        after: Seq<TableEntry>,
    ) -> bool {
        if effect::has_texture(row, TEXTURE_INPUT@) {
            after == before.push(
                effect::shader_entry(
                    effect::shader_pass(
                        self.spec_type_id(),
                        ""@,
                        core,
                        time,
                        job_params(core, row, time),
                        ""@,
                    ),
                ),
            )
        } else {
            after == before
        }
    }

    fn name(&self) -> (r: &str) {
        "Invert"
    }

    fn type_id(&self) -> (r: &str) {
        "org.olivevideoeditor.Olive.invert"
    }

    fn categories(&self) -> (r: &[Category])
        ensures
            r@ == seq![Category::Color],
    {
        &[Category::Color]
    }

    fn description(&self) -> (r: &str)
        ensures
            r@ == "Invert individual color channels."@,
    {
        "Invert individual color channels."
    }

    fn input_name<'a>(&self, id: &'a str) -> (r: &'a str)
        ensures
            r@ == (if id@ == TEXTURE_INPUT@ {
                "Input"@
            } else if id@ == INVERT_R_INPUT@ {
                "Invert Red"@
            } else if id@ == INVERT_G_INPUT@ {
                "Invert Green"@
            } else if id@ == INVERT_B_INPUT@ {
                "Invert Blue"@
            } else if id@ == INVERT_A_INPUT@ {
                "Invert Alpha"@
            } else {
                id@
            }),
    {
        if text::same(id, TEXTURE_INPUT) {
            "Input"
        } else if text::same(id, INVERT_R_INPUT) {
            "Invert Red"
        } else if text::same(id, INVERT_G_INPUT) {
            "Invert Green"
        } else if text::same(id, INVERT_B_INPUT) {
            "Invert Blue"
        } else if text::same(id, INVERT_A_INPUT) {
            "Invert Alpha"
        } else {
            id
        }
    }

    /// No texture, no output; else one shader job over the row, with
    /// every toggle resolved so that each uniform has a value.
    fn value(
        &self,
        core: &NodeCore,
        inputs: &NodeValueRow,
        time: Rational,
        table: &mut NodeValueTable,
    ) {
        if !effect::is_texture(inputs, TEXTURE_INPUT) {
            return ;
        }
        let mut params: NodeValueRow = inputs.clone();
        params.insert(INVERT_R_INPUT.to_string(), effect::resolve(core, inputs, INVERT_R_INPUT, time));
        params.insert(INVERT_G_INPUT.to_string(), effect::resolve(core, inputs, INVERT_G_INPUT, time));
        params.insert(INVERT_B_INPUT.to_string(), effect::resolve(core, inputs, INVERT_B_INPUT, time));
        params.insert(INVERT_A_INPUT.to_string(), effect::resolve(core, inputs, INVERT_A_INPUT, time));
        effect::push_shader(
            table,
            effect::shader_payload(self.type_id(), "", core, time, params, ""),
        );
    }

    /// There is one shader; the request is ignored.
    fn shader_code(&self, request: &str) -> (r: Option<String>)
        ensures
            r matches Some(code) && code@ == SHADER_FRAG@,
    {
        Some(SHADER_FRAG.to_string())
    }

    fn duplicate(&self, core: &NodeCore) -> (r: Option<Self>)
        ensures
            r == Some(InvertNode),
    {
        Some(InvertNode)
    }
}

/// The inputs a new node declares after the enabled toggle.
pub open spec fn declared() -> Seq<InputModel> {
    seq![
        effect::texture_input(TEXTURE_INPUT@),
        effect::toggle_input(INVERT_R_INPUT@, true),
        effect::toggle_input(INVERT_G_INPUT@, true),
        effect::toggle_input(INVERT_B_INPUT@, true),
        effect::toggle_input(INVERT_A_INPUT@, true),
    ]
}

/// The state of a new node.
pub open spec fn created(core: &NodeCore) -> bool {
    node::fresh_core(core, declared(), TEXTURE_INPUT@, node::flags::VIDEO_EFFECT)
}

/// A new node: the texture and the four toggles, all on.
pub fn create() -> (r: (NodeCore, InvertNode))
    ensures
        created(&r.0),
{
    let mut core = NodeCore::new();
    core.add_input(effect::texture(TEXTURE_INPUT));
    core.add_input(effect::toggle(INVERT_R_INPUT, true));
    core.add_input(effect::toggle(INVERT_G_INPUT, true));
    core.add_input(effect::toggle(INVERT_B_INPUT, true));
    core.add_input(effect::toggle(INVERT_A_INPUT, true));
    core.flags = node::flags::VIDEO_EFFECT;
    core.effect_input = TEXTURE_INPUT.to_string();
    assert(core.input_models() =~= seq![node::enabled_input()] + declared());
    (core, InvertNode)
}

/// Register this node type.
pub fn register(meta: &mut Vec<NodeMeta>)
    ensures
        factory::registered(
            old(meta)@,
            final(meta)@,
            "org.olivevideoeditor.Olive.invert"@,
            "Invert"@,
            seq![Category::Color],
            NodeKind::Invert,
        ),
{
    meta.push(
        NodeMeta {
            type_id: "org.olivevideoeditor.Olive.invert",
            name: "Invert",
            categories: &[Category::Color],
            kind: NodeKind::Invert,
        },
    );
}

} // verus!
