//! Dissolve: a linear mix of two textures. There is no effect input:
//! the job carries both textures by name.

use vstd::prelude::*;

use crate::double;
use crate::factory;
use crate::factory::{NodeKind, NodeMeta};
use crate::input::InputModel;
use crate::node;
use crate::node::{Category, NodeBehavior, NodeCore};
use crate::nodes::effect;
use crate::rational::Rational;
use crate::text;
use crate::value::{NodeValue, NodeValueRow, NodeValueTable, TableEntry, ValueModel};

verus! {

/// The first texture.
pub const TEXTURE_INPUT: &'static str = "tex_in";

/// The second texture.
pub const BLEND_INPUT: &'static str = "blend_in";

/// The mix: 0 is the first texture, 1 the second. Default one half.
pub const MIX_INPUT: &'static str = "mix_in";

/// The dissolve node.
pub struct DissolveNode;

/// Fragment shader. A texture that is not bound leaves the other one
/// alone.
pub const SHADER_FRAG: &'static str = r#"uniform sampler2D tex_in;
uniform sampler2D blend_in;
uniform bool tex_in_enabled;
uniform bool blend_in_enabled;
uniform float mix_in;

in vec2 ove_texcoord;
out vec4 frag_color;

void main(void) {
    if (!tex_in_enabled && !blend_in_enabled) {
        frag_color = vec4(0.0);
        return;
    }

    if (!tex_in_enabled) {
        frag_color = texture(blend_in, ove_texcoord);
        return;
    }

    if (!blend_in_enabled) {
        frag_color = texture(tex_in, ove_texcoord);
        return;
    }

    vec4 tex_col = texture(tex_in, ove_texcoord);
    vec4 blend_col = texture(blend_in, ove_texcoord);

    frag_color = mix(tex_col, blend_col, mix_in);
}
"#;

/// The parameters of the job: the row with the mix as a number.
pub open spec fn job_params(
    core: &NodeCore,
    row: Map<Seq<char>, ValueModel>,
    time: Rational,
) -> Map<Seq<char>, ValueModel> {
    row.insert(
        MIX_INPUT@,
        ValueModel::Float(effect::resolved(core, row, MIX_INPUT@, time).number()),
    )
}

impl NodeBehavior for DissolveNode {
    open spec fn spec_name(&self) -> Seq<char> {
        "Dissolve"@
    }

    open spec fn spec_type_id(&self) -> Seq<char> {
        "org.olivevideoeditor.Olive.dissolve"@
    }

    open spec fn emits(
        &self,
        core: &NodeCore,
        row: Map<Seq<char>, ValueModel>,
        time: Rational,
        before: Seq<TableEntry>,
        after: Seq<TableEntry>,
    ) -> bool {
        after == before + effect::pair_entries(
            row,
            TEXTURE_INPUT@,
            BLEND_INPUT@,
            effect::job_entry(
                effect::shader_pass(
                    self.spec_type_id(),
                    ""@,
                    core,
                    time,
                    job_params(core, row, time),
                    ""@,
                ),
            ),
        )
    }

    fn name(&self) -> (r: &str) {
        "Dissolve"
    }

    fn type_id(&self) -> (r: &str) {
        "org.olivevideoeditor.Olive.dissolve"
    }

    fn categories(&self) -> (r: &[Category])
        ensures
            r@ == seq![Category::Math],
    {
        &[Category::Math]
    }

    fn description(&self) -> (r: &str)
        ensures
            r@ == "Dissolve between two textures by a mix factor."@,
    {
        "Dissolve between two textures by a mix factor."
    }

    fn input_name<'a>(&self, id: &'a str) -> (r: &'a str)
        ensures
            r@ == (if id@ == TEXTURE_INPUT@ {
                "Input"@
            } else if id@ == BLEND_INPUT@ {
                "Blend"@
            } else if id@ == MIX_INPUT@ {
                "Mix"@
            } else {
                id@
            }),
    {
        if text::same(id, TEXTURE_INPUT) {
            "Input"
        } else if text::same(id, BLEND_INPUT) {
            "Blend"
        } else if text::same(id, MIX_INPUT) {
            "Mix"
        } else {
            id
        }
    }

    /// With both textures one shader job; with one texture that one;
    /// with none nothing.
    fn value(
        &self,
        core: &NodeCore,
        inputs: &NodeValueRow,
        time: Rational,
        table: &mut NodeValueTable,
    ) {
        if effect::is_texture(inputs, TEXTURE_INPUT) && effect::is_texture(inputs, BLEND_INPUT) {
            let mut params: NodeValueRow = inputs.clone();
            params.insert(
                MIX_INPUT.to_string(),
                NodeValue::Float(effect::resolve(core, inputs, MIX_INPUT, time).to_double()),
            );
            effect::push_shader_job(
                table,
                effect::shader_payload(self.type_id(), "", core, time, params, ""),
            );
            assert(table@ =~= old(table)@ + seq![table@.last()]);
        } else {
            effect::push_single(table, inputs, TEXTURE_INPUT, BLEND_INPUT);
        }
    }

    /// There is one shader; the request is ignored.
    fn shader_code(&self, request: &str) -> (r: Option<String>)
        ensures
            r matches Some(code) && code@ == SHADER_FRAG@,
    {
        Some(SHADER_FRAG.to_string())
    }

    fn duplicate(&self, core: &NodeCore) -> (r: Option<Self>)
        ensures
            r == Some(DissolveNode),
    {
        Some(DissolveNode)
    }
}

/// The inputs a new node declares after the enabled toggle.
pub open spec fn declared() -> Seq<InputModel> {
    seq![
        effect::texture_input(TEXTURE_INPUT@),
        effect::texture_input(BLEND_INPUT@),
        effect::ranged_input(MIX_INPUT@, double::HALF, double::ZERO, double::ONE, "percentage"@),
    ]
}

/// The state of a new node.
pub open spec fn created(core: &NodeCore) -> bool {
    node::fresh_core(core, declared(), Seq::empty(), node::flags::VIDEO_EFFECT)
}

/// A new node: the two textures and the mix with its range.
pub fn create() -> (r: (NodeCore, DissolveNode))
    ensures
        created(&r.0),
{
    let mut core = NodeCore::new();
    core.add_input(effect::texture(TEXTURE_INPUT));
    core.add_input(effect::texture(BLEND_INPUT));
    core.add_input(effect::ranged(MIX_INPUT, double::HALF, double::ZERO, double::ONE, "percentage"));
    core.flags = node::flags::VIDEO_EFFECT;
    assert(core.input_models() =~= seq![node::enabled_input()] + declared());
    (core, DissolveNode)
}

/// Register this node type.
pub fn register(meta: &mut Vec<NodeMeta>)
    ensures
        factory::registered(
            old(meta)@,
            final(meta)@,
            "org.olivevideoeditor.Olive.dissolve"@,
            "Dissolve"@,
            seq![Category::Math],
            NodeKind::Dissolve,
        ),
{
    meta.push(
        NodeMeta {
            type_id: "org.olivevideoeditor.Olive.dissolve",
            name: "Dissolve",
            categories: &[Category::Math],
            kind: NodeKind::Dissolve,
        },
    );
}

} // verus!
