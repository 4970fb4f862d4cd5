//! KeyMix: mixes two textures by the alpha of a third. There is no
//! effect input: the job carries the textures by name.

use vstd::prelude::*;

use crate::factory;
use crate::factory::{NodeKind, NodeMeta};
use crate::input::InputModel;
use crate::node;
use crate::node::{Category, NodeBehavior, NodeCore};
use crate::nodes::effect;
use crate::rational::Rational;
use crate::text;
use crate::value::{NodeValueRow, NodeValueTable, TableEntry, ValueModel};

verus! {

/// The background texture.
pub const TEXTURE_INPUT: &'static str = "tex_in";

/// The foreground texture.
pub const BLEND_INPUT: &'static str = "blend_in";

/// The mask: its alpha is the weight of the foreground.
pub const MASK_INPUT: &'static str = "mask_in";

/// The mask mix node.
pub struct KeyMixNode;

/// Fragment shader. Without a mask the foreground wins everywhere.
pub const SHADER_FRAG: &'static str = r#"uniform sampler2D tex_in;
uniform sampler2D blend_in;
uniform sampler2D mask_in;
uniform bool tex_in_enabled;
uniform bool blend_in_enabled;
uniform bool mask_in_enabled;

in vec2 ove_texcoord;
out vec4 frag_color;

void main(void) {
    if (!tex_in_enabled && !blend_in_enabled) {
        frag_color = vec4(0.0);
        return;
    }

    if (!tex_in_enabled) {
        frag_color = texture(blend_in, ove_texcoord);
        return;
    }

    if (!blend_in_enabled) {
        frag_color = texture(tex_in, ove_texcoord);
        return;
    }

    vec4 tex_col = texture(tex_in, ove_texcoord);
    vec4 blend_col = texture(blend_in, ove_texcoord);

    // No mask connected: the mask counts as opaque, so the foreground
    // wins everywhere.
    vec4 mask_col = vec4(1.0);
    if (mask_in_enabled) {
        mask_col = texture(mask_in, ove_texcoord);
    }

    frag_color = mask_col.a > 0.0 ? blend_col : tex_col;
}
"#;

impl NodeBehavior for KeyMixNode {
    open spec fn spec_name(&self) -> Seq<char> {
        "KeyMix"@
    }

    open spec fn spec_type_id(&self) -> Seq<char> {
        "org.olivevideoeditor.Olive.keymix"@
    }

    open spec fn emits(
        &self,
        core: &NodeCore,
        row: Map<Seq<char>, ValueModel>,
        time: Rational,
        before: Seq<TableEntry>,
        after: Seq<TableEntry>,
    ) -> bool {
        after == before + effect::pair_entries(
            row,
            TEXTURE_INPUT@,
            BLEND_INPUT@,
            effect::shader_entry(
                effect::shader_pass(
                    self.spec_type_id(),
                    ""@,
                    core,
                    time,
                    row,
                    ""@,
                ),
            ),
        )
    }

    fn name(&self) -> (r: &str) {
        "KeyMix"
    }

    fn type_id(&self) -> (r: &str) {
        "org.olivevideoeditor.Olive.keymix"
    }

    fn categories(&self) -> (r: &[Category])
        ensures
            r@ == seq![Category::Math],
    {
        &[Category::Math]
    }

    fn description(&self) -> (r: &str)
        ensures
            r@ == "Mix two textures by a mask's alpha."@,
    {
        "Mix two textures by a mask's alpha."
    }

    fn input_name<'a>(&self, id: &'a str) -> (r: &'a str)
        ensures
            r@ == (if id@ == TEXTURE_INPUT@ {
                "Input"@
            } else if id@ == BLEND_INPUT@ {
                "Blend"@
            } else if id@ == MASK_INPUT@ {
                "Mask"@
            } else {
                id@
            }),
    {
        if text::same(id, TEXTURE_INPUT) {
            "Input"
        } else if text::same(id, BLEND_INPUT) {
            "Blend"
        } else if text::same(id, MASK_INPUT) {
            "Mask"
        } else {
            id
        }
    }

    /// With both textures one shader job; with one texture that one;
    /// with none nothing. The parameters of the job are the row: a mask
    /// need not be there.
    fn value(
        &self,
        core: &NodeCore,
        inputs: &NodeValueRow,
        time: Rational,
        table: &mut NodeValueTable,
    ) {
        if effect::is_texture(inputs, TEXTURE_INPUT) && effect::is_texture(inputs, BLEND_INPUT) {
            let params: NodeValueRow = inputs.clone();
            effect::push_shader(
                table,
                effect::shader_payload(self.type_id(), "", core, time, params, ""),
            );
            assert(table@ =~= old(table)@ + seq![table@.last()]);
        } else {
            effect::push_single(table, inputs, TEXTURE_INPUT, BLEND_INPUT);
        }
    }

    /// There is one shader; the request is ignored.
    fn shader_code(&self, request: &str) -> (r: Option<String>)
        ensures
            r matches Some(code) && code@ == SHADER_FRAG@,
    {
        Some(SHADER_FRAG.to_string())
    }

    fn duplicate(&self, core: &NodeCore) -> (r: Option<Self>)
        ensures
            r == Some(KeyMixNode),
    {
        Some(KeyMixNode)
    }
}

/// The inputs a new node declares after the enabled toggle.
pub open spec fn declared() -> Seq<InputModel> {
    seq![
        effect::texture_input(TEXTURE_INPUT@),
        effect::texture_input(BLEND_INPUT@),
        effect::texture_input(MASK_INPUT@),
    ]
}

/// The state of a new node.
pub open spec fn created(core: &NodeCore) -> bool {
    node::fresh_core(core, declared(), Seq::empty(), node::flags::VIDEO_EFFECT)
}

/// A new node: the two textures and the mask.
pub fn create() -> (r: (NodeCore, KeyMixNode))
    ensures
        created(&r.0),
{
    let mut core = NodeCore::new();
    core.add_input(effect::texture(TEXTURE_INPUT));
    core.add_input(effect::texture(BLEND_INPUT));
    core.add_input(effect::texture(MASK_INPUT));
    core.flags = node::flags::VIDEO_EFFECT;
    assert(core.input_models() =~= seq![node::enabled_input()] + declared());
    (core, KeyMixNode)
}

/// Register this node type.
pub fn register(meta: &mut Vec<NodeMeta>)
    ensures
        factory::registered(
            old(meta)@,
            final(meta)@,
            "org.olivevideoeditor.Olive.keymix"@,
            "KeyMix"@,
            seq![Category::Math],
            NodeKind::KeyMix,
        ),
{
    meta.push(
        NodeMeta {
            type_id: "org.olivevideoeditor.Olive.keymix",
            name: "KeyMix",
            categories: &[Category::Math],
            kind: NodeKind::KeyMix,
        },
    );
}

} // verus!
