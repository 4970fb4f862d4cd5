//! Position effect: moves the picture by a whole-pixel offset. What
//! moves in from outside the frame is transparent.

use vstd::prelude::*;

use crate::double;
use crate::factory;
use crate::factory::{NodeKind, NodeMeta};
use crate::input::InputModel;
use crate::node;
use crate::node::{Category, NodeBehavior, NodeCore};
use crate::nodes::effect;
use crate::rational::Rational;
use crate::text;
use crate::value::{NodeValueRow, NodeValueTable, TableEntry, ValueModel};

verus! {

/// The texture to work on: the node's effect input.
pub const TEXTURE_INPUT: &'static str = "tex_in";

/// The offset, in pixels. The shader rounds it.
pub const OFFSET_INPUT: &'static str = "offset_in";

/// The position node.
pub struct PositionNode;

/// Fragment shader. The offset is rounded half up to whole pixels.
pub const SHADER_FRAG: &'static str = r#"uniform sampler2D tex_in;
uniform vec2 offset_in;
uniform vec2 resolution_in;

in vec2 ove_texcoord;
out vec4 frag_color;

void main(void) {
    vec2 half_res = resolution_in * 0.5;
    vec2 px = ove_texcoord * resolution_in - half_res;
    vec2 offset = floor(offset_in + 0.5);
    vec2 uv = (px - offset + half_res) / resolution_in;
    // Whole-pixel translation past the frame edge leaves transparent
    // pixels, not the clamped edge column.
    vec4 col = texture(tex_in, uv);
    float inside = step(0.0, uv.x) * step(0.0, uv.y) * step(uv.x, 1.0) * step(uv.y, 1.0);
    frag_color = col * inside;
}
"#;

/// The parameters of the job: the row with the offset resolved.
pub open spec fn job_params(
    core: &NodeCore,
    row: Map<Seq<char>, ValueModel>,
    time: Rational,
) -> Map<Seq<char>, ValueModel> {
    row.insert(
        OFFSET_INPUT@,
        effect::resolved(core, row, OFFSET_INPUT@, time),
    )
}

impl NodeBehavior for PositionNode {
    open spec fn spec_name(&self) -> Seq<char> {
        "Position"@
    }

    open spec fn spec_type_id(&self) -> Seq<char> {
        "org.olivevideoeditor.Olive.position"@
    }

    open spec fn emits(
        &self,
        core: &NodeCore,
        row: Map<Seq<char>, ValueModel>,
        time: Rational,
        before: Seq<TableEntry>,
        after: Seq<TableEntry>,
    ) -> bool {
        if effect::has_texture(row, TEXTURE_INPUT@) {
            after == before.push(
                effect::shader_entry(
                    effect::shader_pass(
                        self.spec_type_id(),
                        ""@,
                        core,
                        time,
                        job_params(core, row, time),
                        TEXTURE_INPUT@,
                    ),
                ),
            )
        } else {
            after == before
        }
    }

    fn name(&self) -> (r: &str) {
        "Position"
    }

    fn type_id(&self) -> (r: &str) {
        "org.olivevideoeditor.Olive.position"
    }

    fn categories(&self) -> (r: &[Category])
        ensures
            r@ == seq![Category::Distort],
    {
        &[Category::Distort]
    }

    fn description(&self) -> (r: &str)
        ensures
            r@ == "Translate an image by a whole-pixel offset."@,
    {
        "Translate an image by a whole-pixel offset."
    }

    fn input_name<'a>(&self, id: &'a str) -> (r: &'a str)
        ensures
            r@ == (if id@ == TEXTURE_INPUT@ {
                "Input"@
            } else if id@ == OFFSET_INPUT@ {
                "Translate"@
            } else {
                id@
            }),
    {
        if text::same(id, TEXTURE_INPUT) {
            "Input"
        } else if text::same(id, OFFSET_INPUT) {
            "Translate"
        } else {
            id
        }
    }

    /// No texture, no output; else one shader job over the row, with
    /// the offset resolved so that the uniform has a value.
    fn value(
        &self,
        core: &NodeCore,
        inputs: &NodeValueRow,
        time: Rational,
        table: &mut NodeValueTable,
    ) {
        if !effect::is_texture(inputs, TEXTURE_INPUT) {
            return ;
        }
        let mut params: NodeValueRow = inputs.clone();
        params.insert(OFFSET_INPUT.to_string(), effect::resolve(core, inputs, OFFSET_INPUT, time));
        effect::push_shader(
            table,
            effect::shader_payload(self.type_id(), "", core, time, params, TEXTURE_INPUT),
        );
    }

    /// There is one shader; the request is ignored.
    fn shader_code(&self, request: &str) -> (r: Option<String>)
        ensures
            r matches Some(code) && code@ == SHADER_FRAG@,
    {
        Some(SHADER_FRAG.to_string())
    }

    fn duplicate(&self, core: &NodeCore) -> (r: Option<Self>)
        ensures
            r == Some(PositionNode),
    {
        Some(PositionNode)
    }
}

/// The inputs a new node declares after the enabled toggle.
pub open spec fn declared() -> Seq<InputModel> {
    seq![
        effect::texture_input(TEXTURE_INPUT@),
        effect::point_input(OFFSET_INPUT@, double::ZERO, double::ZERO),
    ]
}

/// The state of a new node.
pub open spec fn created(core: &NodeCore) -> bool {
    node::fresh_core(core, declared(), TEXTURE_INPUT@, node::flags::VIDEO_EFFECT)
}

/// A new node: the texture and the offset.
pub fn create() -> (r: (NodeCore, PositionNode))
    ensures
        created(&r.0),
{
    let mut core = NodeCore::new();
    core.add_input(effect::texture(TEXTURE_INPUT));
    core.add_input(effect::point(OFFSET_INPUT, double::ZERO, double::ZERO));
    core.flags = node::flags::VIDEO_EFFECT;
    core.effect_input = TEXTURE_INPUT.to_string();
    assert(core.input_models() =~= seq![node::enabled_input()] + declared());
    (core, PositionNode)
}

/// Register this node type.
pub fn register(meta: &mut Vec<NodeMeta>)
    ensures
        factory::registered(
            old(meta)@,
            final(meta)@,
            "org.olivevideoeditor.Olive.position"@,
            "Position"@,
            seq![Category::Distort],
            NodeKind::Position,
        ),
{
    meta.push(
        NodeMeta {
            type_id: "org.olivevideoeditor.Olive.position",
            name: "Position",
            categories: &[Category::Distort],
            kind: NodeKind::Position,
        },
    );
}

} // verus!
