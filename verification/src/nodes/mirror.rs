//! Mirror effect: the flip shader under other input names.

use vstd::prelude::*;

use crate::factory;
use crate::factory::{NodeKind, NodeMeta};
use crate::input::InputModel;
use crate::node;
use crate::node::{Category, NodeBehavior, NodeCore};
use crate::nodes::effect;
use crate::nodes::flipdistortnode;
use crate::rational::Rational;
use crate::text;
use crate::value::{NodeValue, NodeValueRow, NodeValueTable, TableEntry, ValueModel};

verus! {

/// The texture to work on: the node's effect input.
pub const TEXTURE_INPUT: &'static str = "tex_in";

/// Mirror left and right. Off by default.
pub const HORIZONTAL_INPUT: &'static str = "horizontal_in";

/// Mirror top and bottom. Off by default.
pub const VERTICAL_INPUT: &'static str = "vertical_in";

/// The mirror node.
pub struct MirrorNode;

/// Whether a toggle is on: its value is a number other than zero.
pub open spec fn toggled(
    core: &NodeCore,
    row: Map<Seq<char>, ValueModel>,
    id: Seq<char>,
    time: Rational,
) -> bool {
    !effect::resolved(core, row, id, time).number().zero()
}

/// The parameters of the job: the row without the two toggles, which
/// stand under the names that the flip shader reads.
pub open spec fn job_params(
    core: &NodeCore,
    row: Map<Seq<char>, ValueModel>,
    time: Rational,
) -> Map<Seq<char>, ValueModel> {
    row.remove(HORIZONTAL_INPUT@).remove(VERTICAL_INPUT@).insert(
        flipdistortnode::HORIZONTAL_INPUT@,
        ValueModel::Boolean(toggled(core, row, HORIZONTAL_INPUT@, time)),
    ).insert(
        flipdistortnode::VERTICAL_INPUT@,
        ValueModel::Boolean(toggled(core, row, VERTICAL_INPUT@, time)),
    )
}

impl NodeBehavior for MirrorNode {
    open spec fn spec_name(&self) -> Seq<char> {
        "Mirror"@
    }

    open spec fn spec_type_id(&self) -> Seq<char> {
        "org.olivevideoeditor.Olive.mirror"@
    }

    open spec fn emits(
        &self,
        core: &NodeCore,
        row: Map<Seq<char>, ValueModel>,
        time: Rational,
        before: Seq<TableEntry>,
        after: Seq<TableEntry>,
    ) -> bool {
        if !effect::has_texture(row, TEXTURE_INPUT@) {
            after == before
        } else if !toggled(core, row, HORIZONTAL_INPUT@, time) && !toggled(
            core,
            row,
            VERTICAL_INPUT@,
            time,
        ) {
            after == before.push(effect::texture_entry(row[TEXTURE_INPUT@]))
        } else {
            after == before.push(
                effect::shader_entry(
                    effect::shader_pass(
                        self.spec_type_id(),
                        ""@,
                        core,
                        time,
                        job_params(core, row, time),
                        TEXTURE_INPUT@,
                    ),
                ),
            )
        }
    }

    fn name(&self) -> (r: &str) {
        "Mirror"
    }

    fn type_id(&self) -> (r: &str) {
        "org.olivevideoeditor.Olive.mirror"
    }

    fn categories(&self) -> (r: &[Category])
        ensures
            r@ == seq![Category::Distort],
    {
        &[Category::Distort]
    }

    fn description(&self) -> (r: &str)
        ensures
            r@ == "Mirrors an image horizontally or vertically"@,
    {
        "Mirrors an image horizontally or vertically"
    }

    fn input_name<'a>(&self, id: &'a str) -> (r: &'a str)
        ensures
            r@ == (if id@ == TEXTURE_INPUT@ {
                "Input"@
            } else if id@ == HORIZONTAL_INPUT@ {
                "Horizontal (flop)"@
            } else if id@ == VERTICAL_INPUT@ {
                "Vertical (flip)"@
            } else {
                id@
            }),
    {
        if text::same(id, TEXTURE_INPUT) {
            "Input"
        } else if text::same(id, HORIZONTAL_INPUT) {
            "Horizontal (flop)"
        } else if text::same(id, VERTICAL_INPUT) {
            "Vertical (flip)"
        } else {
            id
        }
    }

    /// No texture, no output. With both toggles off the texture passes;
    /// else one shader job with the toggles under the names of the flip
    /// shader.
    fn value(
        &self,
        core: &NodeCore,
        inputs: &NodeValueRow,
        time: Rational,
        table: &mut NodeValueTable,
    ) {
        if !effect::is_texture(inputs, TEXTURE_INPUT) {
            return ;
        }
        let horizontal: bool = !effect::resolve(
            core,
            inputs,
            HORIZONTAL_INPUT,
            time,
        ).to_double().is_zero();
        let vertical: bool = !effect::resolve(
            core,
            inputs,
            VERTICAL_INPUT,
            time,
        ).to_double().is_zero();
        if !horizontal && !vertical {
            effect::push_row_texture(table, inputs, TEXTURE_INPUT);
            return ;
        }
        let mut params: NodeValueRow = inputs.clone();
        params.remove(HORIZONTAL_INPUT);
        params.remove(VERTICAL_INPUT);
        params.insert(
            flipdistortnode::HORIZONTAL_INPUT.to_string(),
            NodeValue::Boolean(horizontal),
        );
        params.insert(flipdistortnode::VERTICAL_INPUT.to_string(), NodeValue::Boolean(vertical));
        effect::push_shader(
            table,
            effect::shader_payload(self.type_id(), "", core, time, params, TEXTURE_INPUT),
        );
    }

    /// The flip shader; the request is ignored.
    fn shader_code(&self, request: &str) -> (r: Option<String>)
        ensures
            r matches Some(code) && code@ == flipdistortnode::SHADER_FRAG@,
    {
        Some(flipdistortnode::SHADER_FRAG.to_string())
    }

    fn duplicate(&self, core: &NodeCore) -> (r: Option<Self>)
        ensures
            r == Some(MirrorNode),
    {
        Some(MirrorNode)
    }
}

/// The inputs a new node declares after the enabled toggle.
pub open spec fn declared() -> Seq<InputModel> {
    seq![
        effect::texture_input(TEXTURE_INPUT@),
        effect::toggle_input(HORIZONTAL_INPUT@, false),
        effect::toggle_input(VERTICAL_INPUT@, false),
    ]
}

/// The state of a new node.
pub open spec fn created(core: &NodeCore) -> bool {
    node::fresh_core(core, declared(), TEXTURE_INPUT@, node::flags::VIDEO_EFFECT)
}

/// A new node: the texture and the two toggles, both off.
pub fn create() -> (r: (NodeCore, MirrorNode))
    ensures
        created(&r.0),
{
    let mut core = NodeCore::new();
    core.add_input(effect::texture(TEXTURE_INPUT));
    core.add_input(effect::toggle(HORIZONTAL_INPUT, false));
    core.add_input(effect::toggle(VERTICAL_INPUT, false));
    core.flags = node::flags::VIDEO_EFFECT;
    core.effect_input = TEXTURE_INPUT.to_string();
    assert(core.input_models() =~= seq![node::enabled_input()] + declared());
    (core, MirrorNode)
}

/// Register this node type.
pub fn register(meta: &mut Vec<NodeMeta>)
    ensures
        factory::registered(
            old(meta)@,
            final(meta)@,
            "org.olivevideoeditor.Olive.mirror"@,
            "Mirror"@,
            seq![Category::Distort],
            NodeKind::Mirror,
        ),
{
    meta.push(
        NodeMeta {
            type_id: "org.olivevideoeditor.Olive.mirror",
            name: "Mirror",
            categories: &[Category::Distort],
            kind: NodeKind::Mirror,
        },
    );
}

} // verus!
