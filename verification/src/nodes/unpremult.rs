//! Unpremultiply: divides the color channels by one of the channels,
//! where that channel is not zero.

use vstd::prelude::*;

use crate::factory;
use crate::factory::{NodeKind, NodeMeta};
use crate::input;
use crate::input::{Input, InputModel};
use crate::node;
use crate::node::{Category, NodeBehavior, NodeCore};
use crate::nodes::effect;
use crate::rational::Rational;
use crate::text;
use crate::value::{
    NodeValue, NodeValueRow, NodeValueTable, TableEntry, ValueModel, ValueType,
};

verus! {

/// The texture to work on: the node's effect input.
pub const TEXTURE_INPUT: &'static str = "tex_in";

/// The divisor: an index into the combo labels. Default alpha.
pub const CHANNEL_INPUT: &'static str = "unpremult_channel_in";

/// A divisor, in the order of the combo labels.
#[derive(Clone, Copy, PartialEq, Eq, Structural, Debug)]
pub enum Channel {
    /// No division.
    NoChannel,
    /// The red channel.
    Red,
    /// The green channel.
    Green,
    /// The blue channel.
    Blue,
    /// The alpha channel: the default.
    Alpha,
}

impl Channel {
    /// The combo index of the channel.
    pub open spec fn spec_index(self) -> i64 {
        match self {
            Channel::NoChannel => 0,
            Channel::Red => 1,
            Channel::Green => 2,
            Channel::Blue => 3,
            Channel::Alpha => 4,
        }
    }

    /// The combo index of the channel.
    pub fn index(self) -> (r: i64)
        ensures
            r == self.spec_index(),
    {
        match self {
            Channel::NoChannel => 0,
            Channel::Red => 1,
            Channel::Green => 2,
            Channel::Blue => 3,
            Channel::Alpha => 4,
        }
    }
}

/// The unpremultiply node.
pub struct UnpremultiplyNode;

/// Fragment shader. The channel is picked with comparisons, and a
/// divisor near zero leaves the color alone.
pub const SHADER_FRAG: &'static str = r#"uniform sampler2D tex_in;
uniform int unpremult_channel_in;

in vec2 ove_texcoord;
out vec4 frag_color;

float selected_channel(vec4 col, int channel) {
    if (channel == 1) {
        return col.r;
    } else if (channel == 2) {
        return col.g;
    } else if (channel == 3) {
        return col.b;
    } else if (channel == 4) {
        return col.a;
    }
    return 1.0;
}

void main(void) {
    vec4 col = texture(tex_in, ove_texcoord);
    float factor = selected_channel(col, unpremult_channel_in);

    // The source value stays when the divisor is (near) zero, which saves
    // an unpainted alpha of 0 from blowing the RGB channels up.
    if (factor <= 0.000001) {
        frag_color = col;
        return;
    }

    frag_color = vec4(col.rgb / factor, col.a);
}
"#;

/// The parameters of the job: the row with the channel resolved.
pub open spec fn job_params(
    core: &NodeCore,
    row: Map<Seq<char>, ValueModel>,
    time: Rational,
) -> Map<Seq<char>, ValueModel> {
    row.insert(
        CHANNEL_INPUT@,
        effect::resolved(core, row, CHANNEL_INPUT@, time),
    )
}

impl NodeBehavior for UnpremultiplyNode {
    open spec fn spec_name(&self) -> Seq<char> {
        "Unpremultiply"@
    }

    open spec fn spec_type_id(&self) -> Seq<char> {
        "org.olivevideoeditor.Olive.unpremult"@
    }

    open spec fn emits(
        &self,
        core: &NodeCore,
        row: Map<Seq<char>, ValueModel>,
        time: Rational,
        before: Seq<TableEntry>,
        after: Seq<TableEntry>,
    ) -> bool {
        if effect::has_texture(row, TEXTURE_INPUT@) {
            after == before.push(
                effect::job_entry(
                    effect::shader_pass(
                        self.spec_type_id(),
                        ""@,
                        core,
                        time,
                        job_params(core, row, time),
                        ""@,
                    ),
                ),
            )
        } else {
            after == before
        }
    }

    fn name(&self) -> (r: &str) {
        "Unpremultiply"
    }

    fn type_id(&self) -> (r: &str) {
        "org.olivevideoeditor.Olive.unpremult"
    }

    fn categories(&self) -> (r: &[Category])
        ensures
            r@ == seq![Category::Math],
    {
        &[Category::Math]
    }

    fn description(&self) -> (r: &str)
        ensures
            r@ == "Divide the RGB channels by a selected channel (zero guarded)."@,
    {
        "Divide the RGB channels by a selected channel (zero guarded)."
    }

    fn input_name<'a>(&self, id: &'a str) -> (r: &'a str)
        ensures
            r@ == (if id@ == TEXTURE_INPUT@ {
                "Input"@
            } else if id@ == CHANNEL_INPUT@ {
                "Channel"@
            } else {
                id@
            }),
    {
        if text::same(id, TEXTURE_INPUT) {
            "Input"
        } else if text::same(id, CHANNEL_INPUT) {
            "Channel"
        } else {
            id
        }
    }

    /// The labels of the combo input, by index.
    fn input_combo_strings(&self, id: &str) -> (r: Vec<&'static str>)
        ensures
            r@ == (if id@ == CHANNEL_INPUT@ {
                seq!["None", "R", "G", "B", "A"]
            } else {
                Seq::empty()
            }),
    {
        if text::same(id, CHANNEL_INPUT) {
            vec!["None", "R", "G", "B", "A"]
        } else {
            Vec::new()
        }
    }

    /// No texture, no output; else one shader job over the row, with
    /// the channel resolved so that the uniform has a value.
    fn value(
        &self,
        core: &NodeCore,
        inputs: &NodeValueRow,
        time: Rational,
        table: &mut NodeValueTable,
    ) {
        if !effect::is_texture(inputs, TEXTURE_INPUT) {
            return ;
        }
        let mut params: NodeValueRow = inputs.clone();
        params.insert(CHANNEL_INPUT.to_string(), effect::resolve(core, inputs, CHANNEL_INPUT, time));
        effect::push_shader_job(
            table,
            effect::shader_payload(self.type_id(), "", core, time, params, ""),
        );
    }

    /// There is one shader; the request is ignored.
    fn shader_code(&self, request: &str) -> (r: Option<String>)
        ensures
            r matches Some(code) && code@ == SHADER_FRAG@,
    {
        Some(SHADER_FRAG.to_string())
    }

    fn duplicate(&self, core: &NodeCore) -> (r: Option<Self>)
        ensures
            r == Some(UnpremultiplyNode),
    {
        Some(UnpremultiplyNode)
    }
}

/// The inputs a new node declares after the enabled toggle.
pub open spec fn declared() -> Seq<InputModel> {
    seq![
        effect::texture_input(TEXTURE_INPUT@),
        input::plain_input(CHANNEL_INPUT@, ValueType::Combo, ValueModel::Combo(Channel::Alpha.spec_index())).flagged(
            input::flags::NOT_CONNECTABLE | input::flags::NOT_KEYFRAMABLE,
        ),
    ]
}

/// The state of a new node.
pub open spec fn created(core: &NodeCore) -> bool {
    node::fresh_core(core, declared(), TEXTURE_INPUT@, node::flags::VIDEO_EFFECT)
}

/// A new node: the texture and the channel, which can neither be
/// connected nor be keyframed.
pub fn create() -> (r: (NodeCore, UnpremultiplyNode))
    ensures
        created(&r.0),
{
    let mut core = NodeCore::new();
    core.add_input(effect::texture(TEXTURE_INPUT));
    core.add_input(
        Input::new(CHANNEL_INPUT, ValueType::Combo, NodeValue::Combo(Channel::Alpha.index())).with_flags(
            input::flags::NOT_CONNECTABLE | input::flags::NOT_KEYFRAMABLE,
        ),
    );
    core.flags = node::flags::VIDEO_EFFECT;
    core.effect_input = TEXTURE_INPUT.to_string();
    assert(core.input_models() =~= seq![node::enabled_input()] + declared());
    (core, UnpremultiplyNode)
}

/// Register this node type.
pub fn register(meta: &mut Vec<NodeMeta>)
    ensures
        factory::registered(
            old(meta)@,
            final(meta)@,
            "org.olivevideoeditor.Olive.unpremult"@,
            "Unpremultiply"@,
            seq![Category::Math],
            NodeKind::Unpremultiply,
        ),
{
    meta.push(
        NodeMeta {
            type_id: "org.olivevideoeditor.Olive.unpremult",
            name: "Unpremultiply",
            categories: &[Category::Math],
            kind: NodeKind::Unpremultiply,
        },
    );
}

} // verus!
