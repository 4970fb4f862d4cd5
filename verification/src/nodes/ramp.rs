//! Ramp generator: a linear color gradient between two points given
//! from the center of the frame, constant beyond them.

use vstd::prelude::*;

use crate::double;
use crate::factory;
use crate::factory::{NodeKind, NodeMeta};
use crate::handle;
use crate::handle::{Boxed, HandleModel};
use crate::input::InputModel;
use crate::jobs::{Job, JobModel};
use crate::node;
use crate::node::{Category, NodeBehavior, NodeCore};
use crate::nodes::effect;
use crate::nodes::generatorwithmerge;
use crate::nodes::generatorwithmerge::{GeneratorWithMerge, BASE_INPUT};
use crate::rational::Rational;
use crate::text;
use crate::value::{NodeValueRow, NodeValueTable, TableEntry, ValueModel};

verus! {

/// The id of the generator shader.
pub const SHADER_ID: &'static str = "ramp";

/// Where the ramp starts.
pub const POINT0_INPUT: &'static str = "point0_in";

/// Where the ramp ends.
pub const POINT1_INPUT: &'static str = "point1_in";

/// The color at the start.
pub const COLOR0_INPUT: &'static str = "color0_in";

/// The color at the end.
pub const COLOR1_INPUT: &'static str = "color1_in";

/// The ramp node.
pub struct RampNode;

/// Fragment shader. The uniforms are named after the inputs.
pub const SHADER_FRAG: &'static str = r#"uniform vec2 resolution_in;
uniform vec2 point0_in;
uniform vec2 point1_in;
uniform vec4 color0_in;
uniform vec4 color1_in;

in vec2 ove_texcoord;
out vec4 frag_color;

void main(void) {
    vec2 px = ove_texcoord * resolution_in - resolution_in * 0.5;
    vec2 d = point1_in - point0_in;
    float norm2 = dot(d, d);

    float t = 0.0;
    if (norm2 > 0.0) {
        t = dot(px - point0_in, d) / norm2;
    }

    frag_color = color0_in * (1.0 - t) + color1_in * t;
}
"#;

/// The parameters of the job: the row with the points and the colors
/// resolved.
pub open spec fn job_params(
    core: &NodeCore,
    row: Map<Seq<char>, ValueModel>,
    time: Rational,
) -> Map<Seq<char>, ValueModel> {
    row.insert(
        POINT0_INPUT@,
        effect::resolved(core, row, POINT0_INPUT@, time),
    ).insert(
        POINT1_INPUT@,
        effect::resolved(core, row, POINT1_INPUT@, time),
    ).insert(
        COLOR0_INPUT@,
        effect::resolved(core, row, COLOR0_INPUT@, time),
    ).insert(
        COLOR1_INPUT@,
        effect::resolved(core, row, COLOR1_INPUT@, time),
    )
}

impl NodeBehavior for RampNode {
    open spec fn spec_name(&self) -> Seq<char> {
        "Ramp"@
    }

    open spec fn spec_type_id(&self) -> Seq<char> {
        "org.olivevideoeditor.Olive.ramp"@
    }

    open spec fn emits(
        &self,
        core: &NodeCore,
        row: Map<Seq<char>, ValueModel>,
        time: Rational,
        before: Seq<TableEntry>,
        after: Seq<TableEntry>,
    ) -> bool {
        after == before.push(
            generatorwithmerge::mergable_entry(
                row,
                HandleModel::Job(JobModel::Shader(
                    effect::shader_pass(
                        self.spec_type_id(),
                        SHADER_ID@,
                        core,
                        time,
                        job_params(core, row, time),
                        ""@,
                    ),
                )),
                time,
            ),
        )
    }

    fn name(&self) -> (r: &str) {
        "Ramp"
    }

    fn type_id(&self) -> (r: &str) {
        "org.olivevideoeditor.Olive.ramp"
    }

    fn categories(&self) -> (r: &[Category])
        ensures
            r@ == seq![Category::Generator],
    {
        &[Category::Generator]
    }

    fn description(&self) -> (r: &str)
        ensures
            r@ == "Generate a linear color ramp between two points."@,
    {
        "Generate a linear color ramp between two points."
    }

    fn input_name<'a>(&self, id: &'a str) -> (r: &'a str)
        ensures
            r@ == (if id@ == BASE_INPUT@ {
                "Base"@
            } else if id@ == POINT0_INPUT@ {
                "Point 0"@
            } else if id@ == POINT1_INPUT@ {
                "Point 1"@
            } else if id@ == COLOR0_INPUT@ {
                "Color 0"@
            } else if id@ == COLOR1_INPUT@ {
                "Color 1"@
            } else {
                id@
            }),
    {
        if text::same(id, BASE_INPUT) {
            "Base"
        } else if text::same(id, POINT0_INPUT) {
            "Point 0"
        } else if text::same(id, POINT1_INPUT) {
            "Point 1"
        } else if text::same(id, COLOR0_INPUT) {
            "Color 0"
        } else if text::same(id, COLOR1_INPUT) {
            "Color 1"
        } else {
            id
        }
    }

    /// One job over the row, with every parameter resolved so that each
    /// uniform has a value; drawn over the backdrop where the row has
    /// one.
    fn value(
        &self,
        core: &NodeCore,
        inputs: &NodeValueRow,
        time: Rational,
        table: &mut NodeValueTable,
    ) {
        let mut params: NodeValueRow = inputs.clone();
        params.insert(POINT0_INPUT.to_string(), effect::resolve(core, inputs, POINT0_INPUT, time));
        params.insert(POINT1_INPUT.to_string(), effect::resolve(core, inputs, POINT1_INPUT, time));
        params.insert(COLOR0_INPUT.to_string(), effect::resolve(core, inputs, COLOR0_INPUT, time));
        params.insert(COLOR1_INPUT.to_string(), effect::resolve(core, inputs, COLOR1_INPUT, time));
        let payload = effect::shader_payload(self.type_id(), SHADER_ID, core, time, params, "");
        GeneratorWithMerge::push_mergable_job(
            inputs,
            handle::make_owned(Boxed::Job(Job::ShaderJob(payload))),
            time,
            table,
        );
    }

    /// The generator's own shader and the merge pass; nothing else.
    fn shader_code(&self, request: &str) -> (r: Option<String>)
        ensures
            if request@ == SHADER_ID@ {
                r matches Some(code) && code@ == SHADER_FRAG@
            } else if request@ == generatorwithmerge::MERGE_SHADER_ID@ {
                r matches Some(code) && code@ == generatorwithmerge::MERGE_FRAG@
            } else {
                r is None
            },
    {
        if text::same(request, SHADER_ID) {
            Some(SHADER_FRAG.to_string())
        } else if text::same(request, generatorwithmerge::MERGE_SHADER_ID) {
            Some(generatorwithmerge::merge_shader_frag().to_string())
        } else {
            None
        }
    }

    fn duplicate(&self, core: &NodeCore) -> (r: Option<Self>)
        ensures
            r == Some(RampNode),
    {
        Some(RampNode)
    }
}

/// The inputs a new node declares after the enabled toggle.
pub open spec fn declared() -> Seq<InputModel> {
    seq![
        effect::texture_input(BASE_INPUT@),
        effect::point_input(POINT0_INPUT@, double::MINUS_HUNDRED, double::ZERO),
        effect::point_input(POINT1_INPUT@, double::HUNDRED, double::ZERO),
        effect::picked_color_input(COLOR0_INPUT@, double::ZERO, double::ZERO, double::ZERO),
        effect::picked_color_input(COLOR1_INPUT@, double::ONE, double::ONE, double::ONE),
    ]
}

/// The state of a new node.
pub open spec fn created(core: &NodeCore) -> bool {
    node::fresh_core(core, declared(), BASE_INPUT@, node::flags::VIDEO_EFFECT)
}

/// A new node: the backdrop, the two points and the two colors.
pub fn create() -> (r: (NodeCore, RampNode))
    ensures
        created(&r.0),
{
    let mut core = NodeCore::new();
    core.add_input(effect::texture(BASE_INPUT));
    core.add_input(effect::point(POINT0_INPUT, double::MINUS_HUNDRED, double::ZERO));
    core.add_input(effect::point(POINT1_INPUT, double::HUNDRED, double::ZERO));
    core.add_input(effect::picked_color(COLOR0_INPUT, double::ZERO, double::ZERO, double::ZERO));
    core.add_input(effect::picked_color(COLOR1_INPUT, double::ONE, double::ONE, double::ONE));
    core.flags = node::flags::VIDEO_EFFECT;
    core.effect_input = BASE_INPUT.to_string();
    assert(core.input_models() =~= seq![node::enabled_input()] + declared());
    (core, RampNode)
}

/// Register this node type.
pub fn register(meta: &mut Vec<NodeMeta>)
    ensures
        factory::registered(
            old(meta)@,
            final(meta)@,
            "org.olivevideoeditor.Olive.ramp"@,
            "Ramp"@,
            seq![Category::Generator],
            NodeKind::Ramp,
        ),
{
    meta.push(
        NodeMeta {
            type_id: "org.olivevideoeditor.Olive.ramp",
            name: "Ramp",
            categories: &[Category::Generator],
            kind: NodeKind::Ramp,
        },
    );
}

} // verus!
