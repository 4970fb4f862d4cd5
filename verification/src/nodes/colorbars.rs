//! Color bars generator: seven vertical bars of equal width, at three
//! quarters or at full amplitude.

use vstd::prelude::*;

use crate::factory;
use crate::factory::{NodeKind, NodeMeta};
use crate::handle;
use crate::handle::{Boxed, HandleModel};
use crate::input;
use crate::input::{Input, InputModel};
use crate::jobs::{Job, JobModel};
use crate::node;
use crate::node::{Category, NodeBehavior, NodeCore};
use crate::nodes::effect;
use crate::nodes::generatorwithmerge;
use crate::nodes::generatorwithmerge::{GeneratorWithMerge, BASE_INPUT};
use crate::rational::Rational;
use crate::text;
use crate::value::{
    NodeValue, NodeValueRow, NodeValueTable, TableEntry, ValueModel, ValueType,
};

verus! {

/// The id of the generator shader.
pub const SHADER_ID: &'static str = "colorbars";

/// The amplitude of the bars: an index into the combo labels.
pub const STANDARD_INPUT: &'static str = "standard_in";

/// The color bars node.
pub struct ColorBarsNode;

/// Fragment shader. The uniforms are named after the inputs.
pub const SHADER_FRAG: &'static str = r#"uniform vec2 resolution_in;
uniform int standard_in;

in vec2 ove_texcoord;
out vec4 frag_color;

void main(void) {
    float level = 0.75;
    if (standard_in == 1) {
        level = 1.0;
    }

    float column = floor(ove_texcoord.x * 7.0);
    vec3 col = vec3(0.0);

    if (ove_texcoord.y < 2.0 / 3.0) {
        // Top field: white, yellow, cyan, green, magenta, red, blue.
        if (column < 0.5) {
            col = vec3(level);
        } else if (column < 1.5) {
            col = vec3(level, level, 0.0);
        } else if (column < 2.5) {
            col = vec3(0.0, level, level);
        } else if (column < 3.5) {
            col = vec3(0.0, level, 0.0);
        } else if (column < 4.5) {
            col = vec3(level, 0.0, level);
        } else if (column < 5.5) {
            col = vec3(level, 0.0, 0.0);
        } else {
            col = vec3(0.0, 0.0, level);
        }
    } else if (ove_texcoord.y < 3.0 / 4.0) {
        // Mid strip: blue, black, magenta, black, cyan, black, white.
        if (column < 0.5) {
            col = vec3(0.0, 0.0, level);
        } else if (column < 1.5) {
            col = vec3(0.0);
        } else if (column < 2.5) {
            col = vec3(level, 0.0, level);
        } else if (column < 3.5) {
            col = vec3(0.0);
        } else if (column < 4.5) {
            col = vec3(0.0, level, level);
        } else if (column < 5.5) {
            col = vec3(0.0);
        } else {
            col = vec3(level);
        }
    } else {
        // Bottom field: reverse grayscale ramp, then the PLUGE steps
        // (below black / black / above black) in the last bar.
        float g = level * (5.0 - column) / 5.0;
        if (column > 5.5) {
            float sub = floor((ove_texcoord.x * 7.0 - 6.0) * 3.0);
            if (sub < 0.5) {
                g = -0.04;
            } else if (sub < 1.5) {
                g = 0.0;
            } else {
                g = 0.04;
            }
        }
        col = vec3(g);
    }

    frag_color = vec4(col, 1.0);
}
"#;

/// The parameters of the job: the row with the standard resolved.
pub open spec fn job_params(
    core: &NodeCore,
    row: Map<Seq<char>, ValueModel>,
    time: Rational,
) -> Map<Seq<char>, ValueModel> {
    row.insert(
        STANDARD_INPUT@,
        effect::resolved(core, row, STANDARD_INPUT@, time),
    )
}

impl NodeBehavior for ColorBarsNode {
    open spec fn spec_name(&self) -> Seq<char> {
        "Color Bars"@
    }

    open spec fn spec_type_id(&self) -> Seq<char> {
        "org.olivevideoeditor.Olive.colorbars"@
    }

    open spec fn emits(
        &self,
        core: &NodeCore,
        row: Map<Seq<char>, ValueModel>,
        time: Rational,
        before: Seq<TableEntry>,
        after: Seq<TableEntry>,
    ) -> bool {
        after == before.push(
            generatorwithmerge::mergable_entry(
                row,
                HandleModel::Job(JobModel::Shader(
                    effect::shader_pass(
                        self.spec_type_id(),
                        SHADER_ID@,
                        core,
                        time,
                        job_params(core, row, time),
                        ""@,
                    ),
                )),
                time,
            ),
        )
    }

    fn name(&self) -> (r: &str) {
        "Color Bars"
    }

    fn type_id(&self) -> (r: &str) {
        "org.olivevideoeditor.Olive.colorbars"
    }

    fn categories(&self) -> (r: &[Category])
        ensures
            r@ == seq![Category::Generator],
    {
        &[Category::Generator]
    }

    fn description(&self) -> (r: &str)
        ensures
            r@ == "Generate SMPTE color bars."@,
    {
        "Generate SMPTE color bars."
    }

    fn input_name<'a>(&self, id: &'a str) -> (r: &'a str)
        ensures
            r@ == (if id@ == BASE_INPUT@ {
                "Base"@
            } else if id@ == STANDARD_INPUT@ {
                "Standard"@
            } else {
                id@
            }),
    {
        if text::same(id, BASE_INPUT) {
            "Base"
        } else if text::same(id, STANDARD_INPUT) {
            "Standard"
        } else {
            id
        }
    }

    /// The labels of the combo input, by index.
    fn input_combo_strings(&self, id: &str) -> (r: Vec<&'static str>)
        ensures
            r@ == (if id@ == STANDARD_INPUT@ {
                seq!["SMPTE 75%", "Full 100%"]
            } else {
                Seq::empty()
            }),
    {
        if text::same(id, STANDARD_INPUT) {
            vec!["SMPTE 75%", "Full 100%"]
        } else {
            Vec::new()
        }
    }

    /// One job over the row, with the standard resolved so that the
    /// uniform has a value; drawn over the backdrop where the row has
    /// one.
    fn value(
        &self,
        core: &NodeCore,
        inputs: &NodeValueRow,
        time: Rational,
        table: &mut NodeValueTable,
    ) {
        let mut params: NodeValueRow = inputs.clone();
        params.insert(STANDARD_INPUT.to_string(), effect::resolve(core, inputs, STANDARD_INPUT, time));
        let payload = effect::shader_payload(self.type_id(), SHADER_ID, core, time, params, "");
        GeneratorWithMerge::push_mergable_job(
            inputs,
            handle::make_owned(Boxed::Job(Job::ShaderJob(payload))),
            time,
            table,
        );
    }

    /// The generator's own shader and the merge pass; nothing else.
    fn shader_code(&self, request: &str) -> (r: Option<String>)
        ensures
            if request@ == SHADER_ID@ {
                r matches Some(code) && code@ == SHADER_FRAG@
            } else if request@ == generatorwithmerge::MERGE_SHADER_ID@ {
                r matches Some(code) && code@ == generatorwithmerge::MERGE_FRAG@
            } else {
                r is None
            },
    {
        if text::same(request, SHADER_ID) {
            Some(SHADER_FRAG.to_string())
        } else if text::same(request, generatorwithmerge::MERGE_SHADER_ID) {
            Some(generatorwithmerge::merge_shader_frag().to_string())
        } else {
            None
        }
    }

    fn duplicate(&self, core: &NodeCore) -> (r: Option<Self>)
        ensures
            r == Some(ColorBarsNode),
    {
        Some(ColorBarsNode)
    }
}

/// The inputs a new node declares after the enabled toggle.
pub open spec fn declared() -> Seq<InputModel> {
    seq![
        effect::texture_input(BASE_INPUT@),
        input::plain_input(STANDARD_INPUT@, ValueType::Combo, ValueModel::Combo(0)),
    ]
}

/// The state of a new node.
pub open spec fn created(core: &NodeCore) -> bool {
    node::fresh_core(core, declared(), BASE_INPUT@, node::flags::VIDEO_EFFECT)
}

/// A new node: the backdrop and the standard.
pub fn create() -> (r: (NodeCore, ColorBarsNode))
    ensures
        created(&r.0),
{
    let mut core = NodeCore::new();
    core.add_input(effect::texture(BASE_INPUT));
    core.add_input(Input::new(STANDARD_INPUT, ValueType::Combo, NodeValue::Combo(0)));
    core.flags = node::flags::VIDEO_EFFECT;
    core.effect_input = BASE_INPUT.to_string();
    assert(core.input_models() =~= seq![node::enabled_input()] + declared());
    (core, ColorBarsNode)
}

/// Register this node type.
pub fn register(meta: &mut Vec<NodeMeta>)
    ensures
        factory::registered(
            old(meta)@,
            final(meta)@,
            "org.olivevideoeditor.Olive.colorbars"@,
            "Color Bars"@,
            seq![Category::Generator],
            NodeKind::ColorBars,
        ),
{
    meta.push(
        NodeMeta {
            type_id: "org.olivevideoeditor.Olive.colorbars",
            name: "Color Bars",
            categories: &[Category::Generator],
            kind: NodeKind::ColorBars,
        },
    );
}

} // verus!
