//! Checkerboard generator: two colors in boxes of a given size, from
//! the corner of the frame.

use vstd::prelude::*;

use crate::double;
use crate::factory;
use crate::factory::{NodeKind, NodeMeta};
use crate::handle;
use crate::handle::{Boxed, HandleModel};
use crate::input::InputModel;
use crate::node;
use crate::node::{Category, NodeBehavior, NodeCore};
use crate::nodes::effect;
use crate::nodes::generatorwithmerge;
use crate::nodes::generatorwithmerge::{GeneratorWithMerge, BASE_INPUT};
use crate::rational::Rational;
use crate::text;
use crate::value::{NodeValueRow, NodeValueTable, TableEntry, ValueModel};

verus! {

/// The id of the generator shader.
pub const SHADER_ID: &'static str = "checkerboard";

/// The size of one box, in pixels.
pub const SIZE_INPUT: &'static str = "size_in";

/// The color of the first box.
pub const COLOR1_INPUT: &'static str = "color1_in";

/// The color of the second box.
pub const COLOR2_INPUT: &'static str = "color2_in";

/// The checkerboard node.
pub struct CheckerBoardNode;

/// Fragment shader. The uniforms are named after the inputs.
pub const SHADER_FRAG: &'static str = r#"uniform vec2 resolution_in;
uniform vec2 size_in;
uniform vec4 color1_in;
uniform vec4 color2_in;

in vec2 ove_texcoord;
out vec4 frag_color;

void main(void) {
    vec2 px = ove_texcoord * resolution_in - resolution_in * 0.5;
    vec2 box = max(size_in, vec2(1.0));
    vec2 cell = floor(px / box);

    // Parity of the cell index sum, valid for negative cell indices too
    // (`mod` in GLSL is `x - y * floor(x / y)`).
    float s = cell.x + cell.y;
    float parity = s - 2.0 * floor(s * 0.5);

    if (parity < 0.5) {
        frag_color = color1_in;
    } else {
        frag_color = color2_in;
    }
}
"#;

/// The parameters of the job: the row with the size and both colors
/// resolved.
pub open spec fn job_params(
    core: &NodeCore,
    row: Map<Seq<char>, ValueModel>,
    time: Rational,
) -> Map<Seq<char>, ValueModel> {
    row.insert(
        SIZE_INPUT@,
        effect::resolved(core, row, SIZE_INPUT@, time),
    ).insert(
        COLOR1_INPUT@,
        effect::resolved(core, row, COLOR1_INPUT@, time),
    ).insert(
        COLOR2_INPUT@,
        effect::resolved(core, row, COLOR2_INPUT@, time),
    )
}

impl NodeBehavior for CheckerBoardNode {
    open spec fn spec_name(&self) -> Seq<char> {
        "Checkerboard"@
    }

    open spec fn spec_type_id(&self) -> Seq<char> {
        "org.olivevideoeditor.Olive.checkerboard"@
    }

    open spec fn emits(
        &self,
        core: &NodeCore,
        row: Map<Seq<char>, ValueModel>,
        time: Rational,
        before: Seq<TableEntry>,
        after: Seq<TableEntry>,
    ) -> bool {
        after == before.push(
            generatorwithmerge::mergable_entry(
                row,
                HandleModel::Shader(
                    effect::shader_pass(
                        self.spec_type_id(),
                        SHADER_ID@,
                        core,
                        time,
                        job_params(core, row, time),
                        ""@,
                    ),
                ),
                time,
            ),
        )
    }

    fn name(&self) -> (r: &str) {
        "Checkerboard"
    }

    fn type_id(&self) -> (r: &str) {
        "org.olivevideoeditor.Olive.checkerboard"
    }

    fn categories(&self) -> (r: &[Category])
        ensures
            r@ == seq![Category::Generator],
    {
        &[Category::Generator]
    }

    fn description(&self) -> (r: &str)
        ensures
            r@ == "Generate a checkerboard pattern."@,
    {
        "Generate a checkerboard pattern."
    }

    fn input_name<'a>(&self, id: &'a str) -> (r: &'a str)
        ensures
            r@ == (if id@ == BASE_INPUT@ {
                "Base"@
            } else if id@ == SIZE_INPUT@ {
                "Box Size"@
            } else if id@ == COLOR1_INPUT@ {
                "Color 1"@
            } else if id@ == COLOR2_INPUT@ {
                "Color 2"@
            } else {
                id@
            }),
    {
        if text::same(id, BASE_INPUT) {
            "Base"
        } else if text::same(id, SIZE_INPUT) {
            "Box Size"
        } else if text::same(id, COLOR1_INPUT) {
            "Color 1"
        } else if text::same(id, COLOR2_INPUT) {
            "Color 2"
        } else {
            id
        }
    }

    /// One job over the row, with every parameter resolved so that each
    /// uniform has a value; drawn over the backdrop where the row has
    /// one.
    fn value(
        &self,
        core: &NodeCore,
        inputs: &NodeValueRow,
        time: Rational,
        table: &mut NodeValueTable,
    ) {
        let mut params: NodeValueRow = inputs.clone();
        params.insert(SIZE_INPUT.to_string(), effect::resolve(core, inputs, SIZE_INPUT, time));
        params.insert(COLOR1_INPUT.to_string(), effect::resolve(core, inputs, COLOR1_INPUT, time));
        params.insert(COLOR2_INPUT.to_string(), effect::resolve(core, inputs, COLOR2_INPUT, time));
        let payload = effect::shader_payload(self.type_id(), SHADER_ID, core, time, params, "");
        GeneratorWithMerge::push_mergable_job(
            inputs,
            handle::make_owned(Boxed::Shader(payload)),
            time,
            table,
        );
    }

    /// The generator's own shader and the merge pass; nothing else.
    fn shader_code(&self, request: &str) -> (r: Option<String>)
        ensures
            if request@ == SHADER_ID@ {
                r matches Some(code) && code@ == SHADER_FRAG@
            } else if request@ == generatorwithmerge::MERGE_SHADER_ID@ {
                r matches Some(code) && code@ == generatorwithmerge::MERGE_FRAG@
            } else {
                r is None
            },
    {
        if text::same(request, SHADER_ID) {
            Some(SHADER_FRAG.to_string())
        } else if text::same(request, generatorwithmerge::MERGE_SHADER_ID) {
            Some(generatorwithmerge::merge_shader_frag().to_string())
        } else {
            None
        }
    }

    fn duplicate(&self, core: &NodeCore) -> (r: Option<Self>)
        ensures
            r == Some(CheckerBoardNode),
    {
        Some(CheckerBoardNode)
    }
}

/// The inputs a new node declares after the enabled toggle.
pub open spec fn declared() -> Seq<InputModel> {
    seq![
        effect::texture_input(BASE_INPUT@),
        effect::extent_input(SIZE_INPUT@, double::SIXTY_FOUR, double::SIXTY_FOUR),
        effect::picked_color_input(COLOR1_INPUT@, double::TENTH, double::TENTH, double::TENTH),
        effect::picked_color_input(COLOR2_INPUT@, double::HALF, double::HALF, double::HALF),
    ]
}

/// The state of a new node.
pub open spec fn created(core: &NodeCore) -> bool {
    node::fresh_core(core, declared(), BASE_INPUT@, node::flags::VIDEO_EFFECT)
}

/// A new node: the backdrop, the box size and the two colors.
pub fn create() -> (r: (NodeCore, CheckerBoardNode))
    ensures
        created(&r.0),
{
    let mut core = NodeCore::new();
    core.add_input(effect::texture(BASE_INPUT));
    core.add_input(effect::extent(SIZE_INPUT, double::SIXTY_FOUR, double::SIXTY_FOUR));
    core.add_input(effect::picked_color(COLOR1_INPUT, double::TENTH, double::TENTH, double::TENTH));
    core.add_input(effect::picked_color(COLOR2_INPUT, double::HALF, double::HALF, double::HALF));
    core.flags = node::flags::VIDEO_EFFECT;
    core.effect_input = BASE_INPUT.to_string();
    assert(core.input_models() =~= seq![node::enabled_input()] + declared());
    (core, CheckerBoardNode)
}

/// Register this node type.
pub fn register(meta: &mut Vec<NodeMeta>)
    ensures
        factory::registered(
            old(meta)@,
            final(meta)@,
            "org.olivevideoeditor.Olive.checkerboard"@,
            "Checkerboard"@,
            seq![Category::Generator],
            NodeKind::CheckerBoard,
        ),
{
    meta.push(
        NodeMeta {
            type_id: "org.olivevideoeditor.Olive.checkerboard",
            name: "Checkerboard",
            categories: &[Category::Generator],
            kind: NodeKind::CheckerBoard,
        },
    );
}

} // verus!
