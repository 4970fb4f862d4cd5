//! Color matrix: multiplies the four channels of every pixel by a four by
//! four matrix. The matrix arrives as sixteen scalar inputs.

use vstd::prelude::*;

use crate::double;
use crate::double::Double;
use crate::factory;
use crate::factory::{NodeKind, NodeMeta};
use crate::input;
use crate::input::{Input, InputModel};
use crate::node;
use crate::node::{Category, NodeBehavior, NodeCore};
use crate::nodes::effect;
use crate::rational::Rational;
use crate::text;
use crate::value::{
    NodeValue, NodeValueRow, NodeValueTable, TableEntry, ValueModel, ValueType,
};

verus! {

/// The texture to work on: the node's effect input.
pub const TEXTURE_INPUT: &'static str = "tex_in";

/// The matrix elements, row by row: `m0` to `m3` are the weights of the
/// input channels in the output red channel, and so on.
pub const MATRIX_INPUTS: [&'static str; 16] = [
    "m0",
    "m1",
    "m2",
    "m3",
    "m4",
    "m5",
    "m6",
    "m7",
    "m8",
    "m9",
    "m10",
    "m11",
    "m12",
    "m13",
    "m14",
    "m15",
];

/// The name of each matrix element: the output channel before the arrow,
/// the input channel after it.
pub const MATRIX_LABELS: [&'static str; 16] = [
    "R <- R",
    "R <- G",
    "R <- B",
    "R <- A",
    "G <- R",
    "G <- G",
    "G <- B",
    "G <- A",
    "B <- R",
    "B <- G",
    "B <- B",
    "B <- A",
    "A <- R",
    "A <- G",
    "A <- B",
    "A <- A",
];

/// The key that the job carries the packed matrix under.
pub const MATRIX_UNIFORM: &'static str = "matrix_in";

/// The color matrix node.
pub struct ColorMatrixNode;

/// Fragment shader. The matrix is row by row, and is bound so that it
/// multiplies the color as a column.
pub const SHADER_FRAG: &'static str = r#"uniform sampler2D tex_in;
uniform mat4 matrix_in;

in vec2 ove_texcoord;
out vec4 frag_color;

void main() {
  frag_color = matrix_in * texture(tex_in, ove_texcoord);
}
"#;

/// The label of the first element called `id` from `i` on; any other id is
/// its own name.
pub open spec fn label_from(id: Seq<char>, i: int) -> Seq<char>
    decreases 16 - i,
{
    if i < 0 || i >= 16 {
        id
    } else if MATRIX_INPUTS@[i]@ == id {
        MATRIX_LABELS@[i]@
    } else {
        label_from(id, i + 1)
    }
}

/// The matrix, row by row.
pub open spec fn matrix(
    core: &NodeCore,
    row: Map<Seq<char>, ValueModel>,
    time: Rational,
) -> Seq<Double> {
    Seq::new(16, |i: int| effect::resolved(core, row, MATRIX_INPUTS@[i]@, time).number())
}

/// The matrix, row by row.
fn pack_matrix(core: &NodeCore, inputs: &NodeValueRow, time: Rational) -> (r: [Double; 16])
    ensures
        r@ == matrix(core, inputs@, time),
{
    let mut packed: [Double; 16] = [Double { bits: 0 };16];
    let mut i: usize = 0;
    while i < 16
        invariant
            i <= 16,
            forall|j: int|
                0 <= j < i ==> #[trigger] packed@[j] == matrix(core, inputs@, time)[j],
        decreases 16 - i,
    {
        packed[i] = effect::resolve(core, inputs, MATRIX_INPUTS[i], time).to_double();
        i = i + 1;
    }
    assert(packed@ =~= matrix(core, inputs@, time));
    packed
}

impl NodeBehavior for ColorMatrixNode {
    open spec fn spec_name(&self) -> Seq<char> {
        "Color Matrix"@
    }

    open spec fn spec_type_id(&self) -> Seq<char> {
        "org.olivevideoeditor.Olive.colormatrix"@
    }

    open spec fn emits(
        &self,
        core: &NodeCore,
        row: Map<Seq<char>, ValueModel>,
        time: Rational,
        before: Seq<TableEntry>,
        after: Seq<TableEntry>,
    ) -> bool {
        if effect::has_texture(row, TEXTURE_INPUT@) {
            after == before.push(
                effect::job_entry(
                    effect::shader_pass(
                        self.spec_type_id(),
                        ""@,
                        core,
                        time,
                        row.insert(MATRIX_UNIFORM@, ValueModel::Matrix(matrix(core, row, time))),
                        ""@,
                    ),
                ),
            )
        } else {
            after == before
        }
    }

    fn name(&self) -> (r: &str) {
        "Color Matrix"
    }

    fn type_id(&self) -> (r: &str) {
        "org.olivevideoeditor.Olive.colormatrix"
    }

    fn categories(&self) -> (r: &[Category])
        ensures
            r@ == seq![Category::Color],
    {
        &[Category::Color]
    }

    fn description(&self) -> (r: &str)
        ensures
            r@ == "Multiply a video's RGBA channels by a 4x4 matrix."@,
    {
        "Multiply a video's RGBA channels by a 4x4 matrix."
    }

    fn input_name<'a>(&self, id: &'a str) -> (r: &'a str)
        ensures
            r@ == (if id@ == TEXTURE_INPUT@ {
                "Input"@
            } else {
                label_from(id@, 0)
            }),
    {
        if text::same(id, TEXTURE_INPUT) {
            return "Input";
        }
        let mut i: usize = 0;
        while i < 16
            invariant
                i <= 16,
                id@ != TEXTURE_INPUT@,
                label_from(id@, 0) == label_from(id@, i as int),
            decreases 16 - i,
        {
            if text::same(MATRIX_INPUTS[i], id) {
                return MATRIX_LABELS[i];
            }
            i = i + 1;
        }
        id
    }

    /// No texture, no output; else one shader job over the row with the
    /// packed matrix. The identity is no exception.
    fn value(
        &self,
        core: &NodeCore,
        inputs: &NodeValueRow,
        time: Rational,
        table: &mut NodeValueTable,
    ) {
        if !effect::is_texture(inputs, TEXTURE_INPUT) {
            return ;
        }
        let mut params: NodeValueRow = inputs.clone();
        params.insert(
            MATRIX_UNIFORM.to_string(),
            NodeValue::Matrix(pack_matrix(core, inputs, time)),
        );
        effect::push_shader_job(
            table,
            effect::shader_payload(self.type_id(), "", core, time, params, ""),
        );
    }

    /// There is one shader; the request is ignored.
    fn shader_code(&self, request: &str) -> (r: Option<String>)
        ensures
            r matches Some(code) && code@ == SHADER_FRAG@,
    {
        Some(SHADER_FRAG.to_string())
    }

    fn duplicate(&self, core: &NodeCore) -> (r: Option<Self>)
        ensures
            r == Some(ColorMatrixNode),
    {
        Some(ColorMatrixNode)
    }
}

/// The input of matrix element `i`: one on the diagonal, zero elsewhere.
pub open spec fn element_input(i: int) -> InputModel {
    effect::float_input(
        MATRIX_INPUTS@[i]@,
        if i % 5 == 0 {
            double::ONE
        } else {
            double::ZERO
        },
    ).flagged(input::flags::NOT_KEYFRAMABLE)
}

/// The inputs a new node declares after the enabled toggle.
pub open spec fn declared() -> Seq<InputModel> {
    seq![effect::texture_input(TEXTURE_INPUT@)] + Seq::new(16, |i: int| element_input(i))
}

/// The state of a new node.
pub open spec fn created(core: &NodeCore) -> bool {
    node::fresh_core(core, declared(), TEXTURE_INPUT@, node::flags::VIDEO_EFFECT)
}

/// A new node: the texture and the identity matrix, which cannot be
/// keyframed.
pub fn create() -> (r: (NodeCore, ColorMatrixNode))
    ensures
        created(&r.0),
{
    let mut core = NodeCore::new();
    core.add_input(effect::texture(TEXTURE_INPUT));
    let mut i: usize = 0;
    assert(core.input_models() =~= seq![node::enabled_input()] + declared().subrange(0, 1));
    while i < 16
        invariant
            i <= 16,
            core.input_models() == seq![node::enabled_input()] + declared().subrange(0, i + 1),
            core.effect_input@ == Seq::<char>::empty(),
            core.standard_values() == Map::<(Seq<char>, i32), ValueModel>::empty(),
            core.input_tracks() == Seq::<node::InputTrack>::empty(),
        decreases 16 - i,
    {
        let default: u64 = if i % 5 == 0 {
            double::ONE
        } else {
            double::ZERO
        };
        core.add_input(
            effect::float(MATRIX_INPUTS[i], default).with_flags(input::flags::NOT_KEYFRAMABLE),
        );
        assert(declared().subrange(0, i + 2) =~= declared().subrange(0, i + 1).push(
            element_input(i as int),
        ));
        assert(core.input_models() =~= seq![node::enabled_input()] + declared().subrange(0, i + 2));
        i = i + 1;
    }
    core.flags = node::flags::VIDEO_EFFECT;
    core.effect_input = TEXTURE_INPUT.to_string();
    assert(core.input_models() =~= seq![node::enabled_input()] + declared());
    (core, ColorMatrixNode)
}

/// Register this node type.
pub fn register(meta: &mut Vec<NodeMeta>)
    ensures
        factory::registered(
            old(meta)@,
            final(meta)@,
            "org.olivevideoeditor.Olive.colormatrix"@,
            "Color Matrix"@,
            seq![Category::Color],
            NodeKind::ColorMatrix,
        ),
{
    meta.push(
        NodeMeta {
            type_id: "org.olivevideoeditor.Olive.colormatrix",
            name: "Color Matrix",
            categories: &[Category::Color],
            kind: NodeKind::ColorMatrix,
        },
    );
}

} // verus!
