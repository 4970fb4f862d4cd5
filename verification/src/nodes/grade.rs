//! Grade effect: a remap of the color range from the black and white
//! points to the black and white outputs, then a gamma. A range of no
//! width maps to a slope of zero, and alpha is not touched.

use vstd::prelude::*;

use crate::double;
use crate::factory;
use crate::factory::{NodeKind, NodeMeta};
use crate::input::InputModel;
use crate::node;
use crate::node::{Category, NodeBehavior, NodeCore};
use crate::nodes::effect;
use crate::rational::Rational;
use crate::text;
use crate::value::{NodeValueRow, NodeValueTable, TableEntry, ValueModel};

verus! {

/// The texture to work on: the node's effect input.
pub const TEXTURE_INPUT: &'static str = "tex_in";

/// The input level that maps to the black output. Default 0.
pub const BLACKPOINT_INPUT: &'static str = "blackpoint_in";

/// The input level that maps to the white output. Default 1.
pub const WHITEPOINT_INPUT: &'static str = "whitepoint_in";

/// The black output. Default 0.
pub const BLACK_INPUT: &'static str = "black_in";

/// The white output. Default 1.
pub const WHITE_INPUT: &'static str = "white_in";

/// Gamma: a reciprocal exponent applied after the remap. Default 1.
pub const GAMMA_INPUT: &'static str = "gamma_in";

/// The grade node.
pub struct GradeNode;

/// Fragment shader. The uniforms are named after the inputs.
pub const SHADER_FRAG: &'static str = r#"// Inputs
uniform sampler2D tex_in;

uniform float blackpoint_in;
uniform float whitepoint_in;
uniform float black_in;
uniform float white_in;
uniform float gamma_in;

// Input texture coordinate
in vec2 ove_texcoord;
out vec4 frag_color;

// Remap one channel: stretch [blackpoint, whitepoint] onto
// [black, white], then apply the reciprocal-exponent gamma.
float ove_grade(float v) {
  float d = whitepoint_in - blackpoint_in;
  float a = 0.0;
  if (d != 0.0) {
    a = (white_in - black_in) / d;
  }
  float b = black_in - a * blackpoint_in;
  v = a * v + b;

  if (gamma_in != 1.0) {
    float g = max(gamma_in, 1.0e-8);
    if (v > 0.0) {
      v = pow(v, 1.0 / g);
    }
  }
  return v;
}

void main() {
  vec4 c = texture(tex_in, ove_texcoord);

  c.r = ove_grade(c.r);
  c.g = ove_grade(c.g);
  c.b = ove_grade(c.b);

  frag_color = c;
}
"#;

/// The parameters of the job: the row with every control resolved.
pub open spec fn job_params(
    core: &NodeCore,
    row: Map<Seq<char>, ValueModel>,
    time: Rational,
) -> Map<Seq<char>, ValueModel> {
    row.insert(
        BLACKPOINT_INPUT@,
        effect::resolved(core, row, BLACKPOINT_INPUT@, time),
    ).insert(
        WHITEPOINT_INPUT@,
        effect::resolved(core, row, WHITEPOINT_INPUT@, time),
    ).insert(
        BLACK_INPUT@,
        effect::resolved(core, row, BLACK_INPUT@, time),
    ).insert(
        WHITE_INPUT@,
        effect::resolved(core, row, WHITE_INPUT@, time),
    ).insert(
        GAMMA_INPUT@,
        effect::resolved(core, row, GAMMA_INPUT@, time),
    )
}

impl NodeBehavior for GradeNode {
    open spec fn spec_name(&self) -> Seq<char> {
        "Grade"@
    }

    open spec fn spec_type_id(&self) -> Seq<char> {
        "org.olivevideoeditor.Olive.grade"@
    }

    open spec fn emits(
        &self,
        core: &NodeCore,
        row: Map<Seq<char>, ValueModel>,
        time: Rational,
        before: Seq<TableEntry>,
        after: Seq<TableEntry>,
    ) -> bool {
        if effect::has_texture(row, TEXTURE_INPUT@) {
            after == before.push(
                effect::job_entry(
                    effect::shader_pass(
                        self.spec_type_id(),
                        ""@,
                        core,
                        time,
                        job_params(core, row, time),
                        ""@,
                    ),
                ),
            )
        } else {
            after == before
        }
    }

    fn name(&self) -> (r: &str) {
        "Grade"
    }

    fn type_id(&self) -> (r: &str) {
        "org.olivevideoeditor.Olive.grade"
    }

    fn categories(&self) -> (r: &[Category])
        ensures
            r@ == seq![Category::Color],
    {
        &[Category::Color]
    }

    fn description(&self) -> (r: &str)
        ensures
            r@ == "Remap the color range with black/white points and a gamma."@,
    {
        "Remap the color range with black/white points and a gamma."
    }

    fn input_name<'a>(&self, id: &'a str) -> (r: &'a str)
        ensures
            r@ == (if id@ == TEXTURE_INPUT@ {
                "Input"@
            } else if id@ == BLACKPOINT_INPUT@ {
                "Black Point"@
            } else if id@ == WHITEPOINT_INPUT@ {
                "White Point"@
            } else if id@ == BLACK_INPUT@ {
                "Black Output"@
            } else if id@ == WHITE_INPUT@ {
                "White Output"@
            } else if id@ == GAMMA_INPUT@ {
                "Gamma"@
            } else {
                id@
            }),
    {
        if text::same(id, TEXTURE_INPUT) {
            "Input"
        } else if text::same(id, BLACKPOINT_INPUT) {
            "Black Point"
        } else if text::same(id, WHITEPOINT_INPUT) {
            "White Point"
        } else if text::same(id, BLACK_INPUT) {
            "Black Output"
        } else if text::same(id, WHITE_INPUT) {
            "White Output"
        } else if text::same(id, GAMMA_INPUT) {
            "Gamma"
        } else {
            id
        }
    }

    /// No texture, no output; else one shader job over the row, with
    /// every control resolved so that each uniform has a value.
    fn value(
        &self,
        core: &NodeCore,
        inputs: &NodeValueRow,
        time: Rational,
        table: &mut NodeValueTable,
    ) {
        if !effect::is_texture(inputs, TEXTURE_INPUT) {
            return ;
        }
        let mut params: NodeValueRow = inputs.clone();
        params.insert(BLACKPOINT_INPUT.to_string(), effect::resolve(core, inputs, BLACKPOINT_INPUT, time));
        params.insert(WHITEPOINT_INPUT.to_string(), effect::resolve(core, inputs, WHITEPOINT_INPUT, time));
        params.insert(BLACK_INPUT.to_string(), effect::resolve(core, inputs, BLACK_INPUT, time));
        params.insert(WHITE_INPUT.to_string(), effect::resolve(core, inputs, WHITE_INPUT, time));
        params.insert(GAMMA_INPUT.to_string(), effect::resolve(core, inputs, GAMMA_INPUT, time));
        effect::push_shader_job(
            table,
            effect::shader_payload(self.type_id(), "", core, time, params, ""),
        );
    }

    /// There is one shader; the request is ignored.
    fn shader_code(&self, request: &str) -> (r: Option<String>)
        ensures
            r matches Some(code) && code@ == SHADER_FRAG@,
    {
        Some(SHADER_FRAG.to_string())
    }

    fn duplicate(&self, core: &NodeCore) -> (r: Option<Self>)
        ensures
            r == Some(GradeNode),
    {
        Some(GradeNode)
    }
}

/// The inputs a new node declares after the enabled toggle.
pub open spec fn declared() -> Seq<InputModel> {
    seq![
        effect::texture_input(TEXTURE_INPUT@),
        effect::float_input(BLACKPOINT_INPUT@, double::ZERO),
        effect::float_input(WHITEPOINT_INPUT@, double::ONE),
        effect::float_input(BLACK_INPUT@, double::ZERO),
        effect::float_input(WHITE_INPUT@, double::ONE),
        effect::float_input(GAMMA_INPUT@, double::ONE),
    ]
}

/// The state of a new node.
pub open spec fn created(core: &NodeCore) -> bool {
    node::fresh_core(core, declared(), TEXTURE_INPUT@, node::flags::VIDEO_EFFECT)
}

/// A new node: the texture and the five controls, which have no range
/// of their own.
pub fn create() -> (r: (NodeCore, GradeNode))
    ensures
        created(&r.0),
{
    let mut core = NodeCore::new();
    core.add_input(effect::texture(TEXTURE_INPUT));
    core.add_input(effect::float(BLACKPOINT_INPUT, double::ZERO));
    core.add_input(effect::float(WHITEPOINT_INPUT, double::ONE));
    core.add_input(effect::float(BLACK_INPUT, double::ZERO));
    core.add_input(effect::float(WHITE_INPUT, double::ONE));
    core.add_input(effect::float(GAMMA_INPUT, double::ONE));
    core.flags = node::flags::VIDEO_EFFECT;
    core.effect_input = TEXTURE_INPUT.to_string();
    assert(core.input_models() =~= seq![node::enabled_input()] + declared());
    (core, GradeNode)
}

/// Register this node type.
pub fn register(meta: &mut Vec<NodeMeta>)
    ensures
        factory::registered(
            old(meta)@,
            final(meta)@,
            "org.olivevideoeditor.Olive.grade"@,
            "Grade"@,
            seq![Category::Color],
            NodeKind::Grade,
        ),
{
    meta.push(
        NodeMeta {
            type_id: "org.olivevideoeditor.Olive.grade",
            name: "Grade",
            categories: &[Category::Color],
            kind: NodeKind::Grade,
        },
    );
}

} // verus!
