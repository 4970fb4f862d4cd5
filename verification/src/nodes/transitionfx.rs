//! Layer transition: blends a picture with a second one across the span
//! of an adjustment layer.
//!
//! The renderer fills in the progress of a job that does not carry one,
//! so the job carries the progress only where it was set: a default of
//! zero would hold the layer at its start.

use vstd::prelude::*;

use crate::double;
use crate::factory;
use crate::factory::{NodeKind, NodeMeta};
use crate::input::InputModel;
use crate::node;
use crate::node::{Category, NodeBehavior, NodeCore};
use crate::nodes::effect;
use crate::rational::Rational;
use crate::text;
use crate::value::{NodeValue, NodeValueRow, NodeValueTable, TableEntry, ValueModel};

verus! {

/// The picture of the effect chain: the node's effect input.
pub const TEXTURE_INPUT: &'static str = "tex_in";

/// The second picture.
pub const BLEND_INPUT: &'static str = "blend_in";

/// The position across the layer's span.
pub const PROGRESS_INPUT: &'static str = "progress_in";

/// The color that the fade mixes with.
pub const COLOR_INPUT: &'static str = "color_in";

/// The direction of the wipe and the slide: an index into
/// [`DIRECTION_NAMES`].
pub const DIRECTION_INPUT: &'static str = "direction_in";

/// The style: an index into [`TYPE_NAMES`].
pub const TYPE_INPUT: &'static str = "type_in";

/// The style names, by combo index.
pub const TYPE_NAMES: [&'static str; 4] = ["Cross Dissolve", "Fade", "Wipe", "Slide"];

/// The shader ids, by combo index.
pub const SHADER_IDS: [&'static str; 4] = ["crossdissolve", "fade", "wipe", "slide"];

/// The direction names, by combo index.
pub const DIRECTION_NAMES: [&'static str; 4] = [
    "Left to Right",
    "Right to Left",
    "Top to Bottom",
    "Bottom to Top",
];

/// The layer transition node.
pub struct TransitionFxNode;

/// The style that a combo index picks: the nearest one there is.
pub open spec fn style_index(index: i64) -> int {
    if index < 0 {
        0
    } else if index > 3 {
        3
    } else {
        index as int
    }
}

/// The shader id that a combo index picks.
pub fn shader_id_for(index: i64) -> (r: &'static str)
    ensures
        r@ == SHADER_IDS@[style_index(index)]@,
{
    if index < 0 {
        SHADER_IDS[0]
    } else if index > 3 {
        SHADER_IDS[3]
    } else {
        SHADER_IDS[index as usize]
    }
}

/// Fragment shader of the cross dissolve.
pub const SHADER_CROSSDISSOLVE: &'static str = r#"uniform sampler2D tex_in;
uniform sampler2D blend_in;
uniform bool tex_in_enabled;
uniform bool blend_in_enabled;
uniform float progress_in;

in vec2 ove_texcoord;
out vec4 frag_color;

void main(void) {
    if (!tex_in_enabled && !blend_in_enabled) {
        frag_color = vec4(0.0);
        return;
    }

    if (!tex_in_enabled) {
        frag_color = texture(blend_in, ove_texcoord);
        return;
    }

    if (!blend_in_enabled) {
        frag_color = texture(tex_in, ove_texcoord);
        return;
    }

    vec4 tex_col = texture(tex_in, ove_texcoord);
    vec4 blend_col = texture(blend_in, ove_texcoord);

    frag_color = mix(tex_col, blend_col, progress_in);
}
"#;

/// Fragment shader of the fade.
pub const SHADER_FADE: &'static str = r#"uniform sampler2D tex_in;
uniform bool tex_in_enabled;
uniform vec4 color_in;
uniform float progress_in;

in vec2 ove_texcoord;
out vec4 frag_color;

void main(void) {
    if (!tex_in_enabled) {
        frag_color = vec4(0.0);
        return;
    }

    vec4 tex_col = texture(tex_in, ove_texcoord);

    frag_color = mix(color_in, tex_col, progress_in);
}
"#;

/// Fragment shader of the wipe.
pub const SHADER_WIPE: &'static str = r#"uniform sampler2D tex_in;
uniform sampler2D blend_in;
uniform bool tex_in_enabled;
uniform bool blend_in_enabled;
uniform float progress_in;
uniform float direction_in;

in vec2 ove_texcoord;
out vec4 frag_color;

void main(void) {
    if (!tex_in_enabled && !blend_in_enabled) {
        frag_color = vec4(0.0);
        return;
    }

    if (!tex_in_enabled) {
        frag_color = texture(blend_in, ove_texcoord);
        return;
    }

    if (!blend_in_enabled) {
        frag_color = texture(tex_in, ove_texcoord);
        return;
    }

    vec4 tex_col = texture(tex_in, ove_texcoord);
    vec4 blend_col = texture(blend_in, ove_texcoord);

    // Direction 0..3: 0/1 are horizontal, 2/3 vertical (the axis), and
    // the odd entries sweep the other way (the sign).
    float d = clamp(direction_in, 0.0, 3.0);
    float horiz = 1.0 - step(1.5, d);
    float neg = step(1.0, mod(d, 2.0));
    float sweep = mix(ove_texcoord.y, ove_texcoord.x, horiz);
    float boundary = mix(sweep, 1.0 - sweep, neg);

    float soft = 0.02;
    float mask = smoothstep(progress_in - soft, progress_in + soft, boundary);

    frag_color = mix(blend_col, tex_col, mask);
}
"#;

/// Fragment shader of the slide.
pub const SHADER_SLIDE: &'static str = r#"uniform sampler2D tex_in;
uniform sampler2D blend_in;
uniform bool tex_in_enabled;
uniform bool blend_in_enabled;
uniform float progress_in;
uniform float direction_in;

in vec2 ove_texcoord;
out vec4 frag_color;

void main(void) {
    if (!tex_in_enabled && !blend_in_enabled) {
        frag_color = vec4(0.0);
        return;
    }

    if (!tex_in_enabled) {
        frag_color = texture(blend_in, ove_texcoord);
        return;
    }

    if (!blend_in_enabled) {
        frag_color = texture(tex_in, ove_texcoord);
        return;
    }

    // Direction 0..3: 0/1 are horizontal, 2/3 vertical (the axis), and
    // the odd entries travel the other way (the sign).
    float d = clamp(direction_in, 0.0, 3.0);
    float horiz = 1.0 - step(1.5, d);
    float neg = step(1.0, mod(d, 2.0));
    vec2 e = vec2(horiz, 1.0 - horiz) * (1.0 - 2.0 * neg);

    float sweep = mix(ove_texcoord.y, ove_texcoord.x, horiz);
    float boundary = mix(sweep, 1.0 - sweep, neg);

    vec2 from_uv = ove_texcoord - e * progress_in;
    vec2 to_uv = ove_texcoord + e * (1.0 - progress_in);

    vec4 tex_col = texture(tex_in, from_uv);
    vec4 blend_col = texture(blend_in, to_uv);

    if (boundary < progress_in) {
        frag_color = blend_col;
    } else {
        frag_color = tex_col;
    }
}
"#;

/// The combo index of the style: a number, truncated.
pub open spec fn style(
    core: &NodeCore,
    row: Map<Seq<char>, ValueModel>,
    time: Rational,
) -> i64 {
    effect::resolved(core, row, TYPE_INPUT@, time).number().truncated(
        i64::MIN as int,
        i64::MAX as int,
    ) as i64
}

/// Whether the progress was set: the row carries one other than zero, or
/// the input is keyframed.
pub open spec fn progress_set(core: &NodeCore, row: Map<Seq<char>, ValueModel>) -> bool {
    ||| row.contains_key(PROGRESS_INPUT@) && !row[PROGRESS_INPUT@].number().zero()
    ||| core.keyframing(PROGRESS_INPUT@, -1i32)
}

/// The parameters of the job: the row with the style as an index, and
/// without the progress unless it was set.
pub open spec fn job_params(
    core: &NodeCore,
    row: Map<Seq<char>, ValueModel>,
    time: Rational,
) -> Map<Seq<char>, ValueModel> {
    let styled = row.insert(TYPE_INPUT@, ValueModel::Combo(style(core, row, time)));
    if progress_set(core, row) {
        styled
    } else {
        styled.remove(PROGRESS_INPUT@)
    }
}

impl NodeBehavior for TransitionFxNode {
    open spec fn spec_name(&self) -> Seq<char> {
        "Transition FX"@
    }

    open spec fn spec_type_id(&self) -> Seq<char> {
        "org.olivevideoeditor.Olive.transitionfx"@
    }

    open spec fn emits(
        &self,
        core: &NodeCore,
        row: Map<Seq<char>, ValueModel>,
        time: Rational,
        before: Seq<TableEntry>,
        after: Seq<TableEntry>,
    ) -> bool {
        after == before + effect::pair_entries(
            row,
            TEXTURE_INPUT@,
            BLEND_INPUT@,
            effect::shader_entry(
                effect::shader_pass(
                    self.spec_type_id(),
                    SHADER_IDS@[style_index(style(core, row, time))]@,
                    core,
                    time,
                    job_params(core, row, time),
                    ""@,
                ),
            ),
        )
    }

    fn name(&self) -> (r: &str) {
        "Transition FX"
    }

    fn type_id(&self) -> (r: &str) {
        "org.olivevideoeditor.Olive.transitionfx"
    }

    fn categories(&self) -> (r: &[Category])
        ensures
            r@ == seq![Category::Effect],
    {
        &[Category::Effect]
    }

    fn description(&self) -> (r: &str)
        ensures
            r@ == "Blend a picture with a second one across an adjustment layer's span."@,
    {
        "Blend a picture with a second one across an adjustment layer's span."
    }

    fn input_name<'a>(&self, id: &'a str) -> (r: &'a str)
        ensures
            r@ == (if id@ == TEXTURE_INPUT@ {
                "From"@
            } else if id@ == BLEND_INPUT@ {
                "To"@
            } else if id@ == PROGRESS_INPUT@ {
                "Progress"@
            } else if id@ == COLOR_INPUT@ {
                "Color"@
            } else if id@ == DIRECTION_INPUT@ {
                "Direction"@
            } else if id@ == TYPE_INPUT@ {
                "Type"@
            } else {
                id@
            }),
    {
        if text::same(id, TEXTURE_INPUT) {
            "From"
        } else if text::same(id, BLEND_INPUT) {
            "To"
        } else if text::same(id, PROGRESS_INPUT) {
            "Progress"
        } else if text::same(id, COLOR_INPUT) {
            "Color"
        } else if text::same(id, DIRECTION_INPUT) {
            "Direction"
        } else if text::same(id, TYPE_INPUT) {
            "Type"
        } else {
            id
        }
    }

    /// With both textures one shader job; with one texture that one;
    /// with none nothing.
    fn value(
        &self,
        core: &NodeCore,
        inputs: &NodeValueRow,
        time: Rational,
        table: &mut NodeValueTable,
    ) {
        if effect::is_texture(inputs, TEXTURE_INPUT) && effect::is_texture(inputs, BLEND_INPUT) {
            let style: i64 = effect::resolve(core, inputs, TYPE_INPUT, time).to_double().to_i64();
            let mut params: NodeValueRow = inputs.clone();
            params.insert(TYPE_INPUT.to_string(), NodeValue::Combo(style));
            let in_row: bool = match inputs.get(PROGRESS_INPUT) {
                Some(v) => !v.to_double().is_zero(),
                None => false,
            };
            if !in_row && !core.is_input_keyframing(PROGRESS_INPUT, -1) {
                params.remove(PROGRESS_INPUT);
            }
            effect::push_shader(
                table,
                effect::shader_payload(self.type_id(), shader_id_for(style), core, time, params, ""),
            );
            assert(table@ =~= old(table)@ + seq![table@.last()]);
        } else {
            effect::push_single(table, inputs, TEXTURE_INPUT, BLEND_INPUT);
        }
    }

    /// The shader of a style; the cross dissolve for any other request.
    fn shader_code(&self, request: &str) -> (r: Option<String>)
        ensures
            r matches Some(code) && code@ == (if request@ == "fade"@ {
                SHADER_FADE@
            } else if request@ == "wipe"@ {
                SHADER_WIPE@
            } else if request@ == "slide"@ {
                SHADER_SLIDE@
            } else {
                SHADER_CROSSDISSOLVE@
            }),
    {
        if text::same(request, "fade") {
            Some(SHADER_FADE.to_string())
        } else if text::same(request, "wipe") {
            Some(SHADER_WIPE.to_string())
        } else if text::same(request, "slide") {
            Some(SHADER_SLIDE.to_string())
        } else {
            Some(SHADER_CROSSDISSOLVE.to_string())
        }
    }

    fn duplicate(&self, core: &NodeCore) -> (r: Option<Self>)
        ensures
            r == Some(TransitionFxNode),
    {
        Some(TransitionFxNode)
    }
}

/// Different styles have different shader ids.
pub proof fn law_styles_have_their_own_ids(a: int, b: int)
    requires
        0 <= a < 4,
        0 <= b < 4,
        a != b,
    ensures
        SHADER_IDS@[a]@ != SHADER_IDS@[b]@,
{
    reveal_strlit("crossdissolve");
    reveal_strlit("fade");
    reveal_strlit("wipe");
    reveal_strlit("slide");
    assert(SHADER_IDS@[0]@.len() == 13);
    assert(SHADER_IDS@[1]@[0] == 'f');
    assert(SHADER_IDS@[2]@[0] == 'w');
    assert(SHADER_IDS@[3]@[0] == 's');
    assert(SHADER_IDS@[0]@[0] == 'c');
}

/// The inputs a new node declares after the enabled toggle.
pub open spec fn declared() -> Seq<InputModel> {
    seq![
        effect::texture_input(TEXTURE_INPUT@),
        effect::texture_input(BLEND_INPUT@),
        effect::ranged_input(PROGRESS_INPUT@, double::ZERO, double::ZERO, double::ONE, "percentage"@),
        effect::color_input(COLOR_INPUT@, double::ZERO, double::ZERO, double::ZERO),
        effect::labeled_combo_input(DIRECTION_INPUT@, DIRECTION_NAMES@),
        effect::labeled_combo_input(TYPE_INPUT@, TYPE_NAMES@),
    ]
}

/// The state of a new node.
pub open spec fn created(core: &NodeCore) -> bool {
    node::fresh_core(core, declared(), TEXTURE_INPUT@, node::flags::VIDEO_EFFECT)
}

/// A new node: both textures, the progress, the fade color, the
/// direction and the style.
pub fn create() -> (r: (NodeCore, TransitionFxNode))
    ensures
        created(&r.0),
{
    let mut core = NodeCore::new();
    core.add_input(effect::texture(TEXTURE_INPUT));
    core.add_input(effect::texture(BLEND_INPUT));
    core.add_input(effect::ranged(PROGRESS_INPUT, double::ZERO, double::ZERO, double::ONE, "percentage"));
    core.add_input(effect::color(COLOR_INPUT, double::ZERO, double::ZERO, double::ZERO));
    core.add_input(effect::labeled_combo(DIRECTION_INPUT, &DIRECTION_NAMES));
    core.add_input(effect::labeled_combo(TYPE_INPUT, &TYPE_NAMES));
    core.flags = node::flags::VIDEO_EFFECT;
    core.effect_input = TEXTURE_INPUT.to_string();
    assert(core.input_models() =~= seq![node::enabled_input()] + declared());
    (core, TransitionFxNode)
}

/// Register this node type.
pub fn register(meta: &mut Vec<NodeMeta>)
    ensures
        factory::registered(
            old(meta)@,
            final(meta)@,
            "org.olivevideoeditor.Olive.transitionfx"@,
            "Transition FX"@,
            seq![Category::Effect],
            NodeKind::TransitionFx,
        ),
{
    meta.push(
        NodeMeta {
            type_id: "org.olivevideoeditor.Olive.transitionfx",
            name: "Transition FX",
            categories: &[Category::Effect],
            kind: NodeKind::TransitionFx,
        },
    );
}

} // verus!
