//! What the built-in nodes hand to their shaders.

use vstd::prelude::*;

use crate::builtin::BuiltIn;
use crate::double;
use crate::factory::NodeKind;
use crate::handle::HandleModel;
use crate::id::NodeId;
use crate::jobs::{JobModel, ShaderJobModel};
use crate::node;
use crate::node::{NodeBehavior, NodeCore};
use crate::nodes;
use crate::nodes::effect;
use crate::nodes::transitionfx::TransitionFxNode;
use crate::nodes::transitions::TransitionNode;
use crate::rational::Rational;
use crate::text;
use crate::value::{TableEntry, ValueModel, ValueType};

verus! {

/// Whether `value` is what a node uses for an input: the row's value, and
/// the node's own at the time where the row has none.
pub open spec fn in_use(
    core: &NodeCore,
    row: Map<Seq<char>, ValueModel>,
    id: Seq<char>,
    time: Rational,
    value: ValueModel,
) -> bool {
    &&& row.contains_key(id) ==> value == row[id]
    &&& !row.contains_key(id) ==> node::is_own_value(core, id, -1i32, time, value)
}

/// The value in use is the one that is resolved.
pub proof fn lemma_in_use(
    core: &NodeCore,
    row: Map<Seq<char>, ValueModel>,
    id: Seq<char>,
    time: Rational,
    value: ValueModel,
)
    ensures
        in_use(core, row, id, time, effect::resolved(core, row, id, time)),
        in_use(core, row, id, time, value) ==> value == effect::resolved(core, row, id, time),
{
    node::lemma_own_value(core, id, -1i32, time);
    if in_use(core, row, id, time, value) && !row.contains_key(id) {
        node::lemma_one_own_value(core, id, -1i32, time, value);
    }
}

/// Whether the row carries a texture on an input.
pub open spec fn carries_texture(row: Map<Seq<char>, ValueModel>, id: Seq<char>) -> bool {
    row.contains_key(id) && row[id] is Texture
}

/// Whether a table gained one texture.
pub open spec fn gains_texture(
    before: Seq<TableEntry>,
    after: Seq<TableEntry>,
    texture: ValueModel,
) -> bool {
    &&& after.len() == before.len() + 1
    &&& forall|k: int| 0 <= k < before.len() ==> after[k] == before[k]
    &&& after[before.len() as int] == (ValueType::Texture, texture, None::<Seq<char>>)
}

/// Whether `texture` is a shader pass, boxed by itself or as a job.
pub open spec fn boxes(texture: ValueModel, bare: bool, pass: ShaderJobModel) -> bool {
    if bare {
        texture == ValueModel::Texture(HandleModel::Shader(pass))
    } else {
        texture == ValueModel::Texture(HandleModel::Job(JobModel::Shader(pass)))
    }
}

/// The shader pass of the texture that a table gained.
pub open spec fn gained_pass(
    before: Seq<TableEntry>,
    after: Seq<TableEntry>,
    bare: bool,
) -> ShaderJobModel {
    choose|pass: ShaderJobModel| boxes(after[before.len() as int].1, bare, pass)
}

/// Whether a table gained one shader pass.
pub open spec fn gains_pass(before: Seq<TableEntry>, after: Seq<TableEntry>, bare: bool) -> bool {
    gains_texture(before, after, after[before.len() as int].1) && boxes(
        after[before.len() as int].1,
        bare,
        gained_pass(before, after, bare),
    )
}

/// Whether a pass runs once, at `time`, for a node of the given type.
pub open spec fn runs_once(
    pass: ShaderJobModel,
    core: &NodeCore,
    time: Rational,
    type_id: Seq<char>,
    shader_id: Seq<char>,
) -> bool {
    &&& pass.node_id == NodeId(u64::MAX)
    &&& pass.time == time
    &&& pass.iterations == 1
    &&& pass.type_id == type_id
    &&& pass.shader_id == shader_id
    &&& pass.effect_input == core.effect_input@
}

/// The controls of the nodes that work on one texture.
pub open spec fn controls(kind: NodeKind) -> Seq<Seq<char>> {
    match kind {
        NodeKind::ColorCorrect => seq![
            "saturation_in"@,
            "contrast_in"@,
            "gamma_in"@,
            "gain_in"@,
            "offset_in"@,
        ],
        NodeKind::Saturation => seq!["saturation_in"@],
        NodeKind::Invert => seq![
            "invert_r_in"@,
            "invert_g_in"@,
            "invert_b_in"@,
            "invert_a_in"@,
        ],
        NodeKind::Clamp => seq!["min_in"@, "max_in"@],
        NodeKind::Grade => seq![
            "blackpoint_in"@,
            "whitepoint_in"@,
            "black_in"@,
            "white_in"@,
            "gamma_in"@,
        ],
        NodeKind::Unpremultiply => seq!["unpremult_channel_in"@],
        NodeKind::Position => seq!["offset_in"@],
        NodeKind::CheckerBoard => seq!["size_in"@, "color1_in"@, "color2_in"@],
        NodeKind::ColorBars => seq!["standard_in"@],
        NodeKind::Ramp => seq!["point0_in"@, "point1_in"@, "color0_in"@, "color1_in"@],
        _ => Seq::empty(),
    }
}

/// The controls that are handed over as numbers.
pub open spec fn numbers(kind: NodeKind) -> Seq<Seq<char>> {
    match kind {
        NodeKind::DirBlur => seq!["amount_in"@, "angle_in"@],
        NodeKind::Sharpen => seq!["amount_in"@],
        NodeKind::EdgeDetect => seq!["threshold_in"@],
        NodeKind::Erode => seq!["radius_in"@],
        NodeKind::Dissolve => seq!["mix_in"@],
        _ => Seq::empty(),
    }
}

/// Whether the node types box their passes by themselves.
pub open spec fn boxed_bare(kind: NodeKind) -> bool {
    !(kind == NodeKind::Saturation || kind == NodeKind::Grade || kind == NodeKind::Unpremultiply
        || kind == NodeKind::EdgeDetect || kind == NodeKind::Dissolve || kind
        == NodeKind::ColorBars || kind == NodeKind::Ramp)
}

/// The nodes that work on one texture through one shader.
pub open spec fn one_texture(kind: NodeKind) -> bool {
    kind == NodeKind::ColorCorrect || kind == NodeKind::Saturation || kind == NodeKind::Invert
        || kind == NodeKind::Clamp || kind == NodeKind::Grade || kind == NodeKind::Unpremultiply
        || kind == NodeKind::Position || kind == NodeKind::DirBlur || kind == NodeKind::Sharpen
        || kind == NodeKind::EdgeDetect || kind == NodeKind::Erode
}

/// Whether `params` holds, for `id`, what the node was given: the row's
/// value of every key the row has, the node's own value of every control
/// the row lacks, and nothing else. Controls that are numbers are handed
/// over as such.
pub open spec fn hands_over(
    kind: NodeKind,
    core: &NodeCore,
    row: Map<Seq<char>, ValueModel>,
    time: Rational,
    params: Map<Seq<char>, ValueModel>,
    id: Seq<char>,
) -> bool {
    &&& numbers(kind).contains(id) ==> params.contains_key(id) && forall|v: ValueModel| #[trigger]
        in_use(core, row, id, time, v) ==> params[id] == ValueModel::Float(v.number())
    &&& row.contains_key(id) && !numbers(kind).contains(id) ==> params.contains_key(id)
        && params[id] == row[id]
    &&& controls(kind).contains(id) && !row.contains_key(id) ==> params.contains_key(id)
        && node::is_own_value(core, id, -1i32, time, params[id])
    &&& params.contains_key(id) ==> row.contains_key(id) || controls(kind).contains(id) || numbers(
        kind,
    ).contains(id)
}

/// A pass that was pushed is the one that the table gained.
proof fn lemma_pushed_pass(
    before: Seq<TableEntry>,
    after: Seq<TableEntry>,
    bare: bool,
    pass: ShaderJobModel,
)
    requires
        after == before.push(
            if bare {
                effect::shader_entry(pass)
            } else {
                effect::job_entry(pass)
            },
        ),
    ensures
        gains_pass(before, after, bare),
        gained_pass(before, after, bare) == pass,
{
    assert(boxes(after[before.len() as int].1, bare, pass));
}

/// A list of texts holds what it is made of.
proof fn lemma_listed(list: Seq<Seq<char>>, id: Seq<char>)
    requires
        list.len() <= 5,
    ensures
        list.contains(id) <==> (list.len() > 0 && list[0] == id) || (list.len() > 1 && list[1]
            == id) || (list.len() > 2 && list[2] == id) || (list.len() > 3 && list[3] == id) || (
        list.len() > 4 && list[4] == id),
{
    if list.contains(id) {
        let k = choose|k: int| 0 <= k < list.len() && list[k] == id;
        assert(list[k] == id);
    }
}

/// What a node resolves is what it uses.
proof fn lemma_resolved_in_use(
    core: &NodeCore,
    row: Map<Seq<char>, ValueModel>,
    id: Seq<char>,
    time: Rational,
)
    ensures
        forall|v: ValueModel| #[trigger]
            in_use(core, row, id, time, v) ==> v == effect::resolved(core, row, id, time),
        !row.contains_key(id) ==> node::is_own_value(
            core,
            id,
            -1i32,
            time,
            effect::resolved(core, row, id, time),
        ),
{
    assert forall|v: ValueModel| #[trigger] in_use(core, row, id, time, v) implies v
        == effect::resolved(core, row, id, time) by {
        lemma_in_use(core, row, id, time, v);
    }
    lemma_in_use(core, row, id, time, ValueModel::Empty);
}

/// A node that works on one texture hands the row over to its shader, with
/// its own value for every control that the row lacks. Without a texture it
/// puts nothing out, and eroding by no radius hands the texture on.
pub proof fn law_controls_reach_the_shader(
    node: BuiltIn,
    core: &NodeCore,
    row: Map<Seq<char>, ValueModel>,
    time: Rational,
    before: Seq<TableEntry>,
    after: Seq<TableEntry>,
    radius: ValueModel,
    id: Seq<char>,
)
    requires
        one_texture(node.spec_kind()),
        node.emits(core, row, time, before, after),
        node is Erode ==> in_use(core, row, "radius_in"@, time, radius),
    ensures
        !carries_texture(row, "tex_in"@) ==> after == before,
        carries_texture(row, "tex_in"@) && node is Erode && radius.number().nonpositive()
            ==> gains_texture(before, after, row["tex_in"@]),
        carries_texture(row, "tex_in"@) && !(node is Erode && radius.number().nonpositive()) ==> {
            let kind = node.spec_kind();
            let pass = gained_pass(before, after, boxed_bare(kind));
            &&& gains_pass(before, after, boxed_bare(kind))
            &&& runs_once(pass, core, time, nodes::type_id_of(kind), ""@)
            &&& pass.iterative_input == (if node is Position {
                "tex_in"@
            } else {
                ""@
            })
            &&& hands_over(kind, core, row, time, pass.params, id)
        },
{
    let kind = node.spec_kind();
    lemma_listed(controls(kind), id);
    lemma_listed(numbers(kind), id);
    lemma_resolved_in_use(core, row, id, time);
    if node is Erode {
        lemma_in_use(core, row, "radius_in"@, time, radius);
    }
    if carries_texture(row, "tex_in"@) && !(node is Erode && radius.number().nonpositive()) {
        let pass = match after.last().1 {
            ValueModel::Texture(HandleModel::Shader(pass)) => pass,
            ValueModel::Texture(HandleModel::Job(JobModel::Shader(pass))) => pass,
            _ => arbitrary(),
        };
        lemma_pushed_pass(before, after, boxed_bare(kind), pass);
    }
}

/// Whether `texture` draws `top` over `bottom`.
pub open spec fn draws_over(
    texture: ValueModel,
    bare: bool,
    bottom: ValueModel,
    top: ValueModel,
    time: Rational,
) -> bool {
    exists|pass: ShaderJobModel| #[trigger]
        boxes(texture, bare, pass) && {
            &&& pass.node_id == NodeId(u64::MAX)
            &&& pass.time == time
            &&& pass.iterations == 1
            &&& pass.type_id == "org.olivevideoeditor.Olive.merge"@
            &&& pass.shader_id == "mrg"@
            &&& pass.effect_input == "base_in"@
            &&& pass.iterative_input == ""@
            &&& pass.params.dom() == set!["base_in"@, "blend_in"@]
            &&& pass.params["base_in"@] == bottom
            &&& pass.params["blend_in"@] == top
        }
}

/// The merge pass draws one texture over the other.
pub proof fn lemma_merge_draws_over(
    bottom: ValueModel,
    top: ValueModel,
    time: Rational,
    bare: bool,
)
    ensures
        ({
            let pass = nodes::generatorwithmerge::merge_pass(bottom, top, time);
            draws_over(
                if bare {
                    ValueModel::Texture(HandleModel::Shader(pass))
                } else {
                    ValueModel::Texture(HandleModel::Job(JobModel::Shader(pass)))
                },
                bare,
                bottom,
                top,
                time,
            )
        }),
{
    reveal_strlit("base_in");
    reveal_strlit("blend_in");
    assert("base_in"@.len() == 7 && "blend_in"@.len() == 8);
    reveal_strlit("");
    assert(""@ =~= Seq::empty());
    let pass = nodes::generatorwithmerge::merge_pass(bottom, top, time);
    let texture = if bare {
        ValueModel::Texture(HandleModel::Shader(pass))
    } else {
        ValueModel::Texture(HandleModel::Job(JobModel::Shader(pass)))
    };
    assert(boxes(texture, bare, pass));
    assert(pass.params.dom() =~= set!["base_in"@, "blend_in"@]);
}

/// A generator hands its controls over to its shader, and draws what the
/// shader makes over the backdrop, where the row has one.
pub proof fn law_generators_draw_over_the_backdrop(
    node: BuiltIn,
    core: &NodeCore,
    row: Map<Seq<char>, ValueModel>,
    time: Rational,
    before: Seq<TableEntry>,
    after: Seq<TableEntry>,
    id: Seq<char>,
) -> (pass: ShaderJobModel)
    requires
        node is CheckerBoard || node is ColorBars || node is Ramp,
        node.emits(core, row, time, before, after),
    ensures
        ({
            let kind = node.spec_kind();
            let texture = after[before.len() as int].1;
            &&& gains_texture(before, after, texture)
            &&& runs_once(
                pass,
                core,
                time,
                nodes::type_id_of(kind),
                match node {
                    BuiltIn::CheckerBoard(_) => "checkerboard"@,
                    BuiltIn::ColorBars(_) => "colorbars"@,
                    _ => "ramp"@,
                },
            )
            &&& pass.iterative_input == ""@
            &&& hands_over(kind, core, row, time, pass.params, id)
            &&& !carries_texture(row, "base_in"@) ==> boxes(texture, boxed_bare(kind), pass)
            &&& carries_texture(row, "base_in"@) ==> exists|top: ValueModel| #[trigger]
                boxes(top, boxed_bare(kind), pass) && draws_over(
                    texture,
                    boxed_bare(kind),
                    row["base_in"@],
                    top,
                    time,
                )
        }),
{
    let kind = node.spec_kind();
    lemma_listed(controls(kind), id);
    lemma_listed(numbers(kind), id);
    lemma_resolved_in_use(core, row, id, time);
    let texture = after[before.len() as int].1;
    let made = match node {
        BuiltIn::CheckerBoard(_) => effect::shader_pass(
            nodes::type_id_of(kind),
            "checkerboard"@,
            core,
            time,
            nodes::checkerboard::job_params(core, row, time),
            ""@,
        ),
        BuiltIn::ColorBars(_) => effect::shader_pass(
            nodes::type_id_of(kind),
            "colorbars"@,
            core,
            time,
            nodes::colorbars::job_params(core, row, time),
            ""@,
        ),
        _ => effect::shader_pass(
            nodes::type_id_of(kind),
            "ramp"@,
            core,
            time,
            nodes::ramp::job_params(core, row, time),
            ""@,
        ),
    };
    if carries_texture(row, "base_in"@) {
        let top = if boxed_bare(kind) {
            ValueModel::Texture(HandleModel::Shader(made))
        } else {
            ValueModel::Texture(HandleModel::Job(JobModel::Shader(made)))
        };
        assert(boxes(top, boxed_bare(kind), made));
        lemma_merge_draws_over(row["base_in"@], top, time, boxed_bare(kind));
    }
    made
}

/// A node over two textures hands the one it has on where the other is
/// missing, and puts nothing out where both are.
pub proof fn law_a_missing_texture_leaves_the_other(
    node: BuiltIn,
    core: &NodeCore,
    row: Map<Seq<char>, ValueModel>,
    time: Rational,
    before: Seq<TableEntry>,
    after: Seq<TableEntry>,
)
    requires
        node is Dissolve || node is KeyMix || node is Transition || node is TransitionFx,
        node.emits(core, row, time, before, after),
    ensures
        !carries_texture(row, "tex_in"@) && !carries_texture(row, "blend_in"@) ==> after == before,
        carries_texture(row, "tex_in"@) && !carries_texture(row, "blend_in"@) ==> gains_texture(
            before,
            after,
            row["tex_in"@],
        ),
        !carries_texture(row, "tex_in"@) && carries_texture(row, "blend_in"@) ==> gains_texture(
            before,
            after,
            row["blend_in"@],
        ),
        carries_texture(row, "tex_in"@) && carries_texture(row, "blend_in"@) ==> gains_pass(
            before,
            after,
            boxed_bare(node.spec_kind()),
        ),
{
    if carries_texture(row, "tex_in"@) && carries_texture(row, "blend_in"@) {
        let pass = match after.last().1 {
            ValueModel::Texture(HandleModel::Shader(pass)) => pass,
            ValueModel::Texture(HandleModel::Job(JobModel::Shader(pass))) => pass,
            _ => arbitrary(),
        };
        assert(after =~= before.push(after.last()));
        lemma_pushed_pass(before, after, boxed_bare(node.spec_kind()), pass);
    }
}

/// The pass of a node over two textures.
proof fn lemma_pair_pass(
    node: BuiltIn,
    core: &NodeCore,
    row: Map<Seq<char>, ValueModel>,
    time: Rational,
    before: Seq<TableEntry>,
    after: Seq<TableEntry>,
    pass: ShaderJobModel,
)
    requires
        after == before + effect::pair_entries(
            row,
            "tex_in"@,
            "blend_in"@,
            if boxed_bare(node.spec_kind()) {
                effect::shader_entry(pass)
            } else {
                effect::job_entry(pass)
            },
        ),
        carries_texture(row, "tex_in"@),
        carries_texture(row, "blend_in"@),
    ensures
        gained_pass(before, after, boxed_bare(node.spec_kind())) == pass,
{
    assert(after =~= before.push(after.last()));
    lemma_pushed_pass(before, after, boxed_bare(node.spec_kind()), pass);
}

/// Dissolving and keyed mixing hand the row over to the shader. Dissolving
/// adds how far it is.
pub proof fn law_mixes_hand_the_row_over(
    node: BuiltIn,
    core: &NodeCore,
    row: Map<Seq<char>, ValueModel>,
    time: Rational,
    before: Seq<TableEntry>,
    after: Seq<TableEntry>,
    id: Seq<char>,
)
    requires
        node is Dissolve || node is KeyMix,
        node.emits(core, row, time, before, after),
        carries_texture(row, "tex_in"@),
        carries_texture(row, "blend_in"@),
    ensures
        ({
            let kind = node.spec_kind();
            let pass = gained_pass(before, after, boxed_bare(kind));
            &&& runs_once(pass, core, time, nodes::type_id_of(kind), ""@)
            &&& pass.iterative_input == ""@
            &&& hands_over(kind, core, row, time, pass.params, id)
        }),
{
    let kind = node.spec_kind();
    lemma_listed(controls(kind), id);
    lemma_listed(numbers(kind), id);
    lemma_resolved_in_use(core, row, id, time);
    let params = if node is Dissolve {
        nodes::dissolve::job_params(core, row, time)
    } else {
        row
    };
    let pass = effect::shader_pass(nodes::type_id_of(kind), ""@, core, time, params, ""@);
    lemma_pair_pass(node, core, row, time, before, after, pass);
}

/// The shaders of the transitions, by style.
pub open spec fn transition_shaders() -> Seq<Seq<char>> {
    seq!["crossdissolve"@, "fade"@, "wipe"@, "slide"@]
}

/// A transition runs the shader of its style: the one that the combo names,
/// the first for a smaller number and the last for a larger one. It hands
/// the row over, with the style as a combo value. The simple transitions
/// hand their progress over as a number; the others leave it out where it
/// was never set, so that the progress of the clip counts.
pub proof fn law_transitions_run_the_shader_of_their_style(
    node: BuiltIn,
    core: &NodeCore,
    row: Map<Seq<char>, ValueModel>,
    time: Rational,
    before: Seq<TableEntry>,
    after: Seq<TableEntry>,
    style: i64,
    id: Seq<char>,
)
    requires
        node is Transition || node is TransitionFx,
        node.emits(core, row, time, before, after),
        carries_texture(row, "tex_in"@),
        carries_texture(row, "blend_in"@),
        -0x20_0000_0000_0000 < style < 0x20_0000_0000_0000,
        in_use(core, row, "type_in"@, time, ValueModel::Combo(style)),
    ensures
        ({
            let pass = gained_pass(before, after, true);
            &&& runs_once(
                pass,
                core,
                time,
                nodes::type_id_of(node.spec_kind()),
                transition_shaders()[if style < 0 {
                    0
                } else if style > 3 {
                    3
                } else {
                    style as int
                }],
            )
            &&& pass.iterative_input == ""@
            &&& pass.params.contains_key("type_in"@)
            &&& pass.params["type_in"@] == ValueModel::Combo(style)
            &&& row.contains_key(id) && id != "type_in"@ && id != "progress_in"@
                ==> pass.params.contains_key(id) && pass.params[id] == row[id]
            &&& !row.contains_key(id) && id != "type_in"@ && id != "progress_in"@
                ==> !pass.params.contains_key(id)
            &&& node is Transition ==> pass.params.contains_key("progress_in"@) && forall|
                v: ValueModel,
            | #[trigger]
                in_use(core, row, "progress_in"@, time, v) ==> pass.params["progress_in"@]
                    == ValueModel::Float(v.number())
            &&& node is TransitionFx ==> {
                let set = (row.contains_key("progress_in"@) && !row["progress_in"@].number().zero())
                    || exists|j: int| #[trigger]
                    node::is_last_track(core.tracks@, j, "progress_in"@, -1i32);
                &&& set && row.contains_key("progress_in"@) ==> pass.params.contains_key(
                    "progress_in"@,
                ) && pass.params["progress_in"@] == row["progress_in"@]
                &&& !set || !row.contains_key("progress_in"@) ==> !pass.params.contains_key(
                    "progress_in"@,
                )
            }
        }),
{
    reveal_strlit("type_in");
    reveal_strlit("progress_in");
    assert("type_in"@.len() == 7 && "progress_in"@.len() == 11);
    lemma_in_use(core, row, "type_in"@, time, ValueModel::Combo(style));
    lemma_resolved_in_use(core, row, "progress_in"@, time);
    node::lemma_keyframing(core, "progress_in"@, -1i32);
    double::law_small_integers_survive(style as int);
    let kind = node.spec_kind();
    let params = if node is Transition {
        nodes::transitions::job_params(core, row, time)
    } else {
        nodes::transitionfx::job_params(core, row, time)
    };
    let shader = if node is Transition {
        nodes::transitions::SHADER_IDS@[nodes::transitions::style_index(style)]@
    } else {
        nodes::transitionfx::SHADER_IDS@[nodes::transitionfx::style_index(style)]@
    };
    let pass = effect::shader_pass(nodes::type_id_of(kind), shader, core, time, params, ""@);
    lemma_pair_pass(node, core, row, time, before, after, pass);
}

/// Whether a toggle is on: a boolean says so itself, and a number is on
/// unless it is zero.
pub open spec fn is_on(value: ValueModel) -> bool {
    match value {
        ValueModel::Boolean(b) => b,
        other => other.number().bits != 0 && other.number().bits != 0x8000_0000_0000_0000,
    }
}

/// Mirroring hands the texture on where neither direction is on. Else the
/// flip shader gets both directions as booleans, under its own names, and
/// everything else of the row.
pub proof fn law_mirroring_flips_what_is_on(
    node: BuiltIn,
    core: &NodeCore,
    row: Map<Seq<char>, ValueModel>,
    time: Rational,
    before: Seq<TableEntry>,
    after: Seq<TableEntry>,
    across: ValueModel,
    down: ValueModel,
    id: Seq<char>,
)
    requires
        node is Mirror,
        node.emits(core, row, time, before, after),
        in_use(core, row, "horizontal_in"@, time, across),
        in_use(core, row, "vertical_in"@, time, down),
    ensures
        !carries_texture(row, "tex_in"@) ==> after == before,
        carries_texture(row, "tex_in"@) && !is_on(across) && !is_on(down) ==> gains_texture(
            before,
            after,
            row["tex_in"@],
        ),
        carries_texture(row, "tex_in"@) && (is_on(across) || is_on(down)) ==> {
            let pass = gained_pass(before, after, true);
            &&& gains_pass(before, after, true)
            &&& runs_once(pass, core, time, nodes::type_id_of(NodeKind::Mirror), ""@)
            &&& pass.iterative_input == "tex_in"@
            &&& pass.params.contains_key("horiz_in"@)
            &&& pass.params["horiz_in"@] == ValueModel::Boolean(is_on(across))
            &&& pass.params.contains_key("vert_in"@)
            &&& pass.params["vert_in"@] == ValueModel::Boolean(is_on(down))
            &&& !pass.params.contains_key("horizontal_in"@)
            &&& !pass.params.contains_key("vertical_in"@)
            &&& id != "horizontal_in"@ && id != "vertical_in"@ && id != "horiz_in"@ && id
                != "vert_in"@ ==> (pass.params.contains_key(id) <==> row.contains_key(id)) && (
            row.contains_key(id) ==> pass.params[id] == row[id])
        },
{
    reveal_strlit("horizontal_in");
    reveal_strlit("vertical_in");
    reveal_strlit("horiz_in");
    reveal_strlit("vert_in");
    assert("horizontal_in"@.len() == 13 && "vertical_in"@.len() == 11);
    assert("horiz_in"@.len() == 8 && "vert_in"@.len() == 7);
    lemma_in_use(core, row, "horizontal_in"@, time, across);
    lemma_in_use(core, row, "vertical_in"@, time, down);
    if carries_texture(row, "tex_in"@) && (is_on(across) || is_on(down)) {
        let pass = match after.last().1 {
            ValueModel::Texture(HandleModel::Shader(pass)) => pass,
            _ => arbitrary(),
        };
        lemma_pushed_pass(before, after, true, pass);
    }
}

/// The color matrix reaches its shader as one value: its element in row `i`
/// and column `j` is the number in use on the input called `m`, then
/// `4 * i + j` in decimal. Everything of the row is handed over too.
pub proof fn law_the_matrix_is_packed_by_rows(
    node: BuiltIn,
    core: &NodeCore,
    row: Map<Seq<char>, ValueModel>,
    time: Rational,
    before: Seq<TableEntry>,
    after: Seq<TableEntry>,
    i: int,
    j: int,
    value: ValueModel,
    id: Seq<char>,
)
    requires
        node is ColorMatrix,
        node.emits(core, row, time, before, after),
        0 <= i < 4,
        0 <= j < 4,
        in_use(core, row, seq!['m'] + text::decimal((4 * i + j) as nat), time, value),
    ensures
        !carries_texture(row, "tex_in"@) ==> after == before,
        carries_texture(row, "tex_in"@) ==> {
            let pass = gained_pass(before, after, false);
            &&& gains_pass(before, after, false)
            &&& runs_once(pass, core, time, nodes::type_id_of(NodeKind::ColorMatrix), ""@)
            &&& pass.iterative_input == ""@
            &&& pass.params.contains_key("matrix_in"@)
            &&& pass.params["matrix_in"@] matches ValueModel::Matrix(elements) && elements.len()
                == 16 && elements[4 * i + j] == value.number()
            &&& id != "matrix_in"@ ==> (pass.params.contains_key(id) <==> row.contains_key(id)) && (
            row.contains_key(id) ==> pass.params[id] == row[id])
        },
{
    lemma_matrix_names(4 * i + j);
    lemma_in_use(core, row, seq!['m'] + text::decimal((4 * i + j) as nat), time, value);
    if carries_texture(row, "tex_in"@) {
        let pass = match after.last().1 {
            ValueModel::Texture(HandleModel::Job(JobModel::Shader(pass))) => pass,
            _ => arbitrary(),
        };
        lemma_pushed_pass(before, after, false, pass);
    }
}

/// The matrix inputs are numbered in order.
proof fn lemma_matrix_names(n: int)
    requires
        0 <= n < 16,
    ensures
        nodes::colormatrix::MATRIX_INPUTS@[n]@ == seq!['m'] + text::decimal(n as nat),
{
    reveal_with_fuel(text::decimal, 3);
    reveal_strlit("m0");
    reveal_strlit("m1");
    reveal_strlit("m2");
    reveal_strlit("m3");
    reveal_strlit("m4");
    reveal_strlit("m5");
    reveal_strlit("m6");
    reveal_strlit("m7");
    reveal_strlit("m8");
    reveal_strlit("m9");
    reveal_strlit("m10");
    reveal_strlit("m11");
    reveal_strlit("m12");
    reveal_strlit("m13");
    reveal_strlit("m14");
    reveal_strlit("m15");
    let names = nodes::colormatrix::MATRIX_INPUTS@;
    assert(names[n]@ =~= seq!['m'] + text::decimal(n as nat));
}

/// The code of a style is found under the shader id of the style.
pub proof fn law_styles_have_their_code(request: &str, r: Option<String>, fx: Option<String>)
    requires
        call_ensures(
            <TransitionNode as NodeBehavior>::shader_code,
            (&TransitionNode, request),
            r,
        ),
        call_ensures(
            <TransitionFxNode as NodeBehavior>::shader_code,
            (&TransitionFxNode, request),
            fx,
        ),
    ensures
        r is Some,
        fx is Some,
        request@ == transition_shaders()[0] ==> r->Some_0@
            == nodes::transitions::SHADER_CROSSDISSOLVE@ && fx->Some_0@
            == nodes::transitionfx::SHADER_CROSSDISSOLVE@,
        request@ == transition_shaders()[1] ==> r->Some_0@ == nodes::transitions::SHADER_FADE@
            && fx->Some_0@ == nodes::transitionfx::SHADER_FADE@,
        request@ == transition_shaders()[2] ==> r->Some_0@ == nodes::transitions::SHADER_WIPE@
            && fx->Some_0@ == nodes::transitionfx::SHADER_WIPE@,
        request@ == transition_shaders()[3] ==> r->Some_0@ == nodes::transitions::SHADER_SLIDE@
            && fx->Some_0@ == nodes::transitionfx::SHADER_SLIDE@,
{
    reveal_strlit("crossdissolve");
    reveal_strlit("fade");
    reveal_strlit("wipe");
    reveal_strlit("slide");
    assert("crossdissolve"@.len() == 13 && "slide"@.len() == 5);
    assert("fade"@[0] == 'f' && "wipe"@[0] == 'w');
    assert("fade"@.len() == 4 && "wipe"@.len() == 4);
}

/// The controls of a node are the inputs it declares that are no textures,
/// but for the one that every node has.
pub proof fn law_controls_are_the_declared_inputs(kind: NodeKind, core: &NodeCore, at: int)
    requires
        one_texture(kind) || kind == NodeKind::Dissolve || kind == NodeKind::KeyMix || kind
            == NodeKind::CheckerBoard || kind == NodeKind::ColorBars || kind == NodeKind::Ramp,
        kind.created(core),
        0 <= at < core.inputs@.len(),
    ensures
        ({
            let declared = core.inputs@[at];
            declared.id@ == "enabled_in"@ || declared.value_type == ValueType::Texture || controls(
                kind,
            ).contains(declared.id@) || numbers(kind).contains(declared.id@)
        }),
{
    let id = core.inputs@[at].id@;
    let list = match kind {
        NodeKind::ColorCorrect => nodes::colorcorrect::declared(),
        NodeKind::Saturation => nodes::saturation::declared(),
        NodeKind::Invert => nodes::invert::declared(),
        NodeKind::Clamp => nodes::clamp::declared(),
        NodeKind::Grade => nodes::grade::declared(),
        NodeKind::Unpremultiply => nodes::unpremult::declared(),
        NodeKind::Position => nodes::position::declared(),
        NodeKind::DirBlur => nodes::dirblur::declared(),
        NodeKind::Sharpen => nodes::sharpen::declared(),
        NodeKind::EdgeDetect => nodes::edgedetect::declared(),
        NodeKind::Erode => nodes::erode::declared(),
        NodeKind::Dissolve => nodes::dissolve::declared(),
        NodeKind::KeyMix => nodes::keymix::declared(),
        NodeKind::CheckerBoard => nodes::checkerboard::declared(),
        NodeKind::ColorBars => nodes::colorbars::declared(),
        _ => nodes::ramp::declared(),
    };
    assert(core.input_models() == seq![node::enabled_input()] + list);
    assert(core.input_models()[at] == core.inputs@[at]@);
    assert(list.len() <= 6);
    if at > 0 {
        assert(core.input_models()[at] == list[at - 1]);
        assert(at == 1 || at == 2 || at == 3 || at == 4 || at == 5 || at == 6);
    }
    lemma_listed(controls(kind), id);
    lemma_listed(numbers(kind), id);
}

} // verus!
