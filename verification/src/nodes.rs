//! The built-in node types, one module each.

pub mod checkerboard;
pub mod clamp;
pub mod colorbars;
pub mod colorcorrect;
pub mod colormatrix;
pub mod compositesource;
pub mod dirblur;
pub mod dissolve;
pub mod drawing;
pub mod edgedetect;
pub mod effect;
pub mod erode;
pub mod flipdistortnode;
pub mod generatorwithmerge;
pub mod grade;
pub mod graphendpoints;
pub mod invert;
pub mod keymix;
pub mod merge;
pub mod mirror;
pub mod ociobase;
pub mod position;
pub mod ramp;
pub mod saturation;
pub mod shapenodebase;
pub mod sharpen;
pub mod textbackend;
pub mod textpost;
pub mod textv3;
pub mod transitionfx;
pub mod transitions;
pub mod uniforms;
pub mod unpremult;

use vstd::prelude::*;

use crate::builtin::BuiltIn;
use crate::factory;
use crate::factory::{Factory, NodeKind, NodeMeta};
use crate::input;
use crate::input::InputModel;
use crate::node::{Category, NodeBehavior, NodeCore};
use crate::nodes::textbackend::TextBackends;
use crate::rational::Rational;
use crate::value::{NodeValueRow, NodeValueTable, TableEntry, ValueModel, ValueType};

verus! {

/// The behavior of a slot without a node: no names and no outputs.
pub struct EmptyBehavior;

impl NodeBehavior for EmptyBehavior {
    open spec fn spec_name(&self) -> Seq<char> {
        ""@
    }

    open spec fn spec_type_id(&self) -> Seq<char> {
        ""@
    }

    open spec fn emits(
        &self,
        core: &NodeCore,
        row: Map<Seq<char>, ValueModel>,
        time: Rational,
        before: Seq<TableEntry>,
        after: Seq<TableEntry>,
    ) -> bool {
        after == before
    }

    fn name(&self) -> (r: &str) {
        ""
    }

    fn type_id(&self) -> (r: &str) {
        ""
    }

    fn value(
        &self,
        core: &NodeCore,
        inputs: &NodeValueRow,
        time: Rational,
        table: &mut NodeValueTable,
    ) {
    }

    fn duplicate(&self, core: &NodeCore) -> (r: Option<Self>)
        ensures
            r == Some(EmptyBehavior),
    {
        Some(EmptyBehavior)
    }
}

/// The built-in node types in registration order.
pub open spec fn built_in() -> Seq<NodeKind> {
    seq![
        NodeKind::Text,
        NodeKind::Transition,
        NodeKind::TransitionFx,
        NodeKind::ColorMatrix,
        NodeKind::EdgeDetect,
        NodeKind::Erode,
        NodeKind::ColorCorrect,
        NodeKind::Saturation,
        NodeKind::Invert,
        NodeKind::Clamp,
        NodeKind::Grade,
        NodeKind::DirBlur,
        NodeKind::Sharpen,
        NodeKind::Dissolve,
        NodeKind::KeyMix,
        NodeKind::Unpremultiply,
        NodeKind::Position,
        NodeKind::Mirror,
        NodeKind::CheckerBoard,
        NodeKind::ColorBars,
        NodeKind::Ramp,
        NodeKind::GraphInput,
        NodeKind::GraphOutput,
    ]
}

/// The type id of a built-in node type.
pub open spec fn type_id_of(kind: NodeKind) -> Seq<char> {
    match kind {
        NodeKind::Text => "org.olivevideoeditor.Olive.text3"@,
        NodeKind::Transition => "org.olivevideoeditor.Olive.transition"@,
        NodeKind::TransitionFx => "org.olivevideoeditor.Olive.transitionfx"@,
        NodeKind::ColorMatrix => "org.olivevideoeditor.Olive.colormatrix"@,
        NodeKind::EdgeDetect => "org.olivevideoeditor.Olive.edgedetect"@,
        NodeKind::Erode => "org.olivevideoeditor.Olive.erode"@,
        NodeKind::ColorCorrect => "org.olivevideoeditor.Olive.colorcorrect"@,
        NodeKind::Saturation => "org.olivevideoeditor.Olive.saturation"@,
        NodeKind::Invert => "org.olivevideoeditor.Olive.invert"@,
        NodeKind::Clamp => "org.olivevideoeditor.Olive.clamp"@,
        NodeKind::Grade => "org.olivevideoeditor.Olive.grade"@,
        NodeKind::DirBlur => "org.olivevideoeditor.Olive.dirblur"@,
        NodeKind::Sharpen => "org.olivevideoeditor.Olive.sharpen"@,
        NodeKind::Dissolve => "org.olivevideoeditor.Olive.dissolve"@,
        NodeKind::KeyMix => "org.olivevideoeditor.Olive.keymix"@,
        NodeKind::Unpremultiply => "org.olivevideoeditor.Olive.unpremult"@,
        NodeKind::Position => "org.olivevideoeditor.Olive.position"@,
        NodeKind::Mirror => "org.olivevideoeditor.Olive.mirror"@,
        NodeKind::CheckerBoard => "org.olivevideoeditor.Olive.checkerboard"@,
        NodeKind::ColorBars => "org.olivevideoeditor.Olive.colorbars"@,
        NodeKind::Ramp => "org.olivevideoeditor.Olive.ramp"@,
        NodeKind::GraphInput => "org.olivevideoeditor.Olive.graphinput"@,
        NodeKind::GraphOutput => "org.olivevideoeditor.Olive.graphoutput"@,
    }
}

/// The name of a built-in node type.
pub open spec fn name_of(kind: NodeKind) -> Seq<char> {
    match kind {
        NodeKind::Text => "Text"@,
        NodeKind::Transition => "Transition"@,
        NodeKind::TransitionFx => "Transition FX"@,
        NodeKind::ColorMatrix => "Color Matrix"@,
        NodeKind::EdgeDetect => "Edge Detect"@,
        NodeKind::Erode => "Erode"@,
        NodeKind::ColorCorrect => "Color Correct"@,
        NodeKind::Saturation => "Saturation"@,
        NodeKind::Invert => "Invert"@,
        NodeKind::Clamp => "Clamp"@,
        NodeKind::Grade => "Grade"@,
        NodeKind::DirBlur => "Directional Blur"@,
        NodeKind::Sharpen => "Sharpen"@,
        NodeKind::Dissolve => "Dissolve"@,
        NodeKind::KeyMix => "KeyMix"@,
        NodeKind::Unpremultiply => "Unpremultiply"@,
        NodeKind::Position => "Position"@,
        NodeKind::Mirror => "Mirror"@,
        NodeKind::CheckerBoard => "Checkerboard"@,
        NodeKind::ColorBars => "Color Bars"@,
        NodeKind::Ramp => "Ramp"@,
        NodeKind::GraphInput => "Graph Input"@,
        NodeKind::GraphOutput => "Graph Output"@,
    }
}

/// The group of a built-in node type.
pub open spec fn category_of(kind: NodeKind) -> Category {
    match kind {
        NodeKind::Text => Category::Generator,
        NodeKind::Transition => Category::Timeline,
        NodeKind::TransitionFx => Category::Effect,
        NodeKind::ColorMatrix => Category::Color,
        NodeKind::EdgeDetect => Category::Filter,
        NodeKind::Erode => Category::Filter,
        NodeKind::ColorCorrect => Category::Color,
        NodeKind::Saturation => Category::Color,
        NodeKind::Invert => Category::Color,
        NodeKind::Clamp => Category::Color,
        NodeKind::Grade => Category::Color,
        NodeKind::DirBlur => Category::Filter,
        NodeKind::Sharpen => Category::Filter,
        NodeKind::Dissolve => Category::Math,
        NodeKind::KeyMix => Category::Math,
        NodeKind::Unpremultiply => Category::Math,
        NodeKind::Position => Category::Distort,
        NodeKind::Mirror => Category::Distort,
        NodeKind::CheckerBoard => Category::Generator,
        NodeKind::ColorBars => Category::Generator,
        NodeKind::Ramp => Category::Generator,
        NodeKind::GraphInput => Category::Input,
        NodeKind::GraphOutput => Category::Output,
    }
}

/// Whether `entries` registers `kinds` in order, each under its names.
pub open spec fn lists(entries: Seq<NodeMeta>, kinds: Seq<NodeKind>) -> bool {
    &&& entries.len() == kinds.len()
    &&& forall|i: int|
        0 <= i < kinds.len() ==> (#[trigger] entries[i]).describes(
            type_id_of(kinds[i]),
            name_of(kinds[i]),
            seq![category_of(kinds[i])],
            kinds[i],
        )
}

/// One more entry keeps a list in order.
proof fn lemma_one_more(before: Seq<NodeMeta>, after: Seq<NodeMeta>, n: int)
    requires
        0 <= n < built_in().len(),
        lists(before, built_in().subrange(0, n)),
        factory::registered(
            before,
            after,
            type_id_of(built_in()[n]),
            name_of(built_in()[n]),
            seq![category_of(built_in()[n])],
            built_in()[n],
        ),
    ensures
        lists(after, built_in().subrange(0, n + 1)),
{
    assert forall|i: int| 0 <= i < n + 1 implies (#[trigger] after[i]).describes(
        type_id_of(built_in().subrange(0, n + 1)[i]),
        name_of(built_in().subrange(0, n + 1)[i]),
        seq![category_of(built_in().subrange(0, n + 1)[i])],
        built_in().subrange(0, n + 1)[i],
    ) by {
        if i < n {
            assert(after.drop_last()[i] == before[i]);
            assert(built_in().subrange(0, n)[i] == built_in()[i]);
        }
    }
}

/// Register every built-in node type: a factory without text hooks.
pub fn register_all() -> (r: Factory)
    ensures
        lists(r.entries@, built_in()),
        r.backends.measure is None,
        r.backends.render is None,
{
    let mut meta: Vec<NodeMeta> = Vec::new();
    let ghost mut before = meta@;
    textv3::register(&mut meta);
    proof {
        lemma_one_more(before, meta@, 0);
        before = meta@;
    }
    transitions::register(&mut meta);
    proof {
        lemma_one_more(before, meta@, 1);
        before = meta@;
    }
    transitionfx::register(&mut meta);
    proof {
        lemma_one_more(before, meta@, 2);
        before = meta@;
    }
    colormatrix::register(&mut meta);
    proof {
        lemma_one_more(before, meta@, 3);
        before = meta@;
    }
    edgedetect::register(&mut meta);
    proof {
        lemma_one_more(before, meta@, 4);
        before = meta@;
    }
    erode::register(&mut meta);
    proof {
        lemma_one_more(before, meta@, 5);
        before = meta@;
    }
    colorcorrect::register(&mut meta);
    proof {
        lemma_one_more(before, meta@, 6);
        before = meta@;
    }
    saturation::register(&mut meta);
    proof {
        lemma_one_more(before, meta@, 7);
        before = meta@;
    }
    invert::register(&mut meta);
    proof {
        lemma_one_more(before, meta@, 8);
        before = meta@;
    }
    clamp::register(&mut meta);
    proof {
        lemma_one_more(before, meta@, 9);
        before = meta@;
    }
    grade::register(&mut meta);
    proof {
        lemma_one_more(before, meta@, 10);
        before = meta@;
    }
    dirblur::register(&mut meta);
    proof {
        lemma_one_more(before, meta@, 11);
        before = meta@;
    }
    sharpen::register(&mut meta);
    proof {
        lemma_one_more(before, meta@, 12);
        before = meta@;
    }
    dissolve::register(&mut meta);
    proof {
        lemma_one_more(before, meta@, 13);
        before = meta@;
    }
    keymix::register(&mut meta);
    proof {
        lemma_one_more(before, meta@, 14);
        before = meta@;
    }
    unpremult::register(&mut meta);
    proof {
        lemma_one_more(before, meta@, 15);
        before = meta@;
    }
    position::register(&mut meta);
    proof {
        lemma_one_more(before, meta@, 16);
        before = meta@;
    }
    mirror::register(&mut meta);
    proof {
        lemma_one_more(before, meta@, 17);
        before = meta@;
    }
    checkerboard::register(&mut meta);
    proof {
        lemma_one_more(before, meta@, 18);
        before = meta@;
    }
    colorbars::register(&mut meta);
    proof {
        lemma_one_more(before, meta@, 19);
        before = meta@;
    }
    ramp::register(&mut meta);
    proof {
        lemma_one_more(before, meta@, 20);
        before = meta@;
    }
    graphendpoints::register(&mut meta);
    assert(lists(meta@, built_in())) by {
        assert forall|i: int| 0 <= i < built_in().len() implies (#[trigger] meta@[i]).describes(
            type_id_of(built_in()[i]),
            name_of(built_in()[i]),
            seq![category_of(built_in()[i])],
            built_in()[i],
        ) by {
            if i < before.len() {
                assert(meta@.subrange(0, before.len() as int)[i] == before[i]);
                assert(built_in().subrange(0, 21)[i] == built_in()[i]);
            }
        }
    }
    Factory::install(meta)
}

/// What tells the built-in type ids apart: their length and the two
/// characters behind the common prefix.
spec fn signature(type_id: Seq<char>) -> (nat, char, char) {
    (type_id.len(), type_id[27], type_id[28])
}

/// The signature of each built-in type id.
spec fn signature_of(kind: NodeKind) -> (nat, char, char) {
    match kind {
        NodeKind::Text => (32, 't', 'e'),
        NodeKind::Transition => (37, 't', 'r'),
        NodeKind::TransitionFx => (39, 't', 'r'),
        NodeKind::ColorMatrix => (38, 'c', 'o'),
        NodeKind::EdgeDetect => (37, 'e', 'd'),
        NodeKind::Erode => (32, 'e', 'r'),
        NodeKind::ColorCorrect => (39, 'c', 'o'),
        NodeKind::Saturation => (37, 's', 'a'),
        NodeKind::Invert => (33, 'i', 'n'),
        NodeKind::Clamp => (32, 'c', 'l'),
        NodeKind::Grade => (32, 'g', 'r'),
        NodeKind::DirBlur => (34, 'd', 'i'),
        NodeKind::Sharpen => (34, 's', 'h'),
        NodeKind::Dissolve => (35, 'd', 'i'),
        NodeKind::KeyMix => (33, 'k', 'e'),
        NodeKind::Unpremultiply => (36, 'u', 'n'),
        NodeKind::Position => (35, 'p', 'o'),
        NodeKind::Mirror => (33, 'm', 'i'),
        NodeKind::CheckerBoard => (39, 'c', 'h'),
        NodeKind::ColorBars => (36, 'c', 'o'),
        NodeKind::Ramp => (31, 'r', 'a'),
        NodeKind::GraphInput => (37, 'g', 'r'),
        NodeKind::GraphOutput => (38, 'g', 'r'),
    }
}

/// Every built-in type id has its signature.
proof fn lemma_signature(kind: NodeKind)
    ensures
        signature(type_id_of(kind)) == signature_of(kind),
{
    match kind {
        NodeKind::Text => {
            reveal_strlit("org.olivevideoeditor.Olive.text3");
        },
        NodeKind::Transition => {
            reveal_strlit("org.olivevideoeditor.Olive.transition");
        },
        NodeKind::TransitionFx => {
            reveal_strlit("org.olivevideoeditor.Olive.transitionfx");
        },
        NodeKind::ColorMatrix => {
            reveal_strlit("org.olivevideoeditor.Olive.colormatrix");
        },
        NodeKind::EdgeDetect => {
            reveal_strlit("org.olivevideoeditor.Olive.edgedetect");
        },
        NodeKind::Erode => {
            reveal_strlit("org.olivevideoeditor.Olive.erode");
        },
        NodeKind::ColorCorrect => {
            reveal_strlit("org.olivevideoeditor.Olive.colorcorrect");
        },
        NodeKind::Saturation => {
            reveal_strlit("org.olivevideoeditor.Olive.saturation");
        },
        NodeKind::Invert => {
            reveal_strlit("org.olivevideoeditor.Olive.invert");
        },
        NodeKind::Clamp => {
            reveal_strlit("org.olivevideoeditor.Olive.clamp");
        },
        NodeKind::Grade => {
            reveal_strlit("org.olivevideoeditor.Olive.grade");
        },
        NodeKind::DirBlur => {
            reveal_strlit("org.olivevideoeditor.Olive.dirblur");
        },
        NodeKind::Sharpen => {
            reveal_strlit("org.olivevideoeditor.Olive.sharpen");
        },
        NodeKind::Dissolve => {
            reveal_strlit("org.olivevideoeditor.Olive.dissolve");
        },
        NodeKind::KeyMix => {
            reveal_strlit("org.olivevideoeditor.Olive.keymix");
        },
        NodeKind::Unpremultiply => {
            reveal_strlit("org.olivevideoeditor.Olive.unpremult");
        },
        NodeKind::Position => {
            reveal_strlit("org.olivevideoeditor.Olive.position");
        },
        NodeKind::Mirror => {
            reveal_strlit("org.olivevideoeditor.Olive.mirror");
        },
        NodeKind::CheckerBoard => {
            reveal_strlit("org.olivevideoeditor.Olive.checkerboard");
        },
        NodeKind::ColorBars => {
            reveal_strlit("org.olivevideoeditor.Olive.colorbars");
        },
        NodeKind::Ramp => {
            reveal_strlit("org.olivevideoeditor.Olive.ramp");
        },
        NodeKind::GraphInput => {
            reveal_strlit("org.olivevideoeditor.Olive.graphinput");
        },
        NodeKind::GraphOutput => {
            reveal_strlit("org.olivevideoeditor.Olive.graphoutput");
        },
    }
}

/// Different built-in node types have different type ids.
pub proof fn law_type_ids_are_unique(a: NodeKind, b: NodeKind)
    requires
        a != b,
    ensures
        type_id_of(a) != type_id_of(b),
{
    lemma_signature(a);
    lemma_signature(b);
}

/// A new node of a built-in type has the names that the type is registered
/// under.
pub proof fn law_created_nodes_have_their_names(
    kind: NodeKind,
    backends: TextBackends,
    made: BuiltIn,
)
    requires
        kind.makes(backends, made),
    ensures
        made.spec_kind() == kind,
        made.spec_type_id() == type_id_of(kind),
        made.spec_name() == name_of(kind),
{
}

/// Whether an input is no texture, or one that cannot be keyframed and has
/// no value of its own.
pub open spec fn is_steady_texture(declared: InputModel) -> bool {
    declared.value_type == ValueType::Texture ==> declared.flags & input::flags::NOT_KEYFRAMABLE
        != 0 && declared.default == ValueModel::Empty
}

/// The effect input of a new node, where it has one, is a texture input,
/// and a texture input cannot be keyframed and has no default value.
pub proof fn law_effect_inputs_are_textures(kind: NodeKind, core: &NodeCore)
    requires
        kind.created(core),
    ensures
        core.effect_input@.len() == 0 || (input::find_input(
            core.input_models(),
            core.effect_input@,
        ) matches Some(declared) && declared.value_type == ValueType::Texture),
        forall|i: int|
            0 <= i < core.input_models().len() ==> is_steady_texture(
                #[trigger] core.input_models()[i],
            ),
{
    let models = core.input_models();
    assert(input::flags::NOT_KEYFRAMABLE & input::flags::NOT_KEYFRAMABLE != 0) by (bit_vector);
    reveal_strlit("enabled_in");
    reveal_strlit("tex_in");
    reveal_strlit("base_in");
    match kind {
        NodeKind::Text => {},
        NodeKind::Transition => {},
        NodeKind::TransitionFx => {},
        NodeKind::ColorMatrix => {
            assert(models[1] == effect::texture_input(core.effect_input@));
            assert forall|i: int| 0 <= i < models.len() implies is_steady_texture(
                #[trigger] models[i],
            ) by {
                if i >= 2 {
                    assert(models[i] == colormatrix::element_input(i - 2));
                }
            }
        },
        NodeKind::EdgeDetect => {},
        NodeKind::Erode => {},
        NodeKind::ColorCorrect => {},
        NodeKind::Saturation => {},
        NodeKind::Invert => {},
        NodeKind::Clamp => {},
        NodeKind::Grade => {},
        NodeKind::DirBlur => {},
        NodeKind::Sharpen => {},
        NodeKind::Dissolve => {},
        NodeKind::KeyMix => {},
        NodeKind::Unpremultiply => {},
        NodeKind::Position => {},
        NodeKind::Mirror => {},
        NodeKind::CheckerBoard => {},
        NodeKind::ColorBars => {},
        NodeKind::Ramp => {},
        NodeKind::GraphInput => {},
        NodeKind::GraphOutput => {},
    }
    if core.effect_input@.len() > 0 {
        assert(models[1] == effect::texture_input(core.effect_input@));
        assert(models[0].id.len() != core.effect_input@.len());
        assert(models.skip(1)[0] == models[1]);
        reveal_with_fuel(input::find_input, 2);
    }
}

/// A new node is listed under the groups that its type is registered
/// under.
pub proof fn law_registered_categories_are_the_nodes_own(
    entries: Seq<NodeMeta>,
    i: int,
    backends: TextBackends,
    made: BuiltIn,
    categories: &[Category],
)
    requires
        lists(entries, built_in()),
        0 <= i < entries.len(),
        entries[i].kind.makes(backends, made),
        call_ensures(<BuiltIn as NodeBehavior>::categories, (&made,), categories),
    ensures
        categories@ == entries[i].categories@,
{
}

/// A list in order is found through: looking a type id up gives the node
/// type that has it, and an id that no built-in type has is not found.
pub proof fn law_built_in_types_are_found(entries: Seq<NodeMeta>, type_id: Seq<char>)
    requires
        lists(entries, built_in()),
    ensures
        forall|kind: NodeKind|
            type_id_of(kind) == type_id ==> factory::kind_of(entries, type_id) == Some(kind),
        (forall|kind: NodeKind| type_id_of(kind) != type_id) ==> factory::kind_of(
            entries,
            type_id,
        ) is None,
{
    assert forall|kind: NodeKind| type_id_of(kind) == type_id implies factory::kind_of(
        entries,
        type_id,
    ) == Some(kind) by {
        let at = lemma_listed(kind);
        assert(entries.skip(0) =~= entries);
        lemma_found_from(entries, kind, 0, at);
    }
    if forall|kind: NodeKind| type_id_of(kind) != type_id {
        assert(entries.skip(0) =~= entries);
        lemma_not_found_from(entries, type_id, 0);
    }
}

/// Every node type is built in.
proof fn lemma_listed(kind: NodeKind) -> (at: int)
    ensures
        0 <= at < built_in().len(),
        built_in()[at] == kind,
{
    match kind {
        NodeKind::Text => 0,
        NodeKind::Transition => 1,
        NodeKind::TransitionFx => 2,
        NodeKind::ColorMatrix => 3,
        NodeKind::EdgeDetect => 4,
        NodeKind::Erode => 5,
        NodeKind::ColorCorrect => 6,
        NodeKind::Saturation => 7,
        NodeKind::Invert => 8,
        NodeKind::Clamp => 9,
        NodeKind::Grade => 10,
        NodeKind::DirBlur => 11,
        NodeKind::Sharpen => 12,
        NodeKind::Dissolve => 13,
        NodeKind::KeyMix => 14,
        NodeKind::Unpremultiply => 15,
        NodeKind::Position => 16,
        NodeKind::Mirror => 17,
        NodeKind::CheckerBoard => 18,
        NodeKind::ColorBars => 19,
        NodeKind::Ramp => 20,
        NodeKind::GraphInput => 21,
        NodeKind::GraphOutput => 22,
    }
}

/// A node type is found from any entry before its own on.
proof fn lemma_found_from(entries: Seq<NodeMeta>, kind: NodeKind, from: int, at: int)
    requires
        lists(entries, built_in()),
        0 <= from <= at < built_in().len(),
        built_in()[at] == kind,
    ensures
        factory::kind_of(entries.skip(from), type_id_of(kind)) == Some(kind),
    decreases at - from,
{
    let rest = entries.skip(from);
    assert(rest[0] == entries[from]);
    if built_in()[from] != kind {
        law_type_ids_are_unique(built_in()[from], kind);
        assert(rest.skip(1) =~= entries.skip(from + 1));
        lemma_found_from(entries, kind, from + 1, at);
    }
}

/// An unknown type id is not found from any entry on.
proof fn lemma_not_found_from(entries: Seq<NodeMeta>, type_id: Seq<char>, from: int)
    requires
        lists(entries, built_in()),
        0 <= from <= built_in().len(),
        forall|kind: NodeKind| type_id_of(kind) != type_id,
    ensures
        factory::kind_of(entries.skip(from), type_id) is None,
    decreases built_in().len() - from,
{
    if from < built_in().len() {
        let rest = entries.skip(from);
        assert(rest[0] == entries[from]);
        assert(type_id_of(built_in()[from]) != type_id);
        assert(rest.skip(1) =~= entries.skip(from + 1));
        lemma_not_found_from(entries, type_id, from + 1);
    }
}

} // verus!
