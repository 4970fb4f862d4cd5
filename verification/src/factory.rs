//! Node types by type id.

use vstd::prelude::*;

use crate::builtin::BuiltIn;
use crate::node::{Category, NodeCore};
use crate::nodes::{
    checkerboard,
    clamp,
    colorbars,
    colorcorrect,
    colormatrix,
    dirblur,
    dissolve,
    edgedetect,
    erode,
    grade,
    graphendpoints,
    invert,
    keymix,
    mirror,
    position,
    ramp,
    saturation,
    sharpen,
    textv3,
    transitionfx,
    transitions,
    unpremult,
};
use crate::nodes::checkerboard::CheckerBoardNode;
use crate::nodes::clamp::ClampNode;
use crate::nodes::colorbars::ColorBarsNode;
use crate::nodes::colorcorrect::ColorCorrectNode;
use crate::nodes::colormatrix::ColorMatrixNode;
use crate::nodes::dirblur::DirBlurNode;
use crate::nodes::dissolve::DissolveNode;
use crate::nodes::edgedetect::EdgeDetectNode;
use crate::nodes::erode::ErodeNode;
use crate::nodes::grade::GradeNode;
use crate::nodes::graphendpoints::{GraphInputNode, GraphOutputNode};
use crate::nodes::invert::InvertNode;
use crate::nodes::keymix::KeyMixNode;
use crate::nodes::mirror::MirrorNode;
use crate::nodes::position::PositionNode;
use crate::nodes::ramp::RampNode;
use crate::nodes::saturation::SaturationNode;
use crate::nodes::sharpen::SharpenNode;
use crate::nodes::textv3::TextGeneratorV3;
use crate::nodes::transitionfx::TransitionFxNode;
use crate::nodes::transitions::TransitionNode;
use crate::nodes::unpremult::UnpremultiplyNode;
use crate::nodes::textbackend::TextBackends;
use crate::text;

verus! {

/// The node types that the factory can create.
#[derive(Clone, Copy, PartialEq, Eq, Structural, Hash, Debug)]
pub enum NodeKind {
    Text,
    Transition,
    TransitionFx,
    ColorMatrix,
    EdgeDetect,
    Erode,
    ColorCorrect,
    Saturation,
    Invert,
    Clamp,
    Grade,
    DirBlur,
    Sharpen,
    Dissolve,
    KeyMix,
    Unpremultiply,
    Position,
    Mirror,
    CheckerBoard,
    ColorBars,
    Ramp,
    GraphInput,
    GraphOutput,
}

/// A registered node type.
#[derive(Clone, Copy, Debug)]
pub struct NodeMeta {
    /// The stable type id.
    pub type_id: &'static str,
    /// The human-readable name.
    pub name: &'static str,
    /// The groups it is listed under.
    pub categories: &'static [Category],
    /// The node type.
    pub kind: NodeKind,
}

impl NodeMeta {
    /// Whether this entry registers `kind` under the given names.
    pub open spec fn describes(
        self,
        type_id: Seq<char>,
        name: Seq<char>,
        categories: Seq<Category>,
        kind: NodeKind,
    ) -> bool {
        &&& self.type_id@ == type_id
        &&& self.name@ == name
        &&& self.categories@ =~= categories
        &&& self.kind == kind
    }
}

/// Whether `after` is `before` with one more entry, which registers
/// `kind` under the given names.
pub open spec fn registered(
    before: Seq<NodeMeta>,
    after: Seq<NodeMeta>,
    type_id: Seq<char>,
    name: Seq<char>,
    categories: Seq<Category>,
    kind: NodeKind,
) -> bool {
    &&& after.len() == before.len() + 1
    &&& after.drop_last() =~= before
    &&& after.last().describes(type_id, name, categories, kind)
}

impl NodeKind {
    /// Whether `core` is the state of a new node of this type.
    pub open spec fn created(self, core: &NodeCore) -> bool {
        match self {
            NodeKind::Text => textv3::created(core),
            NodeKind::Transition => transitions::created(core),
            NodeKind::TransitionFx => transitionfx::created(core),
            NodeKind::ColorMatrix => colormatrix::created(core),
            NodeKind::EdgeDetect => edgedetect::created(core),
            NodeKind::Erode => erode::created(core),
            NodeKind::ColorCorrect => colorcorrect::created(core),
            NodeKind::Saturation => saturation::created(core),
            NodeKind::Invert => invert::created(core),
            NodeKind::Clamp => clamp::created(core),
            NodeKind::Grade => grade::created(core),
            NodeKind::DirBlur => dirblur::created(core),
            NodeKind::Sharpen => sharpen::created(core),
            NodeKind::Dissolve => dissolve::created(core),
            NodeKind::KeyMix => keymix::created(core),
            NodeKind::Unpremultiply => unpremult::created(core),
            NodeKind::Position => position::created(core),
            NodeKind::Mirror => mirror::created(core),
            NodeKind::CheckerBoard => checkerboard::created(core),
            NodeKind::ColorBars => colorbars::created(core),
            NodeKind::Ramp => ramp::created(core),
            NodeKind::GraphInput => graphendpoints::created_graph_input(core),
            NodeKind::GraphOutput => graphendpoints::created_graph_output(core),
        }
    }

    /// Whether `node` is a new node of this type, with the given text
    /// hooks.
    pub open spec fn makes(self, backends: TextBackends, node: BuiltIn) -> bool {
        match self {
            NodeKind::Text => node == BuiltIn::Text(
                TextGeneratorV3 { dont_emit_valign: false, backends },
            ),
            NodeKind::Transition => node == BuiltIn::Transition(TransitionNode),
            NodeKind::TransitionFx => node == BuiltIn::TransitionFx(TransitionFxNode),
            NodeKind::ColorMatrix => node == BuiltIn::ColorMatrix(ColorMatrixNode),
            NodeKind::EdgeDetect => node == BuiltIn::EdgeDetect(EdgeDetectNode),
            NodeKind::Erode => node == BuiltIn::Erode(ErodeNode),
            NodeKind::ColorCorrect => node == BuiltIn::ColorCorrect(ColorCorrectNode),
            NodeKind::Saturation => node == BuiltIn::Saturation(SaturationNode),
            NodeKind::Invert => node == BuiltIn::Invert(InvertNode),
            NodeKind::Clamp => node == BuiltIn::Clamp(ClampNode),
            NodeKind::Grade => node == BuiltIn::Grade(GradeNode),
            NodeKind::DirBlur => node == BuiltIn::DirBlur(DirBlurNode),
            NodeKind::Sharpen => node == BuiltIn::Sharpen(SharpenNode),
            NodeKind::Dissolve => node == BuiltIn::Dissolve(DissolveNode),
            NodeKind::KeyMix => node == BuiltIn::KeyMix(KeyMixNode),
            NodeKind::Unpremultiply => node == BuiltIn::Unpremultiply(UnpremultiplyNode),
            NodeKind::Position => node == BuiltIn::Position(PositionNode),
            NodeKind::Mirror => node == BuiltIn::Mirror(MirrorNode),
            NodeKind::CheckerBoard => node == BuiltIn::CheckerBoard(CheckerBoardNode),
            NodeKind::ColorBars => node == BuiltIn::ColorBars(ColorBarsNode),
            NodeKind::Ramp => node == BuiltIn::Ramp(RampNode),
            NodeKind::GraphInput => node == BuiltIn::GraphInput(GraphInputNode),
            NodeKind::GraphOutput => node == BuiltIn::GraphOutput(GraphOutputNode),
        }
    }

    /// A new node of this type.
    pub fn create(self, backends: &TextBackends) -> (r: (NodeCore, BuiltIn))
        ensures
            self.created(&r.0),
            self.makes(*backends, r.1),
    {
        match self {
            NodeKind::Text => {
                let (core, node) = textv3::create(backends);
                (core, BuiltIn::Text(node))
            },
            NodeKind::Transition => {
                let (core, node) = transitions::create();
                (core, BuiltIn::Transition(node))
            },
            NodeKind::TransitionFx => {
                let (core, node) = transitionfx::create();
                (core, BuiltIn::TransitionFx(node))
            },
            NodeKind::ColorMatrix => {
                let (core, node) = colormatrix::create();
                (core, BuiltIn::ColorMatrix(node))
            },
            NodeKind::EdgeDetect => {
                let (core, node) = edgedetect::create();
                (core, BuiltIn::EdgeDetect(node))
            },
            NodeKind::Erode => {
                let (core, node) = erode::create();
                (core, BuiltIn::Erode(node))
            },
            NodeKind::ColorCorrect => {
                let (core, node) = colorcorrect::create();
                (core, BuiltIn::ColorCorrect(node))
            },
            NodeKind::Saturation => {
                let (core, node) = saturation::create();
                (core, BuiltIn::Saturation(node))
            },
            NodeKind::Invert => {
                let (core, node) = invert::create();
                (core, BuiltIn::Invert(node))
            },
            NodeKind::Clamp => {
                let (core, node) = clamp::create();
                (core, BuiltIn::Clamp(node))
            },
            NodeKind::Grade => {
                let (core, node) = grade::create();
                (core, BuiltIn::Grade(node))
            },
            NodeKind::DirBlur => {
                let (core, node) = dirblur::create();
                (core, BuiltIn::DirBlur(node))
            },
            NodeKind::Sharpen => {
                let (core, node) = sharpen::create();
                (core, BuiltIn::Sharpen(node))
            },
            NodeKind::Dissolve => {
                let (core, node) = dissolve::create();
                (core, BuiltIn::Dissolve(node))
            },
            NodeKind::KeyMix => {
                let (core, node) = keymix::create();
                (core, BuiltIn::KeyMix(node))
            },
            NodeKind::Unpremultiply => {
                let (core, node) = unpremult::create();
                (core, BuiltIn::Unpremultiply(node))
            },
            NodeKind::Position => {
                let (core, node) = position::create();
                (core, BuiltIn::Position(node))
            },
            NodeKind::Mirror => {
                let (core, node) = mirror::create();
                (core, BuiltIn::Mirror(node))
            },
            NodeKind::CheckerBoard => {
                let (core, node) = checkerboard::create();
                (core, BuiltIn::CheckerBoard(node))
            },
            NodeKind::ColorBars => {
                let (core, node) = colorbars::create();
                (core, BuiltIn::ColorBars(node))
            },
            NodeKind::Ramp => {
                let (core, node) = ramp::create();
                (core, BuiltIn::Ramp(node))
            },
            NodeKind::GraphInput => {
                let (core, node) = graphendpoints::create_graph_input();
                (core, BuiltIn::GraphInput(node))
            },
            NodeKind::GraphOutput => {
                let (core, node) = graphendpoints::create_graph_output();
                (core, BuiltIn::GraphOutput(node))
            },
        }
    }
}

/// The registered node types.
pub struct Factory {
    /// The entries, in registration order.
    pub entries: Vec<NodeMeta>,
    /// The text hooks that new nodes use.
    pub backends: TextBackends,
}

/// The kind registered first under a type id.
pub open spec fn kind_of(entries: Seq<NodeMeta>, type_id: Seq<char>) -> Option<NodeKind>
    decreases entries.len(),
{
    if entries.len() == 0 {
        None
    } else if entries[0].type_id@ == type_id {
        Some(entries[0].kind)
    } else {
        kind_of(entries.skip(1), type_id)
    }
}

impl Factory {
    /// A factory with the given entries and no text hooks.
    pub fn install(entries: Vec<NodeMeta>) -> (r: Factory)
        ensures
            r.entries == entries,
            r.backends.measure is None,
            r.backends.render is None,
    {
        Factory { entries, backends: TextBackends::none() }
    }

    /// Replace the text hooks.
    pub fn set_text_backends(&mut self, backends: TextBackends)
        ensures
            final(self).entries == old(self).entries,
            final(self).backends == backends,
    {
        self.backends = backends;
    }

    /// The kind registered under `type_id`.
    pub fn find(&self, type_id: &str) -> (r: Option<NodeKind>)
        ensures
            r == kind_of(self.entries@, type_id@),
    {
        let mut i: usize = 0;
        assert(self.entries@.skip(0) =~= self.entries@);
        while i < self.entries.len()
            invariant
                i <= self.entries@.len(),
                kind_of(self.entries@, type_id@) == kind_of(
                    self.entries@.skip(i as int),
                    type_id@,
                ),
            decreases self.entries@.len() - i,
        {
            assert(self.entries@.skip(i as int).skip(1) =~= self.entries@.skip(i + 1));
            if text::same(self.entries[i].type_id, type_id) {
                return Some(self.entries[i].kind);
            }
            i = i + 1;
        }
        None
    }

    /// A new node of the type registered under `type_id`.
    pub fn create_any(&self, type_id: &str) -> (r: Option<(NodeCore, BuiltIn)>)
        ensures
            match r {
                Some(made) => match kind_of(self.entries@, type_id@) {
                    Some(kind) => kind.created(&made.0) && kind.makes(self.backends, made.1),
                    None => false,
                },
                None => kind_of(self.entries@, type_id@) is None,
            },
    {
        match self.find(type_id) {
            Some(kind) => Some(kind.create(&self.backends)),
            None => None,
        }
    }
}

/// A type id is found where it is registered, as the kind that was
/// registered under it first, and creating it makes a new node of that
/// kind.
pub proof fn law_the_first_registration_counts(
    factory: &Factory,
    type_id: &str,
    r: Option<NodeKind>,
    made: Option<(NodeCore, BuiltIn)>,
    at: int,
)
    requires
        call_ensures(Factory::find, (factory, type_id), r),
        call_ensures(Factory::create_any, (factory, type_id), made),
    ensures
        0 <= at < factory.entries@.len() && factory.entries@[at].type_id@ == type_id@ && (forall|
            k: int,
        |
            0 <= k < at ==> (#[trigger] factory.entries@[k]).type_id@ != type_id@) ==> r == Some(
            factory.entries@[at].kind,
        ) && made is Some && factory.entries@[at].kind.created(&(made->Some_0).0)
            && factory.entries@[at].kind.makes(factory.backends, (made->Some_0).1),
        (forall|k: int|
            0 <= k < factory.entries@.len() ==> (#[trigger] factory.entries@[k]).type_id@
                != type_id@) ==> r is None && made is None,
{
    lemma_kind_found(factory.entries@, type_id@, at);
}

proof fn lemma_kind_found(entries: Seq<NodeMeta>, type_id: Seq<char>, at: int)
    ensures
        0 <= at < entries.len() && entries[at].type_id@ == type_id && (forall|k: int|
            0 <= k < at ==> (#[trigger] entries[k]).type_id@ != type_id) ==> kind_of(
            entries,
            type_id,
        ) == Some(entries[at].kind),
        (forall|k: int| 0 <= k < entries.len() ==> (#[trigger] entries[k]).type_id@ != type_id)
            ==> kind_of(entries, type_id) is None,
    decreases entries.len(),
{
    if entries.len() > 0 {
        let rest = entries.skip(1);
        lemma_kind_found(rest, type_id, at - 1);
        assert forall|k: int| 0 <= k < rest.len() implies #[trigger] rest[k] == entries[k + 1] by {}
    }
}

} // verus!
