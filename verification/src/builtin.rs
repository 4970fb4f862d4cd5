//! The built-in node types as one type, and what stands in a graph: a
//! built-in node or one of the host's own.

use vstd::prelude::*;

use crate::factory::NodeKind;
use crate::node::{BoxedBehavior, Category, NodeBehavior, NodeCore, XmlRead};
use crate::nodes;
use crate::nodes::checkerboard::CheckerBoardNode;
use crate::nodes::clamp::ClampNode;
use crate::nodes::colorbars::ColorBarsNode;
use crate::nodes::colorcorrect::ColorCorrectNode;
use crate::nodes::colormatrix::ColorMatrixNode;
use crate::nodes::dirblur::DirBlurNode;
use crate::nodes::dissolve::DissolveNode;
use crate::nodes::edgedetect::EdgeDetectNode;
use crate::nodes::erode::ErodeNode;
use crate::nodes::grade::GradeNode;
use crate::nodes::graphendpoints::{GraphInputNode, GraphOutputNode};
use crate::nodes::invert::InvertNode;
use crate::nodes::keymix::KeyMixNode;
use crate::nodes::mirror::MirrorNode;
use crate::nodes::position::PositionNode;
use crate::nodes::ramp::RampNode;
use crate::nodes::saturation::SaturationNode;
use crate::nodes::sharpen::SharpenNode;
use crate::nodes::textv3;
use crate::nodes::textv3::{TextGeneratorV3, TEXT_INPUT};
use crate::nodes::transitionfx::TransitionFxNode;
use crate::nodes::transitions::TransitionNode;
use crate::nodes::unpremult::UnpremultiplyNode;
use crate::rational::Rational;
use crate::text;
use crate::value::{NodeValueRow, NodeValueTable, TableEntry, ValueModel};

verus! {

/// A node of a built-in type.
pub enum BuiltIn {
    Text(TextGeneratorV3),
    Transition(TransitionNode),
    TransitionFx(TransitionFxNode),
    ColorMatrix(ColorMatrixNode),
    EdgeDetect(EdgeDetectNode),
    Erode(ErodeNode),
    ColorCorrect(ColorCorrectNode),
    Saturation(SaturationNode),
    Invert(InvertNode),
    Clamp(ClampNode),
    Grade(GradeNode),
    DirBlur(DirBlurNode),
    Sharpen(SharpenNode),
    Dissolve(DissolveNode),
    KeyMix(KeyMixNode),
    Unpremultiply(UnpremultiplyNode),
    Position(PositionNode),
    Mirror(MirrorNode),
    CheckerBoard(CheckerBoardNode),
    ColorBars(ColorBarsNode),
    Ramp(RampNode),
    GraphInput(GraphInputNode),
    GraphOutput(GraphOutputNode),
}

impl BuiltIn {
    /// The type of this node.
    pub open spec fn spec_kind(&self) -> NodeKind {
        match self {
            BuiltIn::Text(_) => NodeKind::Text,
            BuiltIn::Transition(_) => NodeKind::Transition,
            BuiltIn::TransitionFx(_) => NodeKind::TransitionFx,
            BuiltIn::ColorMatrix(_) => NodeKind::ColorMatrix,
            BuiltIn::EdgeDetect(_) => NodeKind::EdgeDetect,
            BuiltIn::Erode(_) => NodeKind::Erode,
            BuiltIn::ColorCorrect(_) => NodeKind::ColorCorrect,
            BuiltIn::Saturation(_) => NodeKind::Saturation,
            BuiltIn::Invert(_) => NodeKind::Invert,
            BuiltIn::Clamp(_) => NodeKind::Clamp,
            BuiltIn::Grade(_) => NodeKind::Grade,
            BuiltIn::DirBlur(_) => NodeKind::DirBlur,
            BuiltIn::Sharpen(_) => NodeKind::Sharpen,
            BuiltIn::Dissolve(_) => NodeKind::Dissolve,
            BuiltIn::KeyMix(_) => NodeKind::KeyMix,
            BuiltIn::Unpremultiply(_) => NodeKind::Unpremultiply,
            BuiltIn::Position(_) => NodeKind::Position,
            BuiltIn::Mirror(_) => NodeKind::Mirror,
            BuiltIn::CheckerBoard(_) => NodeKind::CheckerBoard,
            BuiltIn::ColorBars(_) => NodeKind::ColorBars,
            BuiltIn::Ramp(_) => NodeKind::Ramp,
            BuiltIn::GraphInput(_) => NodeKind::GraphInput,
            BuiltIn::GraphOutput(_) => NodeKind::GraphOutput,
        }
    }

    /// The type of this node.
    pub fn kind(&self) -> (r: NodeKind)
        ensures
            r == self.spec_kind(),
    {
        match self {
            BuiltIn::Text(_) => NodeKind::Text,
            BuiltIn::Transition(_) => NodeKind::Transition,
            BuiltIn::TransitionFx(_) => NodeKind::TransitionFx,
            BuiltIn::ColorMatrix(_) => NodeKind::ColorMatrix,
            BuiltIn::EdgeDetect(_) => NodeKind::EdgeDetect,
            BuiltIn::Erode(_) => NodeKind::Erode,
            BuiltIn::ColorCorrect(_) => NodeKind::ColorCorrect,
            BuiltIn::Saturation(_) => NodeKind::Saturation,
            BuiltIn::Invert(_) => NodeKind::Invert,
            BuiltIn::Clamp(_) => NodeKind::Clamp,
            BuiltIn::Grade(_) => NodeKind::Grade,
            BuiltIn::DirBlur(_) => NodeKind::DirBlur,
            BuiltIn::Sharpen(_) => NodeKind::Sharpen,
            BuiltIn::Dissolve(_) => NodeKind::Dissolve,
            BuiltIn::KeyMix(_) => NodeKind::KeyMix,
            BuiltIn::Unpremultiply(_) => NodeKind::Unpremultiply,
            BuiltIn::Position(_) => NodeKind::Position,
            BuiltIn::Mirror(_) => NodeKind::Mirror,
            BuiltIn::CheckerBoard(_) => NodeKind::CheckerBoard,
            BuiltIn::ColorBars(_) => NodeKind::ColorBars,
            BuiltIn::Ramp(_) => NodeKind::Ramp,
            BuiltIn::GraphInput(_) => NodeKind::GraphInput,
            BuiltIn::GraphOutput(_) => NodeKind::GraphOutput,
        }
    }
}

/// A built-in node is what the node of its type is.
impl NodeBehavior for BuiltIn {
    open spec fn spec_name(&self) -> Seq<char> {
        match self {
            BuiltIn::Text(node) => node.spec_name(),
            BuiltIn::Transition(node) => node.spec_name(),
            BuiltIn::TransitionFx(node) => node.spec_name(),
            BuiltIn::ColorMatrix(node) => node.spec_name(),
            BuiltIn::EdgeDetect(node) => node.spec_name(),
            BuiltIn::Erode(node) => node.spec_name(),
            BuiltIn::ColorCorrect(node) => node.spec_name(),
            BuiltIn::Saturation(node) => node.spec_name(),
            BuiltIn::Invert(node) => node.spec_name(),
            BuiltIn::Clamp(node) => node.spec_name(),
            BuiltIn::Grade(node) => node.spec_name(),
            BuiltIn::DirBlur(node) => node.spec_name(),
            BuiltIn::Sharpen(node) => node.spec_name(),
            BuiltIn::Dissolve(node) => node.spec_name(),
            BuiltIn::KeyMix(node) => node.spec_name(),
            BuiltIn::Unpremultiply(node) => node.spec_name(),
            BuiltIn::Position(node) => node.spec_name(),
            BuiltIn::Mirror(node) => node.spec_name(),
            BuiltIn::CheckerBoard(node) => node.spec_name(),
            BuiltIn::ColorBars(node) => node.spec_name(),
            BuiltIn::Ramp(node) => node.spec_name(),
            BuiltIn::GraphInput(node) => node.spec_name(),
            BuiltIn::GraphOutput(node) => node.spec_name(),
        }
    }

    open spec fn spec_type_id(&self) -> Seq<char> {
        match self {
            BuiltIn::Text(node) => node.spec_type_id(),
            BuiltIn::Transition(node) => node.spec_type_id(),
            BuiltIn::TransitionFx(node) => node.spec_type_id(),
            BuiltIn::ColorMatrix(node) => node.spec_type_id(),
            BuiltIn::EdgeDetect(node) => node.spec_type_id(),
            BuiltIn::Erode(node) => node.spec_type_id(),
            BuiltIn::ColorCorrect(node) => node.spec_type_id(),
            BuiltIn::Saturation(node) => node.spec_type_id(),
            BuiltIn::Invert(node) => node.spec_type_id(),
            BuiltIn::Clamp(node) => node.spec_type_id(),
            BuiltIn::Grade(node) => node.spec_type_id(),
            BuiltIn::DirBlur(node) => node.spec_type_id(),
            BuiltIn::Sharpen(node) => node.spec_type_id(),
            BuiltIn::Dissolve(node) => node.spec_type_id(),
            BuiltIn::KeyMix(node) => node.spec_type_id(),
            BuiltIn::Unpremultiply(node) => node.spec_type_id(),
            BuiltIn::Position(node) => node.spec_type_id(),
            BuiltIn::Mirror(node) => node.spec_type_id(),
            BuiltIn::CheckerBoard(node) => node.spec_type_id(),
            BuiltIn::ColorBars(node) => node.spec_type_id(),
            BuiltIn::Ramp(node) => node.spec_type_id(),
            BuiltIn::GraphInput(node) => node.spec_type_id(),
            BuiltIn::GraphOutput(node) => node.spec_type_id(),
        }
    }

    open spec fn emits(
        &self,
        core: &NodeCore,
        row: Map<Seq<char>, ValueModel>,
        time: Rational,
        before: Seq<TableEntry>,
        after: Seq<TableEntry>,
    ) -> bool {
        match self {
            BuiltIn::Text(node) => node.emits(core, row, time, before, after),
            BuiltIn::Transition(node) => node.emits(core, row, time, before, after),
            BuiltIn::TransitionFx(node) => node.emits(core, row, time, before, after),
            BuiltIn::ColorMatrix(node) => node.emits(core, row, time, before, after),
            BuiltIn::EdgeDetect(node) => node.emits(core, row, time, before, after),
            BuiltIn::Erode(node) => node.emits(core, row, time, before, after),
            BuiltIn::ColorCorrect(node) => node.emits(core, row, time, before, after),
            BuiltIn::Saturation(node) => node.emits(core, row, time, before, after),
            BuiltIn::Invert(node) => node.emits(core, row, time, before, after),
            BuiltIn::Clamp(node) => node.emits(core, row, time, before, after),
            BuiltIn::Grade(node) => node.emits(core, row, time, before, after),
            BuiltIn::DirBlur(node) => node.emits(core, row, time, before, after),
            BuiltIn::Sharpen(node) => node.emits(core, row, time, before, after),
            BuiltIn::Dissolve(node) => node.emits(core, row, time, before, after),
            BuiltIn::KeyMix(node) => node.emits(core, row, time, before, after),
            BuiltIn::Unpremultiply(node) => node.emits(core, row, time, before, after),
            BuiltIn::Position(node) => node.emits(core, row, time, before, after),
            BuiltIn::Mirror(node) => node.emits(core, row, time, before, after),
            BuiltIn::CheckerBoard(node) => node.emits(core, row, time, before, after),
            BuiltIn::ColorBars(node) => node.emits(core, row, time, before, after),
            BuiltIn::Ramp(node) => node.emits(core, row, time, before, after),
            BuiltIn::GraphInput(node) => node.emits(core, row, time, before, after),
            BuiltIn::GraphOutput(node) => node.emits(core, row, time, before, after),
        }
    }

    fn name(&self) -> (r: &str) {
        match self {
            BuiltIn::Text(node) => node.name(),
            BuiltIn::Transition(node) => node.name(),
            BuiltIn::TransitionFx(node) => node.name(),
            BuiltIn::ColorMatrix(node) => node.name(),
            BuiltIn::EdgeDetect(node) => node.name(),
            BuiltIn::Erode(node) => node.name(),
            BuiltIn::ColorCorrect(node) => node.name(),
            BuiltIn::Saturation(node) => node.name(),
            BuiltIn::Invert(node) => node.name(),
            BuiltIn::Clamp(node) => node.name(),
            BuiltIn::Grade(node) => node.name(),
            BuiltIn::DirBlur(node) => node.name(),
            BuiltIn::Sharpen(node) => node.name(),
            BuiltIn::Dissolve(node) => node.name(),
            BuiltIn::KeyMix(node) => node.name(),
            BuiltIn::Unpremultiply(node) => node.name(),
            BuiltIn::Position(node) => node.name(),
            BuiltIn::Mirror(node) => node.name(),
            BuiltIn::CheckerBoard(node) => node.name(),
            BuiltIn::ColorBars(node) => node.name(),
            BuiltIn::Ramp(node) => node.name(),
            BuiltIn::GraphInput(node) => node.name(),
            BuiltIn::GraphOutput(node) => node.name(),
        }
    }

    fn type_id(&self) -> (r: &str) {
        match self {
            BuiltIn::Text(node) => node.type_id(),
            BuiltIn::Transition(node) => node.type_id(),
            BuiltIn::TransitionFx(node) => node.type_id(),
            BuiltIn::ColorMatrix(node) => node.type_id(),
            BuiltIn::EdgeDetect(node) => node.type_id(),
            BuiltIn::Erode(node) => node.type_id(),
            BuiltIn::ColorCorrect(node) => node.type_id(),
            BuiltIn::Saturation(node) => node.type_id(),
            BuiltIn::Invert(node) => node.type_id(),
            BuiltIn::Clamp(node) => node.type_id(),
            BuiltIn::Grade(node) => node.type_id(),
            BuiltIn::DirBlur(node) => node.type_id(),
            BuiltIn::Sharpen(node) => node.type_id(),
            BuiltIn::Dissolve(node) => node.type_id(),
            BuiltIn::KeyMix(node) => node.type_id(),
            BuiltIn::Unpremultiply(node) => node.type_id(),
            BuiltIn::Position(node) => node.type_id(),
            BuiltIn::Mirror(node) => node.type_id(),
            BuiltIn::CheckerBoard(node) => node.type_id(),
            BuiltIn::ColorBars(node) => node.type_id(),
            BuiltIn::Ramp(node) => node.type_id(),
            BuiltIn::GraphInput(node) => node.type_id(),
            BuiltIn::GraphOutput(node) => node.type_id(),
        }
    }

    fn categories(&self) -> (r: &[Category])
        ensures
            r@ == seq![nodes::category_of(self.spec_kind())],
            match self {
                BuiltIn::Text(node) => call_ensures(
                    <TextGeneratorV3 as NodeBehavior>::categories,
                    (node,),
                    r,
                ),
                BuiltIn::Transition(node) => call_ensures(
                    <TransitionNode as NodeBehavior>::categories,
                    (node,),
                    r,
                ),
                BuiltIn::TransitionFx(node) => call_ensures(
                    <TransitionFxNode as NodeBehavior>::categories,
                    (node,),
                    r,
                ),
                BuiltIn::ColorMatrix(node) => call_ensures(
                    <ColorMatrixNode as NodeBehavior>::categories,
                    (node,),
                    r,
                ),
                BuiltIn::EdgeDetect(node) => call_ensures(
                    <EdgeDetectNode as NodeBehavior>::categories,
                    (node,),
                    r,
                ),
                BuiltIn::Erode(node) => call_ensures(
                    <ErodeNode as NodeBehavior>::categories,
                    (node,),
                    r,
                ),
                BuiltIn::ColorCorrect(node) => call_ensures(
                    <ColorCorrectNode as NodeBehavior>::categories,
                    (node,),
                    r,
                ),
                BuiltIn::Saturation(node) => call_ensures(
                    <SaturationNode as NodeBehavior>::categories,
                    (node,),
                    r,
                ),
                BuiltIn::Invert(node) => call_ensures(
                    <InvertNode as NodeBehavior>::categories,
                    (node,),
                    r,
                ),
                BuiltIn::Clamp(node) => call_ensures(
                    <ClampNode as NodeBehavior>::categories,
                    (node,),
                    r,
                ),
                BuiltIn::Grade(node) => call_ensures(
                    <GradeNode as NodeBehavior>::categories,
                    (node,),
                    r,
                ),
                BuiltIn::DirBlur(node) => call_ensures(
                    <DirBlurNode as NodeBehavior>::categories,
                    (node,),
                    r,
                ),
                BuiltIn::Sharpen(node) => call_ensures(
                    <SharpenNode as NodeBehavior>::categories,
                    (node,),
                    r,
                ),
                BuiltIn::Dissolve(node) => call_ensures(
                    <DissolveNode as NodeBehavior>::categories,
                    (node,),
                    r,
                ),
                BuiltIn::KeyMix(node) => call_ensures(
                    <KeyMixNode as NodeBehavior>::categories,
                    (node,),
                    r,
                ),
                BuiltIn::Unpremultiply(node) => call_ensures(
                    <UnpremultiplyNode as NodeBehavior>::categories,
                    (node,),
                    r,
                ),
                BuiltIn::Position(node) => call_ensures(
                    <PositionNode as NodeBehavior>::categories,
                    (node,),
                    r,
                ),
                BuiltIn::Mirror(node) => call_ensures(
                    <MirrorNode as NodeBehavior>::categories,
                    (node,),
                    r,
                ),
                BuiltIn::CheckerBoard(node) => call_ensures(
                    <CheckerBoardNode as NodeBehavior>::categories,
                    (node,),
                    r,
                ),
                BuiltIn::ColorBars(node) => call_ensures(
                    <ColorBarsNode as NodeBehavior>::categories,
                    (node,),
                    r,
                ),
                BuiltIn::Ramp(node) => call_ensures(
                    <RampNode as NodeBehavior>::categories,
                    (node,),
                    r,
                ),
                BuiltIn::GraphInput(node) => call_ensures(
                    <GraphInputNode as NodeBehavior>::categories,
                    (node,),
                    r,
                ),
                BuiltIn::GraphOutput(node) => call_ensures(
                    <GraphOutputNode as NodeBehavior>::categories,
                    (node,),
                    r,
                ),
            },
    {
        match self {
            BuiltIn::Text(node) => node.categories(),
            BuiltIn::Transition(node) => node.categories(),
            BuiltIn::TransitionFx(node) => node.categories(),
            BuiltIn::ColorMatrix(node) => node.categories(),
            BuiltIn::EdgeDetect(node) => node.categories(),
            BuiltIn::Erode(node) => node.categories(),
            BuiltIn::ColorCorrect(node) => node.categories(),
            BuiltIn::Saturation(node) => node.categories(),
            BuiltIn::Invert(node) => node.categories(),
            BuiltIn::Clamp(node) => node.categories(),
            BuiltIn::Grade(node) => node.categories(),
            BuiltIn::DirBlur(node) => node.categories(),
            BuiltIn::Sharpen(node) => node.categories(),
            BuiltIn::Dissolve(node) => node.categories(),
            BuiltIn::KeyMix(node) => node.categories(),
            BuiltIn::Unpremultiply(node) => node.categories(),
            BuiltIn::Position(node) => node.categories(),
            BuiltIn::Mirror(node) => node.categories(),
            BuiltIn::CheckerBoard(node) => node.categories(),
            BuiltIn::ColorBars(node) => node.categories(),
            BuiltIn::Ramp(node) => node.categories(),
            BuiltIn::GraphInput(node) => node.categories(),
            BuiltIn::GraphOutput(node) => node.categories(),
        }
    }

    fn description(&self) -> (r: &str)
        ensures
            match self {
                BuiltIn::Text(node) => call_ensures(
                    <TextGeneratorV3 as NodeBehavior>::description,
                    (node,),
                    r,
                ),
                BuiltIn::Transition(node) => call_ensures(
                    <TransitionNode as NodeBehavior>::description,
                    (node,),
                    r,
                ),
                BuiltIn::TransitionFx(node) => call_ensures(
                    <TransitionFxNode as NodeBehavior>::description,
                    (node,),
                    r,
                ),
                BuiltIn::ColorMatrix(node) => call_ensures(
                    <ColorMatrixNode as NodeBehavior>::description,
                    (node,),
                    r,
                ),
                BuiltIn::EdgeDetect(node) => call_ensures(
                    <EdgeDetectNode as NodeBehavior>::description,
                    (node,),
                    r,
                ),
                BuiltIn::Erode(node) => call_ensures(
                    <ErodeNode as NodeBehavior>::description,
                    (node,),
                    r,
                ),
                BuiltIn::ColorCorrect(node) => call_ensures(
                    <ColorCorrectNode as NodeBehavior>::description,
                    (node,),
                    r,
                ),
                BuiltIn::Saturation(node) => call_ensures(
                    <SaturationNode as NodeBehavior>::description,
                    (node,),
                    r,
                ),
                BuiltIn::Invert(node) => call_ensures(
                    <InvertNode as NodeBehavior>::description,
                    (node,),
                    r,
                ),
                BuiltIn::Clamp(node) => call_ensures(
                    <ClampNode as NodeBehavior>::description,
                    (node,),
                    r,
                ),
                BuiltIn::Grade(node) => call_ensures(
                    <GradeNode as NodeBehavior>::description,
                    (node,),
                    r,
                ),
                BuiltIn::DirBlur(node) => call_ensures(
                    <DirBlurNode as NodeBehavior>::description,
                    (node,),
                    r,
                ),
                BuiltIn::Sharpen(node) => call_ensures(
                    <SharpenNode as NodeBehavior>::description,
                    (node,),
                    r,
                ),
                BuiltIn::Dissolve(node) => call_ensures(
                    <DissolveNode as NodeBehavior>::description,
                    (node,),
                    r,
                ),
                BuiltIn::KeyMix(node) => call_ensures(
                    <KeyMixNode as NodeBehavior>::description,
                    (node,),
                    r,
                ),
                BuiltIn::Unpremultiply(node) => call_ensures(
                    <UnpremultiplyNode as NodeBehavior>::description,
                    (node,),
                    r,
                ),
                BuiltIn::Position(node) => call_ensures(
                    <PositionNode as NodeBehavior>::description,
                    (node,),
                    r,
                ),
                BuiltIn::Mirror(node) => call_ensures(
                    <MirrorNode as NodeBehavior>::description,
                    (node,),
                    r,
                ),
                BuiltIn::CheckerBoard(node) => call_ensures(
                    <CheckerBoardNode as NodeBehavior>::description,
                    (node,),
                    r,
                ),
                BuiltIn::ColorBars(node) => call_ensures(
                    <ColorBarsNode as NodeBehavior>::description,
                    (node,),
                    r,
                ),
                BuiltIn::Ramp(node) => call_ensures(
                    <RampNode as NodeBehavior>::description,
                    (node,),
                    r,
                ),
                BuiltIn::GraphInput(node) => call_ensures(
                    <GraphInputNode as NodeBehavior>::description,
                    (node,),
                    r,
                ),
                BuiltIn::GraphOutput(node) => call_ensures(
                    <GraphOutputNode as NodeBehavior>::description,
                    (node,),
                    r,
                ),
            },
    {
        match self {
            BuiltIn::Text(node) => node.description(),
            BuiltIn::Transition(node) => node.description(),
            BuiltIn::TransitionFx(node) => node.description(),
            BuiltIn::ColorMatrix(node) => node.description(),
            BuiltIn::EdgeDetect(node) => node.description(),
            BuiltIn::Erode(node) => node.description(),
            BuiltIn::ColorCorrect(node) => node.description(),
            BuiltIn::Saturation(node) => node.description(),
            BuiltIn::Invert(node) => node.description(),
            BuiltIn::Clamp(node) => node.description(),
            BuiltIn::Grade(node) => node.description(),
            BuiltIn::DirBlur(node) => node.description(),
            BuiltIn::Sharpen(node) => node.description(),
            BuiltIn::Dissolve(node) => node.description(),
            BuiltIn::KeyMix(node) => node.description(),
            BuiltIn::Unpremultiply(node) => node.description(),
            BuiltIn::Position(node) => node.description(),
            BuiltIn::Mirror(node) => node.description(),
            BuiltIn::CheckerBoard(node) => node.description(),
            BuiltIn::ColorBars(node) => node.description(),
            BuiltIn::Ramp(node) => node.description(),
            BuiltIn::GraphInput(node) => node.description(),
            BuiltIn::GraphOutput(node) => node.description(),
        }
    }

    fn input_name<'a>(&self, id: &'a str) -> (r: &'a str)
        ensures
            match self {
                BuiltIn::Text(node) => call_ensures(
                    <TextGeneratorV3 as NodeBehavior>::input_name,
                    (node, id),
                    r,
                ),
                BuiltIn::Transition(node) => call_ensures(
                    <TransitionNode as NodeBehavior>::input_name,
                    (node, id),
                    r,
                ),
                BuiltIn::TransitionFx(node) => call_ensures(
                    <TransitionFxNode as NodeBehavior>::input_name,
                    (node, id),
                    r,
                ),
                BuiltIn::ColorMatrix(node) => call_ensures(
                    <ColorMatrixNode as NodeBehavior>::input_name,
                    (node, id),
                    r,
                ),
                BuiltIn::EdgeDetect(node) => call_ensures(
                    <EdgeDetectNode as NodeBehavior>::input_name,
                    (node, id),
                    r,
                ),
                BuiltIn::Erode(node) => call_ensures(
                    <ErodeNode as NodeBehavior>::input_name,
                    (node, id),
                    r,
                ),
                BuiltIn::ColorCorrect(node) => call_ensures(
                    <ColorCorrectNode as NodeBehavior>::input_name,
                    (node, id),
                    r,
                ),
                BuiltIn::Saturation(node) => call_ensures(
                    <SaturationNode as NodeBehavior>::input_name,
                    (node, id),
                    r,
                ),
                BuiltIn::Invert(node) => call_ensures(
                    <InvertNode as NodeBehavior>::input_name,
                    (node, id),
                    r,
                ),
                BuiltIn::Clamp(node) => call_ensures(
                    <ClampNode as NodeBehavior>::input_name,
                    (node, id),
                    r,
                ),
                BuiltIn::Grade(node) => call_ensures(
                    <GradeNode as NodeBehavior>::input_name,
                    (node, id),
                    r,
                ),
                BuiltIn::DirBlur(node) => call_ensures(
                    <DirBlurNode as NodeBehavior>::input_name,
                    (node, id),
                    r,
                ),
                BuiltIn::Sharpen(node) => call_ensures(
                    <SharpenNode as NodeBehavior>::input_name,
                    (node, id),
                    r,
                ),
                BuiltIn::Dissolve(node) => call_ensures(
                    <DissolveNode as NodeBehavior>::input_name,
                    (node, id),
                    r,
                ),
                BuiltIn::KeyMix(node) => call_ensures(
                    <KeyMixNode as NodeBehavior>::input_name,
                    (node, id),
                    r,
                ),
                BuiltIn::Unpremultiply(node) => call_ensures(
                    <UnpremultiplyNode as NodeBehavior>::input_name,
                    (node, id),
                    r,
                ),
                BuiltIn::Position(node) => call_ensures(
                    <PositionNode as NodeBehavior>::input_name,
                    (node, id),
                    r,
                ),
                BuiltIn::Mirror(node) => call_ensures(
                    <MirrorNode as NodeBehavior>::input_name,
                    (node, id),
                    r,
                ),
                BuiltIn::CheckerBoard(node) => call_ensures(
                    <CheckerBoardNode as NodeBehavior>::input_name,
                    (node, id),
                    r,
                ),
                BuiltIn::ColorBars(node) => call_ensures(
                    <ColorBarsNode as NodeBehavior>::input_name,
                    (node, id),
                    r,
                ),
                BuiltIn::Ramp(node) => call_ensures(
                    <RampNode as NodeBehavior>::input_name,
                    (node, id),
                    r,
                ),
                BuiltIn::GraphInput(node) => call_ensures(
                    <GraphInputNode as NodeBehavior>::input_name,
                    (node, id),
                    r,
                ),
                BuiltIn::GraphOutput(node) => call_ensures(
                    <GraphOutputNode as NodeBehavior>::input_name,
                    (node, id),
                    r,
                ),
            },
    {
        match self {
            BuiltIn::Text(node) => node.input_name(id),
            BuiltIn::Transition(node) => node.input_name(id),
            BuiltIn::TransitionFx(node) => node.input_name(id),
            BuiltIn::ColorMatrix(node) => node.input_name(id),
            BuiltIn::EdgeDetect(node) => node.input_name(id),
            BuiltIn::Erode(node) => node.input_name(id),
            BuiltIn::ColorCorrect(node) => node.input_name(id),
            BuiltIn::Saturation(node) => node.input_name(id),
            BuiltIn::Invert(node) => node.input_name(id),
            BuiltIn::Clamp(node) => node.input_name(id),
            BuiltIn::Grade(node) => node.input_name(id),
            BuiltIn::DirBlur(node) => node.input_name(id),
            BuiltIn::Sharpen(node) => node.input_name(id),
            BuiltIn::Dissolve(node) => node.input_name(id),
            BuiltIn::KeyMix(node) => node.input_name(id),
            BuiltIn::Unpremultiply(node) => node.input_name(id),
            BuiltIn::Position(node) => node.input_name(id),
            BuiltIn::Mirror(node) => node.input_name(id),
            BuiltIn::CheckerBoard(node) => node.input_name(id),
            BuiltIn::ColorBars(node) => node.input_name(id),
            BuiltIn::Ramp(node) => node.input_name(id),
            BuiltIn::GraphInput(node) => node.input_name(id),
            BuiltIn::GraphOutput(node) => node.input_name(id),
        }
    }

    fn input_combo_strings(&self, id: &str) -> (r: Vec<&'static str>)
        ensures
            match self {
                BuiltIn::Text(node) => call_ensures(
                    <TextGeneratorV3 as NodeBehavior>::input_combo_strings,
                    (node, id),
                    r,
                ),
                BuiltIn::Transition(node) => call_ensures(
                    <TransitionNode as NodeBehavior>::input_combo_strings,
                    (node, id),
                    r,
                ),
                BuiltIn::TransitionFx(node) => call_ensures(
                    <TransitionFxNode as NodeBehavior>::input_combo_strings,
                    (node, id),
                    r,
                ),
                BuiltIn::ColorMatrix(node) => call_ensures(
                    <ColorMatrixNode as NodeBehavior>::input_combo_strings,
                    (node, id),
                    r,
                ),
                BuiltIn::EdgeDetect(node) => call_ensures(
                    <EdgeDetectNode as NodeBehavior>::input_combo_strings,
                    (node, id),
                    r,
                ),
                BuiltIn::Erode(node) => call_ensures(
                    <ErodeNode as NodeBehavior>::input_combo_strings,
                    (node, id),
                    r,
                ),
                BuiltIn::ColorCorrect(node) => call_ensures(
                    <ColorCorrectNode as NodeBehavior>::input_combo_strings,
                    (node, id),
                    r,
                ),
                BuiltIn::Saturation(node) => call_ensures(
                    <SaturationNode as NodeBehavior>::input_combo_strings,
                    (node, id),
                    r,
                ),
                BuiltIn::Invert(node) => call_ensures(
                    <InvertNode as NodeBehavior>::input_combo_strings,
                    (node, id),
                    r,
                ),
                BuiltIn::Clamp(node) => call_ensures(
                    <ClampNode as NodeBehavior>::input_combo_strings,
                    (node, id),
                    r,
                ),
                BuiltIn::Grade(node) => call_ensures(
                    <GradeNode as NodeBehavior>::input_combo_strings,
                    (node, id),
                    r,
                ),
                BuiltIn::DirBlur(node) => call_ensures(
                    <DirBlurNode as NodeBehavior>::input_combo_strings,
                    (node, id),
                    r,
                ),
                BuiltIn::Sharpen(node) => call_ensures(
                    <SharpenNode as NodeBehavior>::input_combo_strings,
                    (node, id),
                    r,
                ),
                BuiltIn::Dissolve(node) => call_ensures(
                    <DissolveNode as NodeBehavior>::input_combo_strings,
                    (node, id),
                    r,
                ),
                BuiltIn::KeyMix(node) => call_ensures(
                    <KeyMixNode as NodeBehavior>::input_combo_strings,
                    (node, id),
                    r,
                ),
                BuiltIn::Unpremultiply(node) => call_ensures(
                    <UnpremultiplyNode as NodeBehavior>::input_combo_strings,
                    (node, id),
                    r,
                ),
                BuiltIn::Position(node) => call_ensures(
                    <PositionNode as NodeBehavior>::input_combo_strings,
                    (node, id),
                    r,
                ),
                BuiltIn::Mirror(node) => call_ensures(
                    <MirrorNode as NodeBehavior>::input_combo_strings,
                    (node, id),
                    r,
                ),
                BuiltIn::CheckerBoard(node) => call_ensures(
                    <CheckerBoardNode as NodeBehavior>::input_combo_strings,
                    (node, id),
                    r,
                ),
                BuiltIn::ColorBars(node) => call_ensures(
                    <ColorBarsNode as NodeBehavior>::input_combo_strings,
                    (node, id),
                    r,
                ),
                BuiltIn::Ramp(node) => call_ensures(
                    <RampNode as NodeBehavior>::input_combo_strings,
                    (node, id),
                    r,
                ),
                BuiltIn::GraphInput(node) => call_ensures(
                    <GraphInputNode as NodeBehavior>::input_combo_strings,
                    (node, id),
                    r,
                ),
                BuiltIn::GraphOutput(node) => call_ensures(
                    <GraphOutputNode as NodeBehavior>::input_combo_strings,
                    (node, id),
                    r,
                ),
            },
    {
        match self {
            BuiltIn::Text(node) => node.input_combo_strings(id),
            BuiltIn::Transition(node) => node.input_combo_strings(id),
            BuiltIn::TransitionFx(node) => node.input_combo_strings(id),
            BuiltIn::ColorMatrix(node) => node.input_combo_strings(id),
            BuiltIn::EdgeDetect(node) => node.input_combo_strings(id),
            BuiltIn::Erode(node) => node.input_combo_strings(id),
            BuiltIn::ColorCorrect(node) => node.input_combo_strings(id),
            BuiltIn::Saturation(node) => node.input_combo_strings(id),
            BuiltIn::Invert(node) => node.input_combo_strings(id),
            BuiltIn::Clamp(node) => node.input_combo_strings(id),
            BuiltIn::Grade(node) => node.input_combo_strings(id),
            BuiltIn::DirBlur(node) => node.input_combo_strings(id),
            BuiltIn::Sharpen(node) => node.input_combo_strings(id),
            BuiltIn::Dissolve(node) => node.input_combo_strings(id),
            BuiltIn::KeyMix(node) => node.input_combo_strings(id),
            BuiltIn::Unpremultiply(node) => node.input_combo_strings(id),
            BuiltIn::Position(node) => node.input_combo_strings(id),
            BuiltIn::Mirror(node) => node.input_combo_strings(id),
            BuiltIn::CheckerBoard(node) => node.input_combo_strings(id),
            BuiltIn::ColorBars(node) => node.input_combo_strings(id),
            BuiltIn::Ramp(node) => node.input_combo_strings(id),
            BuiltIn::GraphInput(node) => node.input_combo_strings(id),
            BuiltIn::GraphOutput(node) => node.input_combo_strings(id),
        }
    }

    fn shader_code(&self, request: &str) -> (r: Option<String>)
        ensures
            match self {
                BuiltIn::Text(node) => call_ensures(
                    <TextGeneratorV3 as NodeBehavior>::shader_code,
                    (node, request),
                    r,
                ),
                BuiltIn::Transition(node) => call_ensures(
                    <TransitionNode as NodeBehavior>::shader_code,
                    (node, request),
                    r,
                ),
                BuiltIn::TransitionFx(node) => call_ensures(
                    <TransitionFxNode as NodeBehavior>::shader_code,
                    (node, request),
                    r,
                ),
                BuiltIn::ColorMatrix(node) => call_ensures(
                    <ColorMatrixNode as NodeBehavior>::shader_code,
                    (node, request),
                    r,
                ),
                BuiltIn::EdgeDetect(node) => call_ensures(
                    <EdgeDetectNode as NodeBehavior>::shader_code,
                    (node, request),
                    r,
                ),
                BuiltIn::Erode(node) => call_ensures(
                    <ErodeNode as NodeBehavior>::shader_code,
                    (node, request),
                    r,
                ),
                BuiltIn::ColorCorrect(node) => call_ensures(
                    <ColorCorrectNode as NodeBehavior>::shader_code,
                    (node, request),
                    r,
                ),
                BuiltIn::Saturation(node) => call_ensures(
                    <SaturationNode as NodeBehavior>::shader_code,
                    (node, request),
                    r,
                ),
                BuiltIn::Invert(node) => call_ensures(
                    <InvertNode as NodeBehavior>::shader_code,
                    (node, request),
                    r,
                ),
                BuiltIn::Clamp(node) => call_ensures(
                    <ClampNode as NodeBehavior>::shader_code,
                    (node, request),
                    r,
                ),
                BuiltIn::Grade(node) => call_ensures(
                    <GradeNode as NodeBehavior>::shader_code,
                    (node, request),
                    r,
                ),
                BuiltIn::DirBlur(node) => call_ensures(
                    <DirBlurNode as NodeBehavior>::shader_code,
                    (node, request),
                    r,
                ),
                BuiltIn::Sharpen(node) => call_ensures(
                    <SharpenNode as NodeBehavior>::shader_code,
                    (node, request),
                    r,
                ),
                BuiltIn::Dissolve(node) => call_ensures(
                    <DissolveNode as NodeBehavior>::shader_code,
                    (node, request),
                    r,
                ),
                BuiltIn::KeyMix(node) => call_ensures(
                    <KeyMixNode as NodeBehavior>::shader_code,
                    (node, request),
                    r,
                ),
                BuiltIn::Unpremultiply(node) => call_ensures(
                    <UnpremultiplyNode as NodeBehavior>::shader_code,
                    (node, request),
                    r,
                ),
                BuiltIn::Position(node) => call_ensures(
                    <PositionNode as NodeBehavior>::shader_code,
                    (node, request),
                    r,
                ),
                BuiltIn::Mirror(node) => call_ensures(
                    <MirrorNode as NodeBehavior>::shader_code,
                    (node, request),
                    r,
                ),
                BuiltIn::CheckerBoard(node) => call_ensures(
                    <CheckerBoardNode as NodeBehavior>::shader_code,
                    (node, request),
                    r,
                ),
                BuiltIn::ColorBars(node) => call_ensures(
                    <ColorBarsNode as NodeBehavior>::shader_code,
                    (node, request),
                    r,
                ),
                BuiltIn::Ramp(node) => call_ensures(
                    <RampNode as NodeBehavior>::shader_code,
                    (node, request),
                    r,
                ),
                BuiltIn::GraphInput(node) => call_ensures(
                    <GraphInputNode as NodeBehavior>::shader_code,
                    (node, request),
                    r,
                ),
                BuiltIn::GraphOutput(node) => call_ensures(
                    <GraphOutputNode as NodeBehavior>::shader_code,
                    (node, request),
                    r,
                ),
            },
    {
        match self {
            BuiltIn::Text(node) => node.shader_code(request),
            BuiltIn::Transition(node) => node.shader_code(request),
            BuiltIn::TransitionFx(node) => node.shader_code(request),
            BuiltIn::ColorMatrix(node) => node.shader_code(request),
            BuiltIn::EdgeDetect(node) => node.shader_code(request),
            BuiltIn::Erode(node) => node.shader_code(request),
            BuiltIn::ColorCorrect(node) => node.shader_code(request),
            BuiltIn::Saturation(node) => node.shader_code(request),
            BuiltIn::Invert(node) => node.shader_code(request),
            BuiltIn::Clamp(node) => node.shader_code(request),
            BuiltIn::Grade(node) => node.shader_code(request),
            BuiltIn::DirBlur(node) => node.shader_code(request),
            BuiltIn::Sharpen(node) => node.shader_code(request),
            BuiltIn::Dissolve(node) => node.shader_code(request),
            BuiltIn::KeyMix(node) => node.shader_code(request),
            BuiltIn::Unpremultiply(node) => node.shader_code(request),
            BuiltIn::Position(node) => node.shader_code(request),
            BuiltIn::Mirror(node) => node.shader_code(request),
            BuiltIn::CheckerBoard(node) => node.shader_code(request),
            BuiltIn::ColorBars(node) => node.shader_code(request),
            BuiltIn::Ramp(node) => node.shader_code(request),
            BuiltIn::GraphInput(node) => node.shader_code(request),
            BuiltIn::GraphOutput(node) => node.shader_code(request),
        }
    }

    fn value(
        &self,
        core: &NodeCore,
        inputs: &NodeValueRow,
        time: Rational,
        table: &mut NodeValueTable,
    ) {
        match self {
            BuiltIn::Text(node) => node.value(core, inputs, time, table),
            BuiltIn::Transition(node) => node.value(core, inputs, time, table),
            BuiltIn::TransitionFx(node) => node.value(core, inputs, time, table),
            BuiltIn::ColorMatrix(node) => node.value(core, inputs, time, table),
            BuiltIn::EdgeDetect(node) => node.value(core, inputs, time, table),
            BuiltIn::Erode(node) => node.value(core, inputs, time, table),
            BuiltIn::ColorCorrect(node) => node.value(core, inputs, time, table),
            BuiltIn::Saturation(node) => node.value(core, inputs, time, table),
            BuiltIn::Invert(node) => node.value(core, inputs, time, table),
            BuiltIn::Clamp(node) => node.value(core, inputs, time, table),
            BuiltIn::Grade(node) => node.value(core, inputs, time, table),
            BuiltIn::DirBlur(node) => node.value(core, inputs, time, table),
            BuiltIn::Sharpen(node) => node.value(core, inputs, time, table),
            BuiltIn::Dissolve(node) => node.value(core, inputs, time, table),
            BuiltIn::KeyMix(node) => node.value(core, inputs, time, table),
            BuiltIn::Unpremultiply(node) => node.value(core, inputs, time, table),
            BuiltIn::Position(node) => node.value(core, inputs, time, table),
            BuiltIn::Mirror(node) => node.value(core, inputs, time, table),
            BuiltIn::CheckerBoard(node) => node.value(core, inputs, time, table),
            BuiltIn::ColorBars(node) => node.value(core, inputs, time, table),
            BuiltIn::Ramp(node) => node.value(core, inputs, time, table),
            BuiltIn::GraphInput(node) => node.value(core, inputs, time, table),
            BuiltIn::GraphOutput(node) => node.value(core, inputs, time, table),
        }
    }

    /// A text node takes a changed HTML text over where that is due.
    fn input_value_changed(&mut self, core: &mut NodeCore, changed: &str, element: i32)
        ensures
            if (*old(self)) is Text && changed@ == TEXT_INPUT@ {
                textv3::migrates(old(core), final(core))
            } else {
                *final(core) == *old(core)
            },
            *final(self) == *old(self),
    {
        match self {
            BuiltIn::Text(node) => {
                node.input_value_changed(core, changed, element);
            },
            _ => {},
        }
    }

    /// A text node takes a loaded HTML text over where that is due.
    fn post_load(&mut self, core: &mut NodeCore)
        ensures
            if (*old(self)) is Text {
                textv3::migrates(old(core), final(core))
            } else {
                *final(core) == *old(core)
            },
            *final(self) == *old(self),
    {
        match self {
            BuiltIn::Text(node) => {
                node.post_load(core);
            },
            _ => {},
        }
    }

    /// There is no part of their own to read, so it is skipped; a text node
    /// takes a loaded HTML text over where that is due.
    fn load_custom(&mut self, core: &mut NodeCore, reader: &mut dyn XmlRead) -> (r: bool)
        ensures
            r,
            final(reader).skipped() == old(reader).skipped() + 1,
            if (*old(self)) is Text {
                textv3::migrates(old(core), final(core))
            } else {
                *final(core) == *old(core)
            },
            *final(self) == *old(self),
    {
        reader.skip_current_element();
        match self {
            BuiltIn::Text(node) => {
                node.post_load(core);
            },
            _ => {},
        }
        true
    }

    /// The endpoints of a graph cannot be copied.
    fn duplicate(&self, core: &NodeCore) -> (r: Option<Self>)
        ensures
            r == (if self is GraphInput || self is GraphOutput {
                None
            } else {
                Some(*self)
            }),
    {
        match self {
            BuiltIn::Text(node) => match node.duplicate(core) {
                Some(copy) => Some(BuiltIn::Text(copy)),
                None => None,
            },
            BuiltIn::Transition(node) => match node.duplicate(core) {
                Some(copy) => Some(BuiltIn::Transition(copy)),
                None => None,
            },
            BuiltIn::TransitionFx(node) => match node.duplicate(core) {
                Some(copy) => Some(BuiltIn::TransitionFx(copy)),
                None => None,
            },
            BuiltIn::ColorMatrix(node) => match node.duplicate(core) {
                Some(copy) => Some(BuiltIn::ColorMatrix(copy)),
                None => None,
            },
            BuiltIn::EdgeDetect(node) => match node.duplicate(core) {
                Some(copy) => Some(BuiltIn::EdgeDetect(copy)),
                None => None,
            },
            BuiltIn::Erode(node) => match node.duplicate(core) {
                Some(copy) => Some(BuiltIn::Erode(copy)),
                None => None,
            },
            BuiltIn::ColorCorrect(node) => match node.duplicate(core) {
                Some(copy) => Some(BuiltIn::ColorCorrect(copy)),
                None => None,
            },
            BuiltIn::Saturation(node) => match node.duplicate(core) {
                Some(copy) => Some(BuiltIn::Saturation(copy)),
                None => None,
            },
            BuiltIn::Invert(node) => match node.duplicate(core) {
                Some(copy) => Some(BuiltIn::Invert(copy)),
                None => None,
            },
            BuiltIn::Clamp(node) => match node.duplicate(core) {
                Some(copy) => Some(BuiltIn::Clamp(copy)),
                None => None,
            },
            BuiltIn::Grade(node) => match node.duplicate(core) {
                Some(copy) => Some(BuiltIn::Grade(copy)),
                None => None,
            },
            BuiltIn::DirBlur(node) => match node.duplicate(core) {
                Some(copy) => Some(BuiltIn::DirBlur(copy)),
                None => None,
            },
            BuiltIn::Sharpen(node) => match node.duplicate(core) {
                Some(copy) => Some(BuiltIn::Sharpen(copy)),
                None => None,
            },
            BuiltIn::Dissolve(node) => match node.duplicate(core) {
                Some(copy) => Some(BuiltIn::Dissolve(copy)),
                None => None,
            },
            BuiltIn::KeyMix(node) => match node.duplicate(core) {
                Some(copy) => Some(BuiltIn::KeyMix(copy)),
                None => None,
            },
            BuiltIn::Unpremultiply(node) => match node.duplicate(core) {
                Some(copy) => Some(BuiltIn::Unpremultiply(copy)),
                None => None,
            },
            BuiltIn::Position(node) => match node.duplicate(core) {
                Some(copy) => Some(BuiltIn::Position(copy)),
                None => None,
            },
            BuiltIn::Mirror(node) => match node.duplicate(core) {
                Some(copy) => Some(BuiltIn::Mirror(copy)),
                None => None,
            },
            BuiltIn::CheckerBoard(node) => match node.duplicate(core) {
                Some(copy) => Some(BuiltIn::CheckerBoard(copy)),
                None => None,
            },
            BuiltIn::ColorBars(node) => match node.duplicate(core) {
                Some(copy) => Some(BuiltIn::ColorBars(copy)),
                None => None,
            },
            BuiltIn::Ramp(node) => match node.duplicate(core) {
                Some(copy) => Some(BuiltIn::Ramp(copy)),
                None => None,
            },
            BuiltIn::GraphInput(node) => match node.duplicate(core) {
                Some(copy) => Some(BuiltIn::GraphInput(copy)),
                None => None,
            },
            BuiltIn::GraphOutput(node) => match node.duplicate(core) {
                Some(copy) => Some(BuiltIn::GraphOutput(copy)),
                None => None,
            },
        }
    }
}

/// The behavior of a node in a graph.
pub enum AnyBehavior {
    /// A built-in node.
    BuiltIn(BuiltIn),
    /// A node of the host's own.
    Custom(BoxedBehavior),
}

impl AnyBehavior {
    /// Whether evaluating the node with `row` at `time` may turn the
    /// table `before` into `after`.
    pub open spec fn emits(
        &self,
        core: &NodeCore,
        row: Map<Seq<char>, ValueModel>,
        time: Rational,
        before: Seq<TableEntry>,
        after: Seq<TableEntry>,
    ) -> bool {
        match self {
            AnyBehavior::BuiltIn(node) => node.emits(core, row, time, before, after),
            AnyBehavior::Custom(node) => node.behavior.emits(core, row, time, before, after),
        }
    }

    /// Evaluate the node: put its outputs into `table`.
    pub fn value(
        &self,
        core: &NodeCore,
        inputs: &NodeValueRow,
        time: Rational,
        table: &mut NodeValueTable,
    )
        ensures
            self.emits(core, inputs@, time, old(table)@, final(table)@),
    {
        match self {
            AnyBehavior::BuiltIn(node) => node.value(core, inputs, time, table),
            AnyBehavior::Custom(node) => node.behavior.value(core, inputs, time, table),
        }
    }
}

} // verus!
