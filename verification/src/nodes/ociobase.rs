//! The base of nodes that apply a color conversion.

use std::sync::Arc;
use vstd::prelude::*;

use crate::handle;
use crate::handle::{Boxed, HandleModel};
use crate::jobs::{ColorProcessor, ColorTransformJobPayload, ColorTransformModel, Job, JobModel};
use crate::node::NodeCore;
use crate::nodes::effect;
use crate::rational::Rational;
use crate::value::{
    NodeValue, NodeValueRow, NodeValueTable, TableEntry, ValueModel, ValueType,
};

verus! {

/// The texture to convert.
pub const TEXTURE_INPUT: &'static str = "tex_in";

/// The color conversion base: holds the processor to apply, once there is
/// one.
pub struct OcioBase {
    /// The processor, shared with the jobs that carry it.
    pub processor: Option<Arc<ColorProcessor>>,
}

impl OcioBase {
    /// What the base puts out for `row`: the texture converted when there
    /// is a processor, the texture as it is when there is none, and
    /// nothing without a texture.
    pub open spec fn entries(
        &self,
        row: Map<Seq<char>, ValueModel>,
        time: Rational,
    ) -> Seq<TableEntry> {
        if !effect::has_texture(row, TEXTURE_INPUT@) {
            Seq::empty()
        } else {
            match self.processor {
                Some(processor) => seq![
                    effect::texture_entry(
                        ValueModel::Texture(
                            HandleModel::Job(
                                JobModel::ColorTransform(
                                    ColorTransformModel {
                                        color_processor: (*processor).view(),
                                        input: Box::new(row[TEXTURE_INPUT@]),
                                        time,
                                    },
                                ),
                            ),
                        ),
                    ),
                ],
                None => seq![effect::texture_entry(row[TEXTURE_INPUT@])],
            }
        }
    }

    /// A base without a processor.
    pub fn new() -> (r: OcioBase)
        ensures
            r.processor is None,
    {
        OcioBase { processor: None }
    }

    /// The processor.
    pub fn processor(&self) -> (r: Option<Arc<ColorProcessor>>)
        ensures
            r == self.processor,
    {
        match &self.processor {
            Some(processor) => Some(Arc::clone(processor)),
            None => None,
        }
    }

    /// Replace the processor.
    pub fn set_processor(&mut self, processor: Option<Arc<ColorProcessor>>)
        ensures
            final(self).processor == processor,
    {
        self.processor = processor;
    }

    /// Put out the texture: converted when there is a processor, as it is
    /// when there is none.
    pub fn value(
        &self,
        core: &NodeCore,
        inputs: &NodeValueRow,
        time: Rational,
        table: &mut NodeValueTable,
    )
        ensures
            final(table)@ == old(table)@ + self.entries(inputs@, time),
    {
        match inputs.get(TEXTURE_INPUT) {
            Some(texture) => match texture {
                NodeValue::Texture(_) => {
                    match self.processor() {
                        Some(processor) => {
                            let payload = ColorTransformJobPayload {
                                color_processor: processor,
                                input: texture.clone(),
                                time,
                            };
                            table.push(
                                ValueType::Texture,
                                NodeValue::Texture(
                                    handle::make_owned(
                                        Boxed::Job(Job::ColorTransformJob(payload)),
                                    ),
                                ),
                                None,
                            );
                        },
                        None => {
                            table.push(ValueType::Texture, texture.clone(), None);
                        },
                    }
                    assert(table@ =~= old(table)@ + self.entries(inputs@, time));
                },
                _ => {
                    assert(table@ =~= old(table)@ + self.entries(inputs@, time));
                },
            },
            None => {
                assert(table@ =~= old(table)@ + self.entries(inputs@, time));
            },
        }
    }

    /// The node was added to a graph: nothing to do.
    pub fn added_to_graph(&mut self, core: &mut NodeCore)
        ensures
            *final(self) == *old(self),
            *final(core) == *old(core),
    {
    }

    /// The node was removed from its graph: nothing to do.
    pub fn removed_from_graph(&mut self, core: &mut NodeCore)
        ensures
            *final(self) == *old(self),
            *final(core) == *old(core),
    {
    }
}

/// Converting a texture puts out a color transform of it with the node's
/// processor; without a processor the texture itself, and without a texture
/// nothing.
pub proof fn law_the_processor_converts_the_texture(
    base: &OcioBase,
    core: &NodeCore,
    inputs: &NodeValueRow,
    time: Rational,
    table: &mut NodeValueTable,
)
    requires
        call_ensures(OcioBase::value, (base, core, inputs, time, table), ()),
    ensures
        !(inputs@.contains_key("tex_in"@) && inputs@["tex_in"@] is Texture) ==> final(table)@
            == old(table)@,
        inputs@.contains_key("tex_in"@) && inputs@["tex_in"@] is Texture && base.processor is None
            ==> final(table)@ == old(table)@.push(
            (ValueType::Texture, inputs@["tex_in"@], None::<Seq<char>>),
        ),
        inputs@.contains_key("tex_in"@) && inputs@["tex_in"@] is Texture && base.processor is Some
            ==> {
            let texture = final(table)@[old(table)@.len() as int].1;
            &&& final(table)@ == old(table)@.push((ValueType::Texture, texture, None::<Seq<char>>))
            &&& texture matches ValueModel::Texture(
                HandleModel::Job(JobModel::ColorTransform(job)),
            ) && job.color_processor.source == base.processor->0.source@
                && job.color_processor.destination == base.processor->0.destination@ && *job.input
                == inputs@["tex_in"@] && job.time == time
        },
{
}

} // verus!
