//! Render-job payloads: boxed inside texture values while a graph is
//! evaluated, and turned into textures by the render hooks afterwards.

use std::sync::Arc;
use vstd::prelude::*;

use crate::handle::{Boxed, CHandle, HandleModel};
use crate::id;
use crate::id::NodeId;
use crate::rational::Rational;
use crate::value::{NodeValue, NodeValueRow, ValueModel};

verus! {

/// A color conversion between two named color spaces. The library only
/// hands it on; the renderer applies it.
#[derive(Clone, PartialEq, Debug)]
pub struct ColorProcessor {
    /// The color space of the incoming picture.
    pub source: String,
    /// The color space of the outgoing picture.
    pub destination: String,
}

/// The names a [`ColorProcessor`] holds.
#[verifier::ext_equal]
pub struct ProcessorModel {
    pub source: Seq<char>,
    pub destination: Seq<char>,
}

/// A plugin render request.
#[derive(Clone, PartialEq, Debug)]
pub struct PluginJobPayload {
    /// The plugin's type id.
    pub type_id: String,
    /// Request time in media seconds.
    pub time: Rational,
    /// The parameter row.
    pub params: NodeValueRow,
}

/// The contents of a [`PluginJobPayload`].
#[verifier::ext_equal]
pub struct PluginJobModel {
    pub type_id: Seq<char>,
    pub time: Rational,
    pub params: Map<Seq<char>, ValueModel>,
}

/// A footage decode request: what a footage node emits in place of a
/// texture.
#[derive(Clone, PartialEq, Debug)]
pub struct FootageJobPayload {
    /// Footage file path.
    pub filename: String,
    /// Container stream index.
    pub stream_index: i32,
    /// Request time in media seconds.
    pub time: Rational,
}

/// The contents of a [`FootageJobPayload`].
#[verifier::ext_equal]
pub struct FootageJobModel {
    pub filename: Seq<char>,
    pub stream_index: i32,
    pub time: Rational,
}

/// A GPU shader pass. The fragment shader is looked up by `type_id` and
/// `shader_id` in the node behavior; the parameter row carries the
/// uniforms, the effect input texture among them.
#[derive(Clone, PartialEq, Debug)]
pub struct ShaderJobPayload {
    /// The node that emitted the job.
    pub node_id: NodeId,
    /// Request time in media seconds.
    pub time: Rational,
    /// Number of passes.
    pub iterations: i32,
    /// Type id of the node behavior that owns the shader.
    pub type_id: String,
    /// Shader variant; empty for the default one.
    pub shader_id: String,
    /// The parameter key of the main input texture.
    pub effect_input: String,
    /// Uniform values by input id.
    pub params: NodeValueRow,
    /// The texture that iterated passes feed back into; empty for the
    /// effect input.
    pub iterative_input: String,
}

/// The contents of a [`ShaderJobPayload`].
#[verifier::ext_equal]
pub struct ShaderJobModel {
    pub node_id: NodeId,
    pub time: Rational,
    pub iterations: i32,
    pub type_id: Seq<char>,
    pub shader_id: Seq<char>,
    pub effect_input: Seq<char>,
    pub params: Map<Seq<char>, ValueModel>,
    pub iterative_input: Seq<char>,
}

/// A color transform: the processor and the texture value it applies
/// to. The processor is shared with the node that made it.
#[derive(Clone, PartialEq, Debug)]
pub struct ColorTransformJobPayload {
    /// The processor to apply.
    pub color_processor: Arc<ColorProcessor>,
    /// The input texture value.
    pub input: NodeValue,
    /// Request time in media seconds.
    pub time: Rational,
}

/// The contents of a [`ColorTransformJobPayload`].
#[verifier::ext_equal]
pub struct ColorTransformModel {
    pub color_processor: ProcessorModel,
    pub input: Box<ValueModel>,
    pub time: Rational,
}

/// A read of one cached frame, with the value to use when the cache file
/// cannot be read.
#[derive(Clone, PartialEq, Debug)]
pub struct CacheJobPayload {
    /// Path of the cache file.
    pub path: String,
    /// Request time in media seconds.
    pub time: Rational,
    /// The value to substitute.
    pub fallback: Box<NodeValue>,
}

/// The contents of a [`CacheJobPayload`].
#[verifier::ext_equal]
pub struct CacheJobModel {
    pub path: Seq<char>,
    pub time: Rational,
    pub fallback: Box<ValueModel>,
}

/// One render job.
#[derive(Clone, PartialEq, Debug)]
pub enum Job {
    /// A footage decode request.
    FootageJob(FootageJobPayload),
    /// A GPU shader pass.
    ShaderJob(ShaderJobPayload),
    /// A plugin render.
    PluginJob(PluginJobPayload),
    /// A color transform.
    ColorTransformJob(ColorTransformJobPayload),
    /// A frame-cache read.
    CacheJob(CacheJobPayload),
}

/// The contents of a [`Job`].
#[verifier::ext_equal]
pub enum JobModel {
    Footage(FootageJobModel),
    Shader(ShaderJobModel),
    Plugin(PluginJobModel),
    ColorTransform(ColorTransformModel),
    Cache(CacheJobModel),
}

impl ColorProcessor {
    /// The two names.
    pub open spec fn view(&self) -> ProcessorModel {
        ProcessorModel { source: self.source@, destination: self.destination@ }
    }
}

impl PluginJobPayload {
    /// The contents of this payload.
    pub open spec fn view(&self) -> PluginJobModel
        decreases self,
    {
        PluginJobModel { type_id: self.type_id@, time: self.time, params: self.params.view() }
    }
}

impl FootageJobPayload {
    /// The contents of this payload.
    pub open spec fn view(&self) -> FootageJobModel {
        FootageJobModel {
            filename: self.filename@,
            stream_index: self.stream_index,
            time: self.time,
        }
    }
}

impl ShaderJobPayload {
    /// The contents of this payload.
    pub open spec fn view(&self) -> ShaderJobModel
        decreases self,
    {
        ShaderJobModel {
            node_id: self.node_id,
            time: self.time,
            iterations: self.iterations,
            type_id: self.type_id@,
            shader_id: self.shader_id@,
            effect_input: self.effect_input@,
            params: self.params.view(),
            iterative_input: self.iterative_input@,
        }
    }
}

impl ColorTransformJobPayload {
    /// The contents of this payload.
    pub open spec fn view(&self) -> ColorTransformModel
        decreases self,
    {
        ColorTransformModel {
            color_processor: (*self.color_processor).view(),
            input: Box::new(self.input.view()),
            time: self.time,
        }
    }
}

impl CacheJobPayload {
    /// The contents of this payload.
    pub open spec fn view(&self) -> CacheJobModel
        decreases self,
    {
        CacheJobModel {
            path: self.path@,
            time: self.time,
            fallback: Box::new((*self.fallback).view()),
        }
    }
}

impl Default for FootageJobPayload {
    fn default() -> (r: Self)
        ensures
            r.filename@ == Seq::<char>::empty(),
            r.stream_index == 0,
            r.time.spec_numer() == 0,
            r.time.spec_denom() == 1,
    {
        FootageJobPayload {
            filename: String::new(),
            stream_index: 0,
            time: Rational::zero(),
        }
    }
}

impl Default for ShaderJobPayload {
    fn default() -> (r: Self)
        ensures
            r.node_id == id::invalid_id(),
            r.time.spec_numer() == 0,
            r.time.spec_denom() == 1,
            r.iterations == 1,
            r.type_id@ == Seq::<char>::empty(),
            r.shader_id@ == Seq::<char>::empty(),
            r.effect_input@ == Seq::<char>::empty(),
            r.params@ == Map::<Seq<char>, ValueModel>::empty(),
            r.iterative_input@ == Seq::<char>::empty(),
    {
        ShaderJobPayload {
            node_id: NodeId::invalid(),
            time: Rational::zero(),
            iterations: 1,
            type_id: String::new(),
            shader_id: String::new(),
            effect_input: String::new(),
            params: NodeValueRow::new(),
            iterative_input: String::new(),
        }
    }
}

impl Job {
    /// The contents of this job.
    pub open spec fn view(&self) -> JobModel
        decreases self,
    {
        match self {
            Job::FootageJob(payload) => JobModel::Footage(payload.view()),
            Job::ShaderJob(payload) => JobModel::Shader(payload.view()),
            Job::PluginJob(payload) => JobModel::Plugin(payload.view()),
            Job::ColorTransformJob(payload) => JobModel::ColorTransform(payload.view()),
            Job::CacheJob(payload) => JobModel::Cache(payload.view()),
        }
    }

    /// Borrow the payload when this is a [`Job::FootageJob`].
    pub fn as_footage(&self) -> (r: Option<&FootageJobPayload>)
        ensures
            match r {
                Some(payload) => *self == Job::FootageJob(*payload),
                None => !(self is FootageJob),
            },
    {
        match self {
            Job::FootageJob(payload) => Some(payload),
            _ => None,
        }
    }

    /// Borrow the payload when this is a [`Job::ShaderJob`].
    pub fn as_shader(&self) -> (r: Option<&ShaderJobPayload>)
        ensures
            match r {
                Some(payload) => *self == Job::ShaderJob(*payload),
                None => !(self is ShaderJob),
            },
    {
        match self {
            Job::ShaderJob(payload) => Some(payload),
            _ => None,
        }
    }

    /// Borrow the payload when this is a [`Job::PluginJob`].
    pub fn as_plugin(&self) -> (r: Option<&PluginJobPayload>)
        ensures
            match r {
                Some(payload) => *self == Job::PluginJob(*payload),
                None => !(self is PluginJob),
            },
    {
        match self {
            Job::PluginJob(payload) => Some(payload),
            _ => None,
        }
    }

    /// Borrow the payload when this is a [`Job::ColorTransformJob`].
    pub fn as_color_transform(&self) -> (r: Option<&ColorTransformJobPayload>)
        ensures
            match r {
                Some(payload) => *self == Job::ColorTransformJob(*payload),
                None => !(self is ColorTransformJob),
            },
    {
        match self {
            Job::ColorTransformJob(payload) => Some(payload),
            _ => None,
        }
    }

    /// Borrow the payload when this is a [`Job::CacheJob`].
    pub fn as_cache(&self) -> (r: Option<&CacheJobPayload>)
        ensures
            match r {
                Some(payload) => *self == Job::CacheJob(*payload),
                None => !(self is CacheJob),
            },
    {
        match self {
            Job::CacheJob(payload) => Some(payload),
            _ => None,
        }
    }
}

/// The job that `h` boxes; `None` when the handle is null or boxes
/// anything else.
pub open spec fn job_of(h: &CHandle) -> Option<Job> {
    match h.boxed {
        Some(boxed) => match *boxed {
            Boxed::Job(job) => Some(job),
            _ => None,
        },
        None => None,
    }
}

/// Borrow the [`Job`] boxed in `h`; `None` when the handle is null or
/// boxes anything else (a finished texture, say).
pub fn job_ref(h: &CHandle) -> (r: Option<&Job>)
    ensures
        match r {
            Some(job) => job_of(h) == Some(*job) && h@ == HandleModel::Job(job@),
            None => job_of(h) is None && !(h@ is Job),
        },
{
    match &h.boxed {
        Some(boxed) => match &**boxed {
            Boxed::Job(job) => Some(job),
            _ => None,
        },
        None => None,
    }
}

/// Borrow the [`FootageJobPayload`] boxed in `h`; `None` for the null
/// handle and for any other payload.
pub fn footage_job(h: &CHandle) -> (r: Option<&FootageJobPayload>)
    ensures
        match r {
            Some(payload) => h@ == HandleModel::Job(JobModel::Footage(payload@)),
            None => !(h@ matches HandleModel::Job(JobModel::Footage(_))),
        },
{
    match job_ref(h) {
        Some(job) => job.as_footage(),
        None => None,
    }
}

/// Borrow the [`ShaderJobPayload`] boxed in `h` as a job; `None` for the
/// null handle and for any other payload.
pub fn shader_job(h: &CHandle) -> (r: Option<&ShaderJobPayload>)
    ensures
        match r {
            Some(payload) => h@ == HandleModel::Job(JobModel::Shader(payload@)),
            None => !(h@ matches HandleModel::Job(JobModel::Shader(_))),
        },
{
    match job_ref(h) {
        Some(job) => job.as_shader(),
        None => None,
    }
}

/// Borrow the [`PluginJobPayload`] boxed in `h`; `None` for the null
/// handle and for any other payload.
pub fn plugin_job(h: &CHandle) -> (r: Option<&PluginJobPayload>)
    ensures
        match r {
            Some(payload) => h@ == HandleModel::Job(JobModel::Plugin(payload@)),
            None => !(h@ matches HandleModel::Job(JobModel::Plugin(_))),
        },
{
    match job_ref(h) {
        Some(job) => job.as_plugin(),
        None => None,
    }
}

/// Borrow the [`ColorTransformJobPayload`] boxed in `h`; `None` for the
/// null handle and for any other payload.
pub fn color_transform_job(h: &CHandle) -> (r: Option<&ColorTransformJobPayload>)
    ensures
        match r {
            Some(payload) => h@ == HandleModel::Job(JobModel::ColorTransform(payload@)),
            None => !(h@ matches HandleModel::Job(JobModel::ColorTransform(_))),
        },
{
    match job_ref(h) {
        Some(job) => job.as_color_transform(),
        None => None,
    }
}

/// Borrow the [`CacheJobPayload`] boxed in `h`; `None` for the null
/// handle and for any other payload.
pub fn cache_job(h: &CHandle) -> (r: Option<&CacheJobPayload>)
    ensures
        match r {
            Some(payload) => h@ == HandleModel::Job(JobModel::Cache(payload@)),
            None => !(h@ matches HandleModel::Job(JobModel::Cache(_))),
        },
{
    match job_ref(h) {
        Some(job) => job.as_cache(),
        None => None,
    }
}

} // verus!
