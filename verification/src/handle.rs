//! Reference-counted handles: the boxes that texture values carry.

use std::sync::Arc;
use vstd::prelude::*;

use crate::jobs::{Job, JobModel, ShaderJobPayload, ShaderJobModel};
use crate::value::Color;

verus! {

/// A raster held in memory: eight-bit premultiplied RGBA coverage in
/// white, row by row, and the color that tints it.
#[derive(PartialEq, Debug)]
pub struct Frame {
    /// Width in pixels.
    pub width: i32,
    /// Height in pixels.
    pub height: i32,
    /// Four bytes per pixel.
    pub coverage: Vec<u8>,
    /// The color each channel is scaled by.
    pub tint: Color,
}

/// The contents of a [`Frame`].
#[verifier::ext_equal]
pub struct FrameModel {
    pub width: i32,
    pub height: i32,
    pub coverage: Seq<u8>,
    pub tint: Color,
}

/// A finished texture.
#[derive(PartialEq, Debug)]
pub enum Texture {
    /// A placeholder without pixels.
    Dummy,
    /// A raster in memory.
    Cpu(Frame),
}

/// What a handle can box.
#[derive(PartialEq, Debug)]
pub enum Boxed {
    /// A shader pass, boxed by itself.
    Shader(ShaderJobPayload),
    /// Any render job.
    Job(Job),
    /// A finished texture.
    Texture(Texture),
    /// A value of the render backend that this library does not read.
    Opaque(u64),
}

/// A shared handle to a [`Boxed`] value, or the null handle.
#[derive(PartialEq, Debug)]
pub struct CHandle {
    /// The box; `None` for the null handle.
    pub boxed: Option<Arc<Boxed>>,
}

/// What a [`CHandle`] stands for.
#[verifier::ext_equal]
pub enum HandleModel {
    Null,
    Shader(ShaderJobModel),
    Job(JobModel),
    DummyTexture,
    CpuTexture(FrameModel),
    Opaque(u64),
}

impl Frame {
    /// The contents of this frame.
    pub open spec fn view(&self) -> FrameModel {
        FrameModel {
            width: self.width,
            height: self.height,
            coverage: self.coverage@,
            tint: self.tint,
        }
    }
}

impl Boxed {
    /// What a handle to this box stands for.
    pub open spec fn view(&self) -> HandleModel
        decreases self,
    {
        match self {
            Boxed::Shader(payload) => HandleModel::Shader(payload.view()),
            Boxed::Job(job) => HandleModel::Job(job.view()),
            Boxed::Texture(Texture::Dummy) => HandleModel::DummyTexture,
            Boxed::Texture(Texture::Cpu(frame)) => HandleModel::CpuTexture(frame.view()),
            Boxed::Opaque(tag) => HandleModel::Opaque(*tag),
        }
    }
}

impl CHandle {
    /// What this handle stands for.
    pub open spec fn view(&self) -> HandleModel
        decreases self,
    {
        match self.boxed {
            None => HandleModel::Null,
            Some(boxed) => (*boxed).view(),
        }
    }

    /// The null handle.
    pub fn null() -> (r: CHandle)
        ensures
            r@ == HandleModel::Null,
    {
        CHandle { boxed: None }
    }

    /// Whether this is the null handle.
    pub fn is_null(&self) -> (r: bool)
        ensures
            r == (self@ == HandleModel::Null),
    {
        self.boxed.is_none()
    }
}

impl Clone for CHandle {
    /// Another handle to the same box.
    fn clone(&self) -> (r: CHandle)
        ensures
            r == *self,
    {
        match &self.boxed {
            Some(boxed) => CHandle { boxed: Some(boxed.clone()) },
            None => CHandle { boxed: None },
        }
    }
}

/// A new handle that owns `boxed`.
pub fn make_owned(boxed: Boxed) -> (r: CHandle)
    ensures
        r@ == boxed@,
        r@ != HandleModel::Null,
{
    CHandle { boxed: Some(Arc::new(boxed)) }
}

/// Borrow the shader pass that `handle` boxes by itself.
pub fn boxed_shader(handle: &CHandle) -> (r: Option<&ShaderJobPayload>)
    ensures
        match r {
            Some(payload) => handle@ == HandleModel::Shader(payload@),
            None => !(handle@ is Shader),
        },
{
    match &handle.boxed {
        Some(boxed) => match &**boxed {
            Boxed::Shader(payload) => Some(payload),
            _ => None,
        },
        None => None,
    }
}

/// Borrow the finished texture that `handle` boxes.
pub fn boxed_texture(handle: &CHandle) -> (r: Option<&Texture>)
    ensures
        match r {
            Some(Texture::Dummy) => handle@ == HandleModel::DummyTexture,
            Some(Texture::Cpu(frame)) => handle@ == HandleModel::CpuTexture(frame@),
            None => !(handle@ is DummyTexture) && !(handle@ is CpuTexture),
        },
{
    match &handle.boxed {
        Some(boxed) => match &**boxed {
            Boxed::Texture(texture) => Some(texture),
            _ => None,
        },
        None => None,
    }
}

} // verus!
