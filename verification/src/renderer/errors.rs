//! Errors of pipeline creation and rendering.

use vstd::prelude::*;
use crate::text::{append_str, string_of};

verus! {

/// Why the GPU pipeline could not be created.
#[derive(Debug, Clone, PartialEq, Eq)]
pub enum PipelineError {
    /// No adapter supports the required backends.
    NoAdapter,
    /// The device could not be requested.
    DeviceError(String),
    /// The surface could not be created or configured.
    SurfaceError(String),
    /// The wrapped shader did not compile.
    ShaderError(String),
}

/// Why a frame could not be rendered.
#[derive(Debug, Clone, PartialEq, Eq)]
pub enum RendererError {
    /// Pipeline creation failed.
    Pipeline(PipelineError),
    /// The surface failed while rendering.
    Surface(String),
}

/// The text of a pipeline error.
pub open spec fn pipeline_error_text(e: PipelineError) -> Seq<char> {
    match e {
        PipelineError::NoAdapter =>
            "no compatible GPU adapter found \u{2014} requires Vulkan 1.0, Direct3D 12, Metal, or OpenGL 3.3+"@,
        PipelineError::DeviceError(m) => "GPU device error: "@ + m@,
        PipelineError::SurfaceError(m) => "surface error: "@ + m@,
        PipelineError::ShaderError(m) => "shader compilation failed: "@ + m@,
    }
}

/// The text of a renderer error.
pub open spec fn renderer_error_text(e: RendererError) -> Seq<char> {
    match e {
        RendererError::Pipeline(p) => pipeline_error_text(p),
        RendererError::Surface(m) => "surface error: "@ + m@,
    }
}

impl PipelineError {
    /// The error's text, as shown to the user.
    pub fn message(&self) -> (s: String)
        ensures
            s@ == pipeline_error_text(*self),
    {
        let mut v: Vec<char> = Vec::new();
        match self {
            PipelineError::NoAdapter => {
                append_str(
                    &mut v,
                    "no compatible GPU adapter found \u{2014} requires Vulkan 1.0, Direct3D 12, Metal, or OpenGL 3.3+",
                );
            },
            PipelineError::DeviceError(m) => {
                append_str(&mut v, "GPU device error: ");
                append_str(&mut v, m.as_str());
            },
            PipelineError::SurfaceError(m) => {
                append_str(&mut v, "surface error: ");
                append_str(&mut v, m.as_str());
            },
            PipelineError::ShaderError(m) => {
                append_str(&mut v, "shader compilation failed: ");
                append_str(&mut v, m.as_str());
            },
        }
        assert(v@ =~= pipeline_error_text(*self));
        string_of(v.as_slice())
    }
}

impl RendererError {
    /// Whether the renderer failed because the shader did not compile.
    pub fn is_shader_error(&self) -> (b: bool)
        ensures
            b == (self matches RendererError::Pipeline(PipelineError::ShaderError(_))),
    {
        match self {
            RendererError::Pipeline(PipelineError::ShaderError(_)) => true,
            _ => false,
        }
    }

    /// Whether the renderer failed because no GPU adapter was found.
    pub fn is_no_adapter(&self) -> (b: bool)
        ensures
            b == (self matches RendererError::Pipeline(PipelineError::NoAdapter)),
    {
        match self {
            RendererError::Pipeline(PipelineError::NoAdapter) => true,
            _ => false,
        }
    }

    /// The error's text, as shown to the user.
    pub fn message(&self) -> (s: String)
        ensures
            s@ == renderer_error_text(*self),
    {
        match self {
            RendererError::Pipeline(p) => p.message(),
            RendererError::Surface(m) => {
                let mut v: Vec<char> = Vec::new();
                append_str(&mut v, "surface error: ");
                append_str(&mut v, m.as_str());
                string_of(v.as_slice())
            },
        }
    }
}

impl From<PipelineError> for RendererError {
    fn from(e: PipelineError) -> (r: RendererError) {
        RendererError::Pipeline(e)
    }
}

impl vstd::std_specs::convert::FromSpecImpl<PipelineError> for RendererError {
    open spec fn obeys_from_spec() -> bool {
        true
    }

    open spec fn from_spec(e: PipelineError) -> RendererError {
        RendererError::Pipeline(e)
    }
}

} // verus!
