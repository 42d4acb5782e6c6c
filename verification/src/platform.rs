//! Backend selection: which graphics API is in use and which of a shader
//! set's pipelines belongs to it, plus the context options a driver passes
//! to window creation.

use vstd::prelude::*;

verus! {

/// Options for creating a rendering context.
#[derive(Clone, Copy, Debug, Default, PartialEq, Eq, Structural)]
pub struct ContextBuilder {
    pub is_vsync_enabled: bool,
}

impl ContextBuilder {
    /// Default options: vsync off.
    pub fn new() -> (r: ContextBuilder)
        ensures
            !r.is_vsync_enabled,
    {
        ContextBuilder { is_vsync_enabled: false }
    }

    /// Choose whether the swap chain waits for vertical sync.
    pub fn with_vsync_enabled(self, vsync_enabled: bool) -> (r: ContextBuilder)
        ensures
            r.is_vsync_enabled == vsync_enabled,
    {
        ContextBuilder { is_vsync_enabled: vsync_enabled }
    }
}

/// The graphics API a device was created for.
#[derive(Clone, Copy, Debug, Eq, Hash, PartialEq, Structural)]
pub enum Backend {
    Gl,
    Metal,
    D3d11,
    Vulkan,
    __NonexhaustiveCheck,
}

impl Backend {
    /// Is this the OpenGL backend?
    pub fn is_gl(&self) -> (r: bool)
        ensures
            r == (*self == Backend::Gl),
    {
        if let Backend::Gl = *self {
            true
        } else {
            false
        }
    }

    /// Is this the Metal backend?
    pub fn is_metal(&self) -> (r: bool)
        ensures
            r == (*self == Backend::Metal),
    {
        if let Backend::Metal = *self {
            true
        } else {
            false
        }
    }

    /// Is this the Direct3D 11 backend?
    pub fn is_d3d11(&self) -> (r: bool)
        ensures
            r == (*self == Backend::D3d11),
    {
        if let Backend::D3d11 = *self {
            true
        } else {
            false
        }
    }

    /// Pick the shader pipeline matching this backend.  Only the backends a
    /// device can currently be created for are accepted.
    pub fn select<'a>(&self, shaders: Shaders<'a>) -> (r: ShaderPipeline<'a>)
        requires
            *self == Backend::Gl || *self == Backend::Metal || *self == Backend::D3d11,
        ensures
            *self == Backend::Gl ==> r == shaders.glsl150,
            *self == Backend::Metal ==> r == shaders.metal,
            *self == Backend::D3d11 ==> r == shaders.d3d11,
    {
        match *self {
            Backend::Gl => shaders.glsl150,
            Backend::Metal => shaders.metal,
            Backend::D3d11 => shaders.d3d11,
            _ => shaders.glsl150,
        }
    }
}

/// One shader pipeline per backend dialect.
#[derive(Clone, Copy, Debug, Eq, Hash, PartialEq)]
pub struct Shaders<'a> {
    pub d3d11: ShaderPipeline<'a>,
    pub glsl150: ShaderPipeline<'a>,
    pub glsl120: ShaderPipeline<'a>,
    pub metal: ShaderPipeline<'a>,
}

/// The stages of one shader pipeline, as compiled source or bytecode.
#[derive(Clone, Copy, Debug, Eq, Hash, PartialEq)]
pub enum ShaderPipeline<'a> {
    Simple { vertex: &'a [u8], pixel: &'a [u8] },
    Geometry { vertex: &'a [u8], geometry: &'a [u8], pixel: &'a [u8] },
    Full {
        vertex: &'a [u8],
        tess_control: &'a [u8],
        tess_evaluation: &'a [u8],
        geometry: &'a [u8],
        pixel: &'a [u8],
    },
}

} // verus!
