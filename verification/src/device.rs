//! The backend-independent descriptor vocabulary of the rendering layer:
//! formats, usage flags and creation descriptors that a renderer consumes
//! when it binds the built asset as GPU buffers. These are plain data;
//! the flag types carry verified bit-set operations.

use vstd::prelude::*;

verus! {

pub struct RenderPassDescriptor {
    pub color_format: TextureFormat,
    pub depth_stencil_format: Option<TextureFormat>,
}

#[derive(Clone, Copy, PartialEq, Eq, Debug)]
pub enum TextureFormat {
    Bgra8UnormSrgb,
    Rgba8UnormSrgb,
    Rgba8Unorm,
    Depth32Float,
}

#[derive(Clone, Copy, PartialEq, Eq, Debug)]
pub enum ImageLayout {
    Undefined,
    General,
    TransferSrc,
    TransferDst,
    ShaderReadOnly,
}

pub struct TextureDescriptor {
    pub width: u32,
    pub height: u32,
    pub depth: u32,
    pub format: TextureFormat,
    pub usage: TextureUsage,
}

/// A bit set of texture usages.
#[derive(Clone, Copy, PartialEq, Eq, Debug)]
pub struct TextureUsage(pub u32);

pub const TEXTURE_USAGE_TEXTURE_BINDING: u32 = 0x01;

pub const TEXTURE_USAGE_STORAGE_BINDING: u32 = 0x02;

pub const TEXTURE_USAGE_RENDER_ATTACHMENT: u32 = 0x04;

pub const TEXTURE_USAGE_DEPTH_STENCIL_ATTACHMENT: u32 = 0x08;

pub const TEXTURE_USAGE_COPY_SRC: u32 = 0x10;

pub const TEXTURE_USAGE_COPY_DST: u32 = 0x20;

impl TextureUsage {
    /// The union of two usage sets.
    pub fn bitor(self, rhs: Self) -> (r: Self)
        ensures
            r.0 == self.0 | rhs.0,
    {
        TextureUsage(self.0 | rhs.0)
    }

    /// Whether every usage of `rhs` is present in `self`.
    pub fn contains(self, rhs: Self) -> (b: bool)
        ensures
            b == (self.0 & rhs.0 == rhs.0),
    {
        self.0 & rhs.0 == rhs.0
    }
}

pub struct SamplerDescriptor {
    pub min_filter: FilterMode,
    pub mag_filter: FilterMode,
    pub address_mode_u: AddressMode,
    pub address_mode_v: AddressMode,
}

#[derive(Clone, Copy, PartialEq, Eq, Debug)]
pub enum FilterMode {
    Nearest,
    Linear,
}

#[derive(Clone, Copy, PartialEq, Eq, Debug)]
pub enum AddressMode {
    Repeat,
    MirrorRepeat,
    ClampToEdge,
}

pub struct TextureViewDescriptor {
    pub format: Option<TextureFormat>,
}

#[derive(Clone, Copy, Debug)]
pub struct DepthStencilState {
    pub format: TextureFormat,
    pub depth_write_enabled: bool,
    pub depth_compare: CompareFunction,
}

#[derive(Clone, Copy, Debug)]
pub enum CompareFunction {
    Never,
    Less,
    Equal,
    LessEqual,
    Greater,
    NotEqual,
    GreaterEqual,
    Always,
}

pub struct PrimitiveState {
    pub topology: PrimitiveTopology,
}

pub enum PrimitiveTopology {
    TriangleList,
}

#[derive(Clone, Debug)]
pub struct VertexAttribute {
    pub location: u32,
    pub format: VertexFormat,
    pub offset: u32,
}

#[derive(Clone, Copy, Debug)]
pub enum VertexFormat {
    Float32x2,
    Float32x3,
    Float32x4,
}

#[derive(Clone, Debug)]
pub struct VertexLayout {
    pub array_stride: u32,
    pub attributes: Vec<VertexAttribute>,
}

pub struct SwapchainDescriptor {
    pub width: u32,
    pub height: u32,
}

pub struct BufferDescriptor {
    pub size: u64,
    pub usage: BufferUsage,
    pub mapped_at_creation: bool,
}

/// A bit set of buffer usages.
#[derive(Clone, Copy, PartialEq, Eq, Debug)]
pub struct BufferUsage(pub u32);

pub const BUFFER_USAGE_VERTEX: u32 = 0x01;

pub const BUFFER_USAGE_INDEX: u32 = 0x02;

pub const BUFFER_USAGE_UNIFORM: u32 = 0x04;

pub const BUFFER_USAGE_STORAGE: u32 = 0x08;

pub const BUFFER_USAGE_COPY_SRC: u32 = 0x10;

pub const BUFFER_USAGE_COPY_DST: u32 = 0x20;

impl BufferUsage {
    /// The union of two usage sets.
    pub fn bitor(self, rhs: Self) -> (r: Self)
        ensures
            r.0 == self.0 | rhs.0,
    {
        BufferUsage(self.0 | rhs.0)
    }

    /// Whether every usage of `rhs` is present in `self`.
    pub fn contains(self, rhs: Self) -> (b: bool)
        ensures
            b == (self.0 & rhs.0 == rhs.0),
    {
        self.0 & rhs.0 == rhs.0
    }
}

pub struct BindGroupLayoutDescriptor {
    pub entries: Vec<BindGroupLayoutEntry>,
}

pub struct BindGroupLayoutEntry {
    pub binding: u32,
    pub visibility: ShaderStage,
    pub ty: BindingType,
}

/// A bit set of shader stages.
#[derive(Clone, Copy, PartialEq, Eq, Debug)]
pub struct ShaderStage(pub u32);

pub const SHADER_STAGE_VERTEX: u32 = 0x01;

pub const SHADER_STAGE_FRAGMENT: u32 = 0x02;

pub const SHADER_STAGE_COMPUTE: u32 = 0x04;

impl ShaderStage {
    /// The union of two stage sets.
    pub fn bitor(self, rhs: Self) -> (r: Self)
        ensures
            r.0 == self.0 | rhs.0,
    {
        ShaderStage(self.0 | rhs.0)
    }

    /// Whether every stage of `rhs` is present in `self`.
    pub fn contains(self, rhs: Self) -> (b: bool)
        ensures
            b == (self.0 & rhs.0 == rhs.0),
    {
        self.0 & rhs.0 == rhs.0
    }
}

#[derive(Clone, Copy, Debug, PartialEq, Eq)]
pub enum BindingType {
    UniformBuffer,
    StorageBuffer,
    SampledTexture,
    Sampler,
}

} // verus!
