use vstd::prelude::*;

verus! {

broadcast use vstd::string::group_string_axioms;

/// Shader stages, as bit flags.
#[derive(Debug, Clone, Copy, PartialEq, Eq, Structural)]
pub enum ShaderStageFlagBit {
    NoStage,
    Vertex,
    Fragment,
    Compute,
    All,
}

impl Default for ShaderStageFlagBit {
    fn default() -> (r: Self)
        ensures
            r == ShaderStageFlagBit::NoStage,
    {
        ShaderStageFlagBit::NoStage
    }
}

/// GLSL type of a uniform.
#[derive(Debug, Clone, Copy, PartialEq, Eq, Structural)]
pub enum UniformType {
    Float,
    Vec2,
    Vec3,
    Vec4,
    Int,
    IVec2,
    IVec3,
    IVec4,
    Mat3,
    Mat4,
    Sampler2D,
    SamplerCube,
}

impl Default for UniformType {
    fn default() -> (r: Self)
        ensures
            r == UniformType::Float,
    {
        UniformType::Float
    }
}

/// A named uniform with its type and array length.
#[derive(Debug, Clone)]
pub struct UniformInfo {
    pub name: String,
    pub uniform_type: UniformType,
    pub count: u32,
}

impl UniformInfo {
    /// A scalar (array length 1) uniform.
    pub fn new(name: &str, uniform_type: UniformType) -> (r: Self)
        ensures
            r.name@ == name@,
            r.uniform_type == uniform_type,
            r.count == 1,
    {
        UniformInfo { name: name.to_string(), uniform_type, count: 1 }
    }

    /// The same uniform with the given array length.
    pub fn with_count(self, count: u32) -> (r: Self)
        ensures
            r.name@ == self.name@,
            r.uniform_type == self.uniform_type,
            r.count == count,
    {
        let mut s = self;
        s.count = count;
        s
    }
}

/// A uniform block bound at a descriptor binding.
#[derive(Debug, Clone)]
pub struct UniformBlock {
    pub name: String,
    pub binding: u32,
    pub set: u32,
    pub members: Vec<UniformInfo>,
}

impl UniformBlock {
    /// An empty block in descriptor set 0.
    pub fn new(name: &str, binding: u32) -> (r: Self)
        ensures
            r.name@ == name@,
            r.binding == binding,
            r.set == 0,
            r.members@.len() == 0,
    {
        UniformBlock { name: name.to_string(), binding, set: 0, members: Vec::new() }
    }

    /// Appends a member at the end of the block.
    pub fn add_member(&mut self, member: UniformInfo)
        ensures
            final(self).members@ == old(self).members@.push(member),
            final(self).name@ == old(self).name@,
            final(self).binding == old(self).binding,
            final(self).set == old(self).set,
    {
        self.members.push(member);
    }
}

/// A combined sampler/texture binding.
#[derive(Debug, Clone)]
pub struct UniformSamplerTexture {
    pub name: String,
    pub binding: u32,
    pub set: u32,
    pub sampler_type: UniformType,
    pub count: u32,
}

impl UniformSamplerTexture {
    /// A single 2D sampler in descriptor set 0.
    pub fn new(name: &str, binding: u32) -> (r: Self)
        ensures
            r.name@ == name@,
            r.binding == binding,
            r.set == 0,
            r.sampler_type == UniformType::Sampler2D,
            r.count == 1,
    {
        UniformSamplerTexture {
            name: name.to_string(),
            binding,
            set: 0,
            sampler_type: UniformType::Sampler2D,
            count: 1,
        }
    }
}

/// Source code of one shader stage.
#[derive(Debug, Clone)]
pub struct ShaderStageInfo {
    pub stage: ShaderStageFlagBit,
    pub source: String,
}

impl ShaderStageInfo {
    pub fn new(stage: ShaderStageFlagBit, source: &str) -> (r: Self)
        ensures
            r.stage == stage,
            r.source@ == source@,
    {
        ShaderStageInfo { stage, source: source.to_string() }
    }
}

/// A shader program: its stages, attributes, blocks and samplers.
#[derive(Debug, Clone)]
pub struct ShaderInfo {
    pub name: String,
    pub stages: Vec<ShaderStageInfo>,
    pub attributes: Vec<String>,
    pub blocks: Vec<UniformBlock>,
    pub samplers: Vec<UniformSamplerTexture>,
}

impl ShaderInfo {
    /// A shader with nothing in it yet.
    pub fn new(name: &str) -> (r: Self)
        ensures
            r.name@ == name@,
            r.stages@.len() == 0,
            r.attributes@.len() == 0,
            r.blocks@.len() == 0,
            r.samplers@.len() == 0,
    {
        ShaderInfo {
            name: name.to_string(),
            stages: Vec::new(),
            attributes: Vec::new(),
            blocks: Vec::new(),
            samplers: Vec::new(),
        }
    }

    pub fn add_stage(&mut self, stage: ShaderStageInfo)
        ensures
            final(self).stages@ == old(self).stages@.push(stage),
            final(self).name@ == old(self).name@,
            final(self).attributes@ == old(self).attributes@,
            final(self).blocks@ == old(self).blocks@,
            final(self).samplers@ == old(self).samplers@,
    {
        self.stages.push(stage);
    }

    pub fn add_block(&mut self, block: UniformBlock)
        ensures
            final(self).blocks@ == old(self).blocks@.push(block),
            final(self).name@ == old(self).name@,
            final(self).stages@ == old(self).stages@,
            final(self).attributes@ == old(self).attributes@,
            final(self).samplers@ == old(self).samplers@,
    {
        self.blocks.push(block);
    }

    pub fn add_sampler(&mut self, sampler: UniformSamplerTexture)
        ensures
            final(self).samplers@ == old(self).samplers@.push(sampler),
            final(self).name@ == old(self).name@,
            final(self).stages@ == old(self).stages@,
            final(self).attributes@ == old(self).attributes@,
            final(self).blocks@ == old(self).blocks@,
    {
        self.samplers.push(sampler);
    }
}

impl Default for ShaderInfo {
    fn default() -> (r: Self)
        ensures
            r.name@.len() == 0,
            r.stages@.len() == 0,
            r.attributes@.len() == 0,
            r.blocks@.len() == 0,
            r.samplers@.len() == 0,
    {
        proof {
            reveal_strlit("");
        }
        Self::new("")
    }
}

/// Blend factors for color and alpha blending.
#[derive(Debug, Clone, Copy, PartialEq, Eq, Structural)]
pub enum BlendFactor {
    Zero,
    One,
    SrcAlpha,
    OneMinusSrcAlpha,
    DstAlpha,
    OneMinusDstAlpha,
}

impl Default for BlendFactor {
    fn default() -> (r: Self)
        ensures
            r == BlendFactor::One,
    {
        BlendFactor::One
    }
}

/// Depth and stencil comparison functions.
#[derive(Debug, Clone, Copy, PartialEq, Eq, Structural)]
pub enum ComparisonFunc {
    Never,
    Less,
    Equal,
    LessEqual,
    Greater,
    NotEqual,
    GreaterEqual,
    Always,
}

impl Default for ComparisonFunc {
    fn default() -> (r: Self)
        ensures
            r == ComparisonFunc::Less,
    {
        ComparisonFunc::Less
    }
}

/// Blend equation settings of a pass.
#[derive(Debug, Clone)]
pub struct BlendState {
    pub blend_src: BlendFactor,
    pub blend_dst: BlendFactor,
    pub blend_src_alpha: BlendFactor,
    pub blend_dst_alpha: BlendFactor,
    pub is_blend: bool,
}

impl Default for BlendState {
    /// Premultiplied-style source-alpha blending, switched off.
    fn default() -> (r: Self)
        ensures
            r.blend_src == BlendFactor::SrcAlpha,
            r.blend_dst == BlendFactor::OneMinusSrcAlpha,
            r.blend_src_alpha == BlendFactor::One,
            r.blend_dst_alpha == BlendFactor::OneMinusSrcAlpha,
            !r.is_blend,
    {
        BlendState {
            blend_src: BlendFactor::SrcAlpha,
            blend_dst: BlendFactor::OneMinusSrcAlpha,
            blend_src_alpha: BlendFactor::One,
            blend_dst_alpha: BlendFactor::OneMinusSrcAlpha,
            is_blend: false,
        }
    }
}

/// Depth test settings of a pass.
#[derive(Debug, Clone)]
pub struct DepthStencilState {
    pub depth_test: bool,
    pub depth_write: bool,
    pub depth_func: ComparisonFunc,
}

impl Default for DepthStencilState {
    /// Depth test and write on, passing fragments that are nearer.
    fn default() -> (r: Self)
        ensures
            r.depth_test,
            r.depth_write,
            r.depth_func == ComparisonFunc::Less,
    {
        DepthStencilState { depth_test: true, depth_write: true, depth_func: ComparisonFunc::Less }
    }
}

/// Which triangle faces are culled.
#[derive(Debug, Clone, Copy, PartialEq, Eq, Structural)]
pub enum CullMode {
    NoCull,
    Front,
    Back,
    FrontAndBack,
}

impl Default for CullMode {
    fn default() -> (r: Self)
        ensures
            r == CullMode::Back,
    {
        CullMode::Back
    }
}

} // verus!
