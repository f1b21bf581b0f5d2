//! What the splat pass asks of the GPU, as plain descriptions: the buffers with
//! their sizes and uses, the three bind-group layouts and what is bound in
//! them, the compute programs, and the fixed state of the render pipeline.

use vstd::prelude::*;

verus! {

/// Bytes of one projected splat.
pub const SPLAT_SIZE: u64 = 48;

/// Bytes of one sort key, and of one sort value.
pub const SORT_ENTRY_SIZE: u64 = 4;

/// Bytes of the indirect-draw header.
pub const DRAW_INDIRECT_SIZE: u64 = 16;

/// Vertices of one splat quad: two triangles.
pub const QUAD_VERTEX_COUNT: u32 = 6;

/// Words of the frame uniforms.
pub const UNIFORM_WORDS: usize = 40;

/// Bytes of the frame uniforms.
pub const UNIFORMS_SIZE: u64 = 160;

/// Bytes of the stand-in sort table that is allocated when the plan has no
/// stage, so that the sort bind group can still be made.
pub const EMPTY_SORT_TABLE_SIZE: usize = 256;

/// The buffers of the pass.
#[derive(Clone, Copy, Debug, PartialEq, Eq, Structural)]
pub enum BufferRole {
    Gaussians,
    Splats,
    SortKeys,
    SortValues,
    DrawIndirect,
    DrawIndirectReset,
    Uniforms,
    SortUniforms,
}

/// The uses a buffer is created for.
#[derive(Clone, Copy, Debug, PartialEq, Eq, Structural)]
pub struct BufferUsage {
    pub storage: bool,
    pub uniform: bool,
    pub indirect: bool,
    pub copy_src: bool,
    pub copy_dst: bool,
}

/// A buffer to create: its size in bytes, its uses, and the bytes it starts
/// with, if it starts with any.
#[derive(Debug, PartialEq, Eq)]
pub struct BufferPlan {
    pub role: BufferRole,
    pub size: u64,
    pub usage: BufferUsage,
    pub contents: Option<Vec<u8>>,
}

/// The shader stages a binding is visible to.
#[derive(Clone, Copy, Debug, PartialEq, Eq, Structural)]
pub enum ShaderStage {
    Vertex,
    Fragment,
    Compute,
}

/// How a buffer is bound.
#[derive(Clone, Copy, Debug, PartialEq, Eq, Structural)]
pub enum BufferBindingType {
    Uniform,
    Storage { read_only: bool },
}

/// One entry of a bind-group layout.
#[derive(Clone, Copy, Debug, PartialEq, Eq, Structural)]
pub struct BindGroupLayoutEntry {
    pub binding: u32,
    pub visibility: ShaderStage,
    pub ty: BufferBindingType,
    pub has_dynamic_offset: bool,
}

/// One entry of a bind group: the buffer bound at a binding, from `offset`,
/// over `size` bytes or, where `size` is `None`, to the buffer's end.
#[derive(Clone, Copy, Debug, PartialEq, Eq)]
pub struct BindGroupEntry {
    pub binding: u32,
    pub buffer: BufferRole,
    pub offset: u64,
    pub size: Option<u64>,
}

/// The three bind groups of the pass.
#[derive(Clone, Copy, Debug, PartialEq, Eq, Structural)]
pub enum BindGroupKind {
    Preprocess,
    Sort,
    Render,
}

/// The three shader modules of the pass.
#[derive(Clone, Copy, Debug, PartialEq, Eq, Structural)]
pub enum ShaderModule {
    Preprocess,
    Sort,
    Render,
}

/// The three compute programs of the pass.
#[derive(Clone, Copy, Debug, PartialEq, Eq, Structural)]
pub enum ComputeProgram {
    ClearSort,
    Preprocess,
    Sort,
}

#[derive(Clone, Copy, Debug, PartialEq, Eq, Structural)]
pub enum PrimitiveTopology {
    PointList,
    LineList,
    TriangleList,
    TriangleStrip,
}

#[derive(Clone, Copy, Debug, PartialEq, Eq, Structural)]
pub enum Face {
    Front,
    Back,
}

#[derive(Clone, Copy, Debug, PartialEq, Eq, Structural)]
pub enum CompareFunction {
    Never,
    Less,
    LessEqual,
    Greater,
    Always,
}

#[derive(Clone, Copy, Debug, PartialEq, Eq, Structural)]
pub enum BlendFactor {
    Zero,
    One,
    SrcAlpha,
    OneMinusSrcAlpha,
}

#[derive(Clone, Copy, Debug, PartialEq, Eq, Structural)]
pub enum BlendOperation {
    Add,
    Subtract,
}

/// How one channel group is blended: `src * src_factor (op) dst * dst_factor`.
#[derive(Clone, Copy, Debug, PartialEq, Eq, Structural)]
pub struct BlendComponent {
    pub src_factor: BlendFactor,
    pub dst_factor: BlendFactor,
    pub operation: BlendOperation,
}

/// The fixed state of the render pipeline.
#[derive(Clone, Copy, Debug, PartialEq, Eq)]
pub struct RenderState {
    pub topology: PrimitiveTopology,
    pub cull_mode: Option<Face>,
    pub depth_write_enabled: bool,
    pub depth_compare: CompareFunction,
    pub color_blend: BlendComponent,
    pub alpha_blend: BlendComponent,
}

/// A layout entry for a buffer.
pub fn buffer_layout_entry(
    binding: u32,
    visibility: ShaderStage,
    buffer_type: BufferBindingType,
    has_dynamic_offset: bool,
) -> (entry: BindGroupLayoutEntry)
    ensures
        entry == (BindGroupLayoutEntry {
            binding,
            visibility,
            ty: buffer_type,
            has_dynamic_offset,
        }),
{
    BindGroupLayoutEntry { binding, visibility, ty: buffer_type, has_dynamic_offset }
}

/// The layout of a bind group: which bindings it has, who sees them, and how
/// each is bound.
pub open spec fn layout_of(kind: BindGroupKind) -> Seq<BindGroupLayoutEntry> {
    let uniform = BufferBindingType::Uniform;
    let read_only = BufferBindingType::Storage { read_only: true };
    let read_write = BufferBindingType::Storage { read_only: false };
    match kind {
        BindGroupKind::Preprocess => seq![
            BindGroupLayoutEntry {
                binding: 0,
                visibility: ShaderStage::Compute,
                ty: uniform,
                has_dynamic_offset: false,
            },
            BindGroupLayoutEntry {
                binding: 1,
                visibility: ShaderStage::Compute,
                ty: read_only,
                has_dynamic_offset: false,
            },
            BindGroupLayoutEntry {
                binding: 2,
                visibility: ShaderStage::Compute,
                ty: read_write,
                has_dynamic_offset: false,
            },
            BindGroupLayoutEntry {
                binding: 3,
                visibility: ShaderStage::Compute,
                ty: read_write,
                has_dynamic_offset: false,
            },
            BindGroupLayoutEntry {
                binding: 4,
                visibility: ShaderStage::Compute,
                ty: read_write,
                has_dynamic_offset: false,
            },
            BindGroupLayoutEntry {
                binding: 5,
                visibility: ShaderStage::Compute,
                ty: read_write,
                has_dynamic_offset: false,
            },
        ],
        BindGroupKind::Sort => seq![
            BindGroupLayoutEntry {
                binding: 0,
                visibility: ShaderStage::Compute,
                ty: uniform,
                has_dynamic_offset: true,
            },
            BindGroupLayoutEntry {
                binding: 1,
                visibility: ShaderStage::Compute,
                ty: read_write,
                has_dynamic_offset: false,
            },
            BindGroupLayoutEntry {
                binding: 2,
                visibility: ShaderStage::Compute,
                ty: read_write,
                has_dynamic_offset: false,
            },
        ],
        BindGroupKind::Render => seq![
            BindGroupLayoutEntry {
                binding: 0,
                visibility: ShaderStage::Vertex,
                ty: uniform,
                has_dynamic_offset: false,
            },
            BindGroupLayoutEntry {
                binding: 1,
                visibility: ShaderStage::Vertex,
                ty: read_only,
                has_dynamic_offset: false,
            },
            BindGroupLayoutEntry {
                binding: 2,
                visibility: ShaderStage::Vertex,
                ty: read_only,
                has_dynamic_offset: false,
            },
        ],
    }
}

/// What is bound in a bind group, binding by binding. Every buffer is bound
/// whole, but for the sort table, of which one parameter block is bound: the
/// dynamic offset of a dispatch moves that window to the stage's block.
pub open spec fn bindings_of(kind: BindGroupKind) -> Seq<BindGroupEntry> {
    match kind {
        BindGroupKind::Preprocess => seq![
            BindGroupEntry { binding: 0, buffer: BufferRole::Uniforms, offset: 0, size: None },
            BindGroupEntry { binding: 1, buffer: BufferRole::Gaussians, offset: 0, size: None },
            BindGroupEntry { binding: 2, buffer: BufferRole::Splats, offset: 0, size: None },
            BindGroupEntry { binding: 3, buffer: BufferRole::SortKeys, offset: 0, size: None },
            BindGroupEntry { binding: 4, buffer: BufferRole::SortValues, offset: 0, size: None },
            BindGroupEntry { binding: 5, buffer: BufferRole::DrawIndirect, offset: 0, size: None },
        ],
        BindGroupKind::Sort => seq![
            BindGroupEntry {
                binding: 0,
                buffer: BufferRole::SortUniforms,
                offset: 0,
                size: Some(16u64),
            },
            BindGroupEntry { binding: 1, buffer: BufferRole::SortKeys, offset: 0, size: None },
            BindGroupEntry { binding: 2, buffer: BufferRole::SortValues, offset: 0, size: None },
        ],
        BindGroupKind::Render => seq![
            BindGroupEntry { binding: 0, buffer: BufferRole::Uniforms, offset: 0, size: None },
            BindGroupEntry { binding: 1, buffer: BufferRole::Splats, offset: 0, size: None },
            BindGroupEntry { binding: 2, buffer: BufferRole::SortValues, offset: 0, size: None },
        ],
    }
}

/// The layout of a bind group.
pub fn bind_group_layout(kind: BindGroupKind) -> (entries: Vec<BindGroupLayoutEntry>)
    ensures
        entries@ == layout_of(kind),
{
    let uniform = BufferBindingType::Uniform;
    let read_only = BufferBindingType::Storage { read_only: true };
    let read_write = BufferBindingType::Storage { read_only: false };
    let mut entries: Vec<BindGroupLayoutEntry> = Vec::new();
    match kind {
        BindGroupKind::Preprocess => {
            entries.push(buffer_layout_entry(0, ShaderStage::Compute, uniform, false));
            entries.push(buffer_layout_entry(1, ShaderStage::Compute, read_only, false));
            entries.push(buffer_layout_entry(2, ShaderStage::Compute, read_write, false));
            entries.push(buffer_layout_entry(3, ShaderStage::Compute, read_write, false));
            entries.push(buffer_layout_entry(4, ShaderStage::Compute, read_write, false));
            entries.push(buffer_layout_entry(5, ShaderStage::Compute, read_write, false));
        },
        BindGroupKind::Sort => {
            entries.push(buffer_layout_entry(0, ShaderStage::Compute, uniform, true));
            entries.push(buffer_layout_entry(1, ShaderStage::Compute, read_write, false));
            entries.push(buffer_layout_entry(2, ShaderStage::Compute, read_write, false));
        },
        BindGroupKind::Render => {
            entries.push(buffer_layout_entry(0, ShaderStage::Vertex, uniform, false));
            entries.push(buffer_layout_entry(1, ShaderStage::Vertex, read_only, false));
            entries.push(buffer_layout_entry(2, ShaderStage::Vertex, read_only, false));
        },
    }
    assert(entries@ =~= layout_of(kind));
    entries
}

/// What is bound in a bind group.
pub fn bind_group_entries(kind: BindGroupKind) -> (entries: Vec<BindGroupEntry>)
    ensures
        entries@ == bindings_of(kind),
{
    let mut entries: Vec<BindGroupEntry> = Vec::new();
    match kind {
        BindGroupKind::Preprocess => {
            entries.push(whole_buffer(0, BufferRole::Uniforms));
            entries.push(whole_buffer(1, BufferRole::Gaussians));
            entries.push(whole_buffer(2, BufferRole::Splats));
            entries.push(whole_buffer(3, BufferRole::SortKeys));
            entries.push(whole_buffer(4, BufferRole::SortValues));
            entries.push(whole_buffer(5, BufferRole::DrawIndirect));
        },
        BindGroupKind::Sort => {
            entries.push(
                BindGroupEntry {
                    binding: 0,
                    buffer: BufferRole::SortUniforms,
                    offset: 0,
                    size: Some(16),
                },
            );
            entries.push(whole_buffer(1, BufferRole::SortKeys));
            entries.push(whole_buffer(2, BufferRole::SortValues));
        },
        BindGroupKind::Render => {
            entries.push(whole_buffer(0, BufferRole::Uniforms));
            entries.push(whole_buffer(1, BufferRole::Splats));
            entries.push(whole_buffer(2, BufferRole::SortValues));
        },
    }
    assert(entries@ =~= bindings_of(kind));
    entries
}

/// The entry that binds all of `buffer` at `binding`.
pub fn whole_buffer(binding: u32, buffer: BufferRole) -> (entry: BindGroupEntry)
    ensures
        entry == (BindGroupEntry { binding, buffer, offset: 0, size: None }),
{
    BindGroupEntry { binding, buffer, offset: 0, size: None }
}

impl ComputeProgram {
    /// The shader module the program is compiled from.
    pub open spec fn spec_module(self) -> ShaderModule {
        match self {
            ComputeProgram::ClearSort => ShaderModule::Preprocess,
            ComputeProgram::Preprocess => ShaderModule::Preprocess,
            ComputeProgram::Sort => ShaderModule::Sort,
        }
    }

    /// The bind group the program runs with.
    pub open spec fn spec_bind_group(self) -> BindGroupKind {
        match self {
            ComputeProgram::ClearSort => BindGroupKind::Preprocess,
            ComputeProgram::Preprocess => BindGroupKind::Preprocess,
            ComputeProgram::Sort => BindGroupKind::Sort,
        }
    }

    /// The shader module the program is compiled from.
    pub fn module(self) -> (module: ShaderModule)
        ensures
            module == self.spec_module(),
    {
        match self {
            ComputeProgram::ClearSort => ShaderModule::Preprocess,
            ComputeProgram::Preprocess => ShaderModule::Preprocess,
            ComputeProgram::Sort => ShaderModule::Sort,
        }
    }

    /// The bind group the program runs with.
    pub fn bind_group(self) -> (kind: BindGroupKind)
        ensures
            kind == self.spec_bind_group(),
    {
        match self {
            ComputeProgram::ClearSort => BindGroupKind::Preprocess,
            ComputeProgram::Preprocess => BindGroupKind::Preprocess,
            ComputeProgram::Sort => BindGroupKind::Sort,
        }
    }

    /// The name of the program's entry point in its module.
    pub open spec fn spec_entry_point(self) -> Seq<char> {
        match self {
            ComputeProgram::ClearSort => "clear_sort"@,
            ComputeProgram::Preprocess => "main"@,
            ComputeProgram::Sort => "main"@,
        }
    }

    /// The name of the program's entry point in its module.
    pub fn entry_point(self) -> (name: &'static str)
        ensures
            name@ == self.spec_entry_point(),
    {
        match self {
            ComputeProgram::ClearSort => "clear_sort",
            ComputeProgram::Preprocess => "main",
            ComputeProgram::Sort => "main",
        }
    }
}

/// A bind group to create: its layout, and what is bound in it.
#[derive(Debug, PartialEq, Eq)]
pub struct BindGroupPlan {
    pub kind: BindGroupKind,
    pub layout: Vec<BindGroupLayoutEntry>,
    pub entries: Vec<BindGroupEntry>,
}

/// A compute pipeline to create: the program, the module and entry point it
/// is compiled from, and the bind group whose layout it takes.
#[derive(Clone, Copy, Debug, PartialEq, Eq)]
pub struct ComputePipelinePlan {
    pub program: ComputeProgram,
    pub module: ShaderModule,
    pub entry_point: &'static str,
    pub bind_group: BindGroupKind,
}

/// The render pipeline to create: the module and the two entry points it is
/// compiled from, the bind group whose layout it takes, and its fixed state.
/// The format of the colour target is the caller's.
#[derive(Clone, Copy, Debug, PartialEq, Eq)]
pub struct RenderPipelinePlan {
    pub module: ShaderModule,
    pub vertex_entry_point: &'static str,
    pub fragment_entry_point: &'static str,
    pub bind_group: BindGroupKind,
    pub state: RenderState,
}

/// `plan` is the bind group of `kind`, with its layout and its bindings.
pub open spec fn is_bind_group(plan: BindGroupPlan, kind: BindGroupKind) -> bool {
    &&& plan.kind == kind
    &&& plan.layout@ == layout_of(kind)
    &&& plan.entries@ == bindings_of(kind)
}

/// `plan` is the pipeline of `program`.
pub open spec fn is_compute_pipeline(plan: ComputePipelinePlan, program: ComputeProgram) -> bool {
    &&& plan.program == program
    &&& plan.module == program.spec_module()
    &&& plan.entry_point@ == program.spec_entry_point()
    &&& plan.bind_group == program.spec_bind_group()
}

/// `plan` is the render pipeline of the pass: the render module with its
/// vertex and fragment entry points, the render bind group, and the state of
/// `splat_render_state`.
pub open spec fn is_render_pipeline(plan: RenderPipelinePlan) -> bool {
    &&& plan.module == ShaderModule::Render
    &&& plan.vertex_entry_point@ == "vertex_main"@
    &&& plan.fragment_entry_point@ == "fragment_main"@
    &&& plan.bind_group == BindGroupKind::Render
    &&& plan.state == splat_render_state()
}

/// The bind group of `kind`.
pub fn bind_group_plan(kind: BindGroupKind) -> (plan: BindGroupPlan)
    ensures
        is_bind_group(plan, kind),
{
    BindGroupPlan { kind, layout: bind_group_layout(kind), entries: bind_group_entries(kind) }
}

/// The pipeline of `program`.
pub fn compute_pipeline_plan(program: ComputeProgram) -> (plan: ComputePipelinePlan)
    ensures
        is_compute_pipeline(plan, program),
{
    ComputePipelinePlan {
        program,
        module: program.module(),
        entry_point: program.entry_point(),
        bind_group: program.bind_group(),
    }
}

/// The render pipeline of the pass.
pub fn render_pipeline_plan() -> (plan: RenderPipelinePlan)
    ensures
        is_render_pipeline(plan),
{
    RenderPipelinePlan {
        module: ShaderModule::Render,
        vertex_entry_point: "vertex_main",
        fragment_entry_point: "fragment_main",
        bind_group: BindGroupKind::Render,
        state: render_state(),
    }
}

/// Premultiplied-alpha blending: `src + dst * (1 - src_alpha)`.
pub open spec fn premultiplied_blend() -> BlendComponent {
    BlendComponent {
        src_factor: BlendFactor::One,
        dst_factor: BlendFactor::OneMinusSrcAlpha,
        operation: BlendOperation::Add,
    }
}

/// The state of the render pipeline: a triangle list, no culling, no depth
/// writes, a depth test that always passes, and premultiplied-alpha blending
/// of colour and of alpha.
pub open spec fn splat_render_state() -> RenderState {
    RenderState {
        topology: PrimitiveTopology::TriangleList,
        cull_mode: None,
        depth_write_enabled: false,
        depth_compare: CompareFunction::Always,
        color_blend: premultiplied_blend(),
        alpha_blend: premultiplied_blend(),
    }
}

/// The state of the render pipeline.
pub fn render_state() -> (state: RenderState)
    ensures
        state == splat_render_state(),
{
    let blend = BlendComponent {
        src_factor: BlendFactor::One,
        dst_factor: BlendFactor::OneMinusSrcAlpha,
        operation: BlendOperation::Add,
    };
    RenderState {
        topology: PrimitiveTopology::TriangleList,
        cull_mode: None,
        depth_write_enabled: false,
        depth_compare: CompareFunction::Always,
        color_blend: blend,
        alpha_blend: blend,
    }
}

} // verus!
