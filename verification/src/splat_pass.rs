//! The splat pass: what it allocates when it is made, what it writes before a
//! frame, and which GPU passes it records for a frame, in order.

use vstd::prelude::*;
use vstd::arithmetic::power2::{
    pow2,
    lemma2_to64,
    lemma_pow2_strictly_increases,
    lemma_pow2_unfold,
};
use crate::bytes::{in_machine_order, words_to_bytes};
use crate::gaussian::{all_words, gaussian_words, GpuGaussian};
use crate::resources::{
    bind_group_plan,
    compute_pipeline_plan,
    is_bind_group,
    is_compute_pipeline,
    is_render_pipeline,
    render_pipeline_plan,
    BindGroupKind,
    BindGroupPlan,
    BufferPlan,
    BufferRole,
    BufferUsage,
    ComputePipelinePlan,
    ComputeProgram,
    RenderPipelinePlan,
    DRAW_INDIRECT_SIZE,
    EMPTY_SORT_TABLE_SIZE,
    QUAD_VERTEX_COUNT,
    SORT_ENTRY_SIZE,
    SPLAT_SIZE,
    UNIFORMS_SIZE,
};
use crate::sort_plan::{
    compute_sort_stages,
    floor_log2,
    is_stage_list,
    lemma_floor_log2_bound,
    lemma_floor_log2_of_pow2,
    lemma_plan_bounded,
    log2_floor,
    sort_plan,
    SortStage,
    SORT_UNIFORM_ALIGNMENT,
    WORKGROUP_SIZE,
};
use crate::sort_table::{build_sort_uniform_data, is_sort_table, table_len};

verus! {

/// The most Gaussians a pass can hold: the largest count whose padded count
/// still fits in 32 bits.
pub const MAX_GAUSSIANS: usize = 0x8000_0000;

/// The viewport assumed while the window has not reported one.
pub const DEFAULT_VIEWPORT_WIDTH: u32 = 1920;

pub const DEFAULT_VIEWPORT_HEIGHT: u32 = 1080;

/// The least `e` with `n <= 2^e`.
pub open spec fn ceil_log2(n: nat) -> nat {
    if n <= 1 {
        0
    } else {
        floor_log2((n - 1) as nat) + 1
    }
}

/// The smallest power of two that is at least `n`; 1 for 0.
pub open spec fn next_power_of_two(n: nat) -> nat {
    pow2(ceil_log2(n))
}

/// Workgroups of 256 invocations needed to cover `invocations`.
pub open spec fn workgroup_count(invocations: nat) -> nat {
    (invocations + WORKGROUP_SIZE - 1) as nat / WORKGROUP_SIZE as nat
}

/// The padded count lies at or above the count, and below twice the count;
/// its binary logarithm is the number of outer steps of the sort.
pub proof fn lemma_next_power_of_two(n: nat)
    requires
        n >= 1,
    ensures
        n <= next_power_of_two(n) < 2 * n,
        floor_log2(next_power_of_two(n)) == ceil_log2(n),
{
    lemma2_to64();
    lemma_floor_log2_of_pow2(ceil_log2(n));
    if n > 1 {
        lemma_floor_log2_bound((n - 1) as nat);
        lemma_pow2_unfold(ceil_log2(n));
    }
}

/// No power of two that is at least `n` is smaller than the padded count.
pub proof fn lemma_next_power_of_two_least(n: nat, e: nat)
    requires
        pow2(e) >= n,
    ensures
        pow2(e) >= next_power_of_two(n),
{
    lemma2_to64();
    if n <= 1 {
        if e > 0 {
            lemma_pow2_strictly_increases(0, e);
        }
    } else {
        let l = floor_log2((n - 1) as nat);
        lemma_floor_log2_bound((n - 1) as nat);
        if e < l {
            lemma_pow2_strictly_increases(e, l);
        }
        if l + 1 < e {
            lemma_pow2_strictly_increases(l + 1, e);
        }
    }
}

/// The smallest power of two that is at least `gaussian_count`.
pub fn padded_count_for(gaussian_count: u32) -> (padded: u32)
    requires
        gaussian_count <= MAX_GAUSSIANS,
    ensures
        padded == next_power_of_two(gaussian_count as nat),
{
    proof {
        lemma2_to64();
    }
    if gaussian_count <= 1 {
        return 1;
    }
    let steps: u32 = log2_floor(gaussian_count - 1);
    proof {
        lemma_floor_log2_bound((gaussian_count - 1) as nat);
    }
    let mut padded: u32 = 2;
    let mut e: u32 = 0;
    while e < steps
        invariant
            e <= steps <= 30,
            padded == pow2((e + 1) as nat),
        decreases steps - e,
    {
        proof {
            lemma2_to64();
            lemma_pow2_unfold((e + 2) as nat);
            if e + 1 < 30 {
                lemma_pow2_strictly_increases((e + 1) as nat, 30);
            }
        }
        padded = padded * 2;
        e = e + 1;
    }
    padded
}

/// Workgroups of 256 invocations needed to cover `invocations`.
pub fn workgroups_for(invocations: u32) -> (groups: u32)
    ensures
        groups == workgroup_count(invocations as nat),
{
    let whole: u32 = invocations / WORKGROUP_SIZE;
    if invocations % WORKGROUP_SIZE == 0 {
        whole
    } else {
        whole + 1
    }
}

/// What a pass hands back for one frame, step by step.
#[derive(Clone, Copy, Debug, PartialEq, Eq)]
pub enum PassStep {
    /// Copy `size` bytes from the start of one buffer to the start of another.
    CopyBuffer { source: BufferRole, destination: BufferRole, size: u64 },
    /// A compute pass of its own: one program with its bind group, bound at
    /// `dynamic_offset` where the group takes one, over `workgroups`
    /// workgroups along X.
    Dispatch { program: ComputeProgram, dynamic_offset: Option<u32>, workgroups: u32 },
    /// The render pass: one indirect draw whose arguments lie at `offset` in
    /// `indirect`.
    DrawIndirect { bind_group: BindGroupKind, indirect: BufferRole, offset: u64 },
}

/// The dispatch of one sort stage over `padded_count` elements: one
/// invocation for each pair of elements.
pub open spec fn sort_dispatch(padded_count: u32, stage: SortStage) -> PassStep {
    PassStep::Dispatch {
        program: ComputeProgram::Sort,
        dynamic_offset: Some(stage.dynamic_offset),
        workgroups: workgroup_count((padded_count / 2) as nat) as u32,
    }
}

/// The steps of a frame. None without Gaussians. Else: the instance counter
/// is reset from its template; every padded slot is primed; every Gaussian is
/// projected; the sort stages run in plan order, each in a pass of its own;
/// and the splats are drawn.
pub open spec fn frame_steps(
    gaussian_count: u32,
    padded_count: u32,
    stages: Seq<SortStage>,
) -> Seq<PassStep> {
    if gaussian_count == 0 {
        Seq::empty()
    } else {
        seq![
            PassStep::CopyBuffer {
                source: BufferRole::DrawIndirectReset,
                destination: BufferRole::DrawIndirect,
                size: DRAW_INDIRECT_SIZE,
            },
            PassStep::Dispatch {
                program: ComputeProgram::ClearSort,
                dynamic_offset: None,
                workgroups: workgroup_count(padded_count as nat) as u32,
            },
            PassStep::Dispatch {
                program: ComputeProgram::Preprocess,
                dynamic_offset: None,
                workgroups: workgroup_count(gaussian_count as nat) as u32,
            },
        ] + stages.map_values(|stage: SortStage| sort_dispatch(padded_count, stage))
            + seq![
            PassStep::DrawIndirect {
                bind_group: BindGroupKind::Render,
                indirect: BufferRole::DrawIndirect,
                offset: 0,
            },
        ]
    }
}

/// The order of a frame with Gaussians. The reset of the instance counter
/// comes first, then the priming of the slots, then the projection; stage `i`
/// of the sort is step `3 + i` and binds its parameters at byte `256 * i`;
/// the draw comes last.
pub proof fn lemma_frame_order(
    gaussian_count: u32,
    padded_count: u32,
    stages: Seq<SortStage>,
    i: int,
)
    requires
        gaussian_count > 0,
        is_stage_list(stages, padded_count as nat),
        0 <= i < stages.len(),
    ensures
        ({
            let steps = frame_steps(gaussian_count, padded_count, stages);
            &&& steps.len() == stages.len() + 4
            &&& steps[0] is CopyBuffer
            &&& steps[1] matches PassStep::Dispatch { program: ComputeProgram::ClearSort, .. }
            &&& steps[2] matches PassStep::Dispatch { program: ComputeProgram::Preprocess, .. }
            &&& steps[3 + i] matches PassStep::Dispatch {
                program: ComputeProgram::Sort,
                dynamic_offset: Some(offset),
                ..
            } && offset == i * SORT_UNIFORM_ALIGNMENT
            &&& steps[steps.len() - 1] is DrawIndirect
        }),
{
}

/// A frame without Gaussians has no step.
pub proof fn lemma_empty_frame(padded_count: u32, stages: Seq<SortStage>)
    ensures
        frame_steps(0, padded_count, stages).len() == 0,
{
}

/// The view and projection matrices of a camera, sixteen words each, column
/// after column.
#[derive(Clone, Copy, Debug)]
pub struct CameraMatrices {
    pub view: [u32; 16],
    pub projection: [u32; 16],
}

/// What a frame is drawn with: the camera, and the viewport in pixels.
#[derive(Clone, Copy, Debug)]
pub struct FrameView {
    pub camera: CameraMatrices,
    pub viewport: (u32, u32),
}

/// The viewport to draw into: the cached one, or 1920 by 1080 while there is
/// none.
pub fn viewport_or_default(cached: Option<(u32, u32)>) -> (size: (u32, u32))
    ensures
        size == (match cached {
            Some(known) => known,
            None => (DEFAULT_VIEWPORT_WIDTH, DEFAULT_VIEWPORT_HEIGHT),
        }),
{
    match cached {
        Some(known) => known,
        None => (DEFAULT_VIEWPORT_WIDTH, DEFAULT_VIEWPORT_HEIGHT),
    }
}

/// Decides whether a frame is prepared, and with what. Without an active
/// camera the frame is skipped; with one, it is drawn with that camera into
/// the cached viewport or, while there is none, the default one.
pub fn prepare(camera: Option<CameraMatrices>, cached_viewport: Option<(u32, u32)>) -> (frame:
    Option<FrameView>)
    ensures
        camera.is_none() ==> frame.is_none(),
        camera.is_some() ==> frame == Some(
            FrameView {
                camera: camera.unwrap(),
                viewport: (match cached_viewport {
                    Some(known) => known,
                    None => (DEFAULT_VIEWPORT_WIDTH, DEFAULT_VIEWPORT_HEIGHT),
                }),
            },
        ),
{
    match camera {
        Some(matrices) => Some(
            FrameView { camera: matrices, viewport: viewport_or_default(cached_viewport) },
        ),
        None => None,
    }
}

/// A storage buffer.
pub open spec fn storage_usage() -> BufferUsage {
    BufferUsage { storage: true, uniform: false, indirect: false, copy_src: false, copy_dst: false }
}

/// The indirect-draw buffer: written by the preprocess program, read by the
/// draw, and reset by a copy.
pub open spec fn indirect_usage() -> BufferUsage {
    BufferUsage { storage: true, uniform: false, indirect: true, copy_src: false, copy_dst: true }
}

/// The template the indirect-draw buffer is reset from.
pub open spec fn copy_source_usage() -> BufferUsage {
    BufferUsage { storage: false, uniform: false, indirect: false, copy_src: true, copy_dst: false }
}

/// A uniform buffer that is written every frame.
pub open spec fn written_uniform_usage() -> BufferUsage {
    BufferUsage { storage: false, uniform: true, indirect: false, copy_src: false, copy_dst: true }
}

/// A uniform buffer that is never written again.
pub open spec fn uniform_usage() -> BufferUsage {
    BufferUsage { storage: false, uniform: true, indirect: false, copy_src: false, copy_dst: false }
}

/// The indirect-draw header before any splat is counted: six vertices, no
/// instance, first vertex and first instance zero.
pub open spec fn draw_indirect_words() -> Seq<u32> {
    seq![QUAD_VERTEX_COUNT, 0u32, 0u32, 0u32]
}

/// `plan` is an empty buffer of `size` bytes for `role`, with `usage`.
pub open spec fn is_empty_buffer(
    plan: BufferPlan,
    role: BufferRole,
    size: int,
    usage: BufferUsage,
) -> bool {
    &&& plan.role == role
    &&& plan.size == size
    &&& plan.usage == usage
    &&& plan.contents.is_none()
}

/// `plan` is a buffer for `role`, with `usage`, that starts with `words` in
/// the machine's byte order and is exactly as long.
pub open spec fn is_word_buffer(
    plan: BufferPlan,
    role: BufferRole,
    words: Seq<u32>,
    usage: BufferUsage,
) -> bool {
    &&& plan.role == role
    &&& plan.size == 4 * words.len()
    &&& plan.usage == usage
    &&& plan.contents matches Some(bytes) && in_machine_order(bytes@, words)
}

/// Bytes of the sort-table buffer of a plan of `stage_count` stages: 256 for
/// each stage, and 256 where there is none.
pub open spec fn sort_buffer_size(stage_count: nat) -> nat {
    if stage_count == 0 {
        EMPTY_SORT_TABLE_SIZE as nat
    } else {
        stage_count * SORT_UNIFORM_ALIGNMENT as nat
    }
}

/// `plan` is the buffer of the sort table over `n` elements. It has 256 bytes
/// for each stage of the plan, which begin with the sort table and are zero
/// behind it; where the plan has no stage it has 256 zero bytes.
pub open spec fn is_sort_table_buffer(plan: BufferPlan, n: nat) -> bool {
    let stage_count = sort_plan(n).len();
    &&& plan.role == BufferRole::SortUniforms
    &&& plan.usage == uniform_usage()
    &&& plan.size == sort_buffer_size(stage_count)
    &&& plan.contents matches Some(bytes)
    &&& bytes@.len() == sort_buffer_size(stage_count)
    &&& stage_count > 0 ==> is_sort_table(bytes@.take(table_len(stage_count) as int), n)
    &&& forall|p: int| table_len(stage_count) <= p < bytes@.len() ==> #[trigger] bytes@[p] == 0
}

/// The splat pass over a fixed set of Gaussians.
#[derive(Debug)]
pub struct SplatPass {
    /// How many Gaussians there are.
    pub gaussian_count: u32,
    /// How many slots are sorted: the next power of two.
    pub padded_count: u32,
    /// The Gaussians, as the shaders read them.
    pub gaussian_buffer: BufferPlan,
    /// One projected splat for each padded slot.
    pub splat_buffer: BufferPlan,
    /// One depth key for each padded slot.
    pub sort_keys_buffer: BufferPlan,
    /// One splat index for each padded slot.
    pub sort_values_buffer: BufferPlan,
    /// The arguments of the indirect draw; the instance count is written on
    /// the GPU.
    pub draw_indirect_buffer: BufferPlan,
    /// What the arguments of the indirect draw are reset to before a frame.
    pub draw_indirect_reset_buffer: BufferPlan,
    /// The frame uniforms.
    pub uniform_buffer: BufferPlan,
    /// The parameter blocks of the sort stages.
    pub sort_uniform_buffer: BufferPlan,
    /// The program that primes the sort slots.
    pub clear_sort_pipeline: ComputePipelinePlan,
    /// The program that projects the Gaussians.
    pub preprocess_pipeline: ComputePipelinePlan,
    /// The program that runs one sort stage.
    pub sort_pipeline: ComputePipelinePlan,
    /// The pipeline that draws the splats.
    pub render_pipeline: RenderPipelinePlan,
    /// What the priming and the projection are bound to.
    pub preprocess_bind_group: BindGroupPlan,
    /// What a sort stage is bound to.
    pub sort_bind_group: BindGroupPlan,
    /// What the draw is bound to.
    pub render_bind_group: BindGroupPlan,
    /// The sort stages in the order in which they run.
    pub sort_stages: Vec<SortStage>,
}

/// The words of the frame uniforms: view, projection, viewport, focal
/// lengths, the two counts, and two zero words that fill the last row.
pub open spec fn uniform_words(
    camera: CameraMatrices,
    viewport: [u32; 2],
    focal: [u32; 2],
    gaussian_count: u32,
    padded_count: u32,
) -> Seq<u32> {
    camera.view@ + camera.projection@ + viewport@ + focal@ + seq![
        gaussian_count,
        padded_count,
        0u32,
        0u32,
    ]
}

/// A buffer without initial contents.
fn empty_buffer(role: BufferRole, size: u64, usage: BufferUsage) -> (plan: BufferPlan)
    ensures
        is_empty_buffer(plan, role, size as int, usage),
{
    BufferPlan { role, size, usage, contents: None }
}

/// A buffer that starts with `words`.
fn word_buffer(role: BufferRole, words: &[u32], usage: BufferUsage) -> (plan: BufferPlan)
    requires
        4 * words@.len() <= u64::MAX,
    ensures
        is_word_buffer(plan, role, words@, usage),
{
    let bytes: Vec<u8> = words_to_bytes(words);
    BufferPlan { role, size: bytes.len() as u64, usage, contents: Some(bytes) }
}

/// The buffer of the sort table: the table, filled up with zeros to 256 bytes
/// for each stage, or 256 zero bytes where there is no stage.
fn sort_table_buffer(padded_count: u32, sort_stages: &[SortStage]) -> (plan: BufferPlan)
    requires
        is_stage_list(sort_stages@, padded_count as nat),
    ensures
        is_sort_table_buffer(plan, padded_count as nat),
{
    proof {
        lemma_plan_bounded(padded_count as nat);
        assert(sort_stages@.len() == sort_plan(padded_count as nat).len());
    }
    let mut data: Vec<u8> = build_sort_uniform_data(padded_count, sort_stages);
    let stage_count: usize = sort_stages.len();
    assert(stage_count <= 496);
    let alignment: usize = SORT_UNIFORM_ALIGNMENT as usize;
    assert(stage_count * alignment <= 496 * 256) by (nonlinear_arith)
        requires
            stage_count <= 496,
            alignment == 256,
    ;
    let size: usize = if stage_count == 0 {
        EMPTY_SORT_TABLE_SIZE
    } else {
        stage_count * alignment
    };
    let ghost table = data@;
    while data.len() < size
        invariant
            table.len() <= data@.len() <= size,
            data@.take(table.len() as int) == table,
            forall|p: int| table.len() <= p < data@.len() ==> #[trigger] data@[p] == 0,
        decreases size - data@.len(),
    {
        data.push(0);
        assert(data@.take(table.len() as int) =~= table);
    }
    BufferPlan {
        role: BufferRole::SortUniforms,
        size: size as u64,
        usage: BufferUsage {
            storage: false,
            uniform: true,
            indirect: false,
            copy_src: false,
            copy_dst: false,
        },
        contents: Some(data),
    }
}

impl SplatPass {
    /// Plans the pass over `gaussians`: the counts, every buffer with its size,
    /// uses and first contents, the bind groups with their layouts, the
    /// pipelines, and the sort stages.
    pub fn new(gaussians: &[GpuGaussian]) -> (pass: SplatPass)
        requires
            gaussians.len() <= MAX_GAUSSIANS,
        ensures
            pass.gaussian_count == gaussians@.len(),
            pass.padded_count == next_power_of_two(gaussians@.len()),
            is_stage_list(pass.sort_stages@, pass.padded_count as nat),
            is_word_buffer(
                pass.gaussian_buffer,
                BufferRole::Gaussians,
                all_words(gaussians@),
                storage_usage(),
            ),
            is_empty_buffer(
                pass.splat_buffer,
                BufferRole::Splats,
                SPLAT_SIZE * pass.padded_count,
                storage_usage(),
            ),
            is_empty_buffer(
                pass.sort_keys_buffer,
                BufferRole::SortKeys,
                SORT_ENTRY_SIZE * pass.padded_count,
                storage_usage(),
            ),
            is_empty_buffer(
                pass.sort_values_buffer,
                BufferRole::SortValues,
                SORT_ENTRY_SIZE * pass.padded_count,
                storage_usage(),
            ),
            is_word_buffer(
                pass.draw_indirect_buffer,
                BufferRole::DrawIndirect,
                draw_indirect_words(),
                indirect_usage(),
            ),
            is_word_buffer(
                pass.draw_indirect_reset_buffer,
                BufferRole::DrawIndirectReset,
                draw_indirect_words(),
                copy_source_usage(),
            ),
            is_empty_buffer(
                pass.uniform_buffer,
                BufferRole::Uniforms,
                UNIFORMS_SIZE as int,
                written_uniform_usage(),
            ),
            is_sort_table_buffer(pass.sort_uniform_buffer, pass.padded_count as nat),
            is_compute_pipeline(pass.clear_sort_pipeline, ComputeProgram::ClearSort),
            is_compute_pipeline(pass.preprocess_pipeline, ComputeProgram::Preprocess),
            is_compute_pipeline(pass.sort_pipeline, ComputeProgram::Sort),
            is_render_pipeline(pass.render_pipeline),
            is_bind_group(pass.preprocess_bind_group, BindGroupKind::Preprocess),
            is_bind_group(pass.sort_bind_group, BindGroupKind::Sort),
            is_bind_group(pass.render_bind_group, BindGroupKind::Render),
    {
        let gaussian_count: u32 = gaussians.len() as u32;
        let padded_count: u32 = padded_count_for(gaussian_count);

        let storage = BufferUsage {
            storage: true,
            uniform: false,
            indirect: false,
            copy_src: false,
            copy_dst: false,
        };
        let words: Vec<u32> = gaussian_words(gaussians);
        let gaussian_buffer = word_buffer(BufferRole::Gaussians, words.as_slice(), storage);
        let splat_buffer = empty_buffer(
            BufferRole::Splats,
            SPLAT_SIZE * (padded_count as u64),
            storage,
        );
        let sort_keys_buffer = empty_buffer(
            BufferRole::SortKeys,
            SORT_ENTRY_SIZE * (padded_count as u64),
            storage,
        );
        let sort_values_buffer = empty_buffer(
            BufferRole::SortValues,
            SORT_ENTRY_SIZE * (padded_count as u64),
            storage,
        );

        let header: [u32; 4] = [QUAD_VERTEX_COUNT, 0, 0, 0];
        assert(header@ =~= draw_indirect_words());
        let draw_indirect_buffer = word_buffer(
            BufferRole::DrawIndirect,
            header.as_slice(),
            BufferUsage {
                storage: true,
                uniform: false,
                indirect: true,
                copy_src: false,
                copy_dst: true,
            },
        );
        let draw_indirect_reset_buffer = word_buffer(
            BufferRole::DrawIndirectReset,
            header.as_slice(),
            BufferUsage {
                storage: false,
                uniform: false,
                indirect: false,
                copy_src: true,
                copy_dst: false,
            },
        );
        let uniform_buffer = empty_buffer(
            BufferRole::Uniforms,
            UNIFORMS_SIZE,
            BufferUsage {
                storage: false,
                uniform: true,
                indirect: false,
                copy_src: false,
                copy_dst: true,
            },
        );

        let sort_stages: Vec<SortStage> = compute_sort_stages(padded_count);
        let sort_uniform_buffer = sort_table_buffer(padded_count, sort_stages.as_slice());

        SplatPass {
            gaussian_count,
            padded_count,
            gaussian_buffer,
            splat_buffer,
            sort_keys_buffer,
            sort_values_buffer,
            draw_indirect_buffer,
            draw_indirect_reset_buffer,
            uniform_buffer,
            sort_uniform_buffer,
            clear_sort_pipeline: compute_pipeline_plan(ComputeProgram::ClearSort),
            preprocess_pipeline: compute_pipeline_plan(ComputeProgram::Preprocess),
            sort_pipeline: compute_pipeline_plan(ComputeProgram::Sort),
            render_pipeline: render_pipeline_plan(),
            preprocess_bind_group: bind_group_plan(BindGroupKind::Preprocess),
            sort_bind_group: bind_group_plan(BindGroupKind::Sort),
            render_bind_group: bind_group_plan(BindGroupKind::Render),
            sort_stages,
        }
    }

    /// The name of the pass in a render graph.
    pub fn name(&self) -> (name: &'static str)
        ensures
            name@ == "splat_pass"@,
    {
        "splat_pass"
    }

    /// The attachments the pass only reads: none.
    pub fn reads(&self) -> (slots: Vec<&'static str>)
        ensures
            slots@.len() == 0,
    {
        Vec::new()
    }

    /// The attachments the pass only writes: none.
    pub fn writes(&self) -> (slots: Vec<&'static str>)
        ensures
            slots@.len() == 0,
    {
        Vec::new()
    }

    /// The attachments the pass both reads and writes: colour and depth.
    pub fn reads_writes(&self) -> (slots: Vec<&'static str>)
        ensures
            slots@.len() == 2,
            slots@[0]@ == "color"@,
            slots@[1]@ == "depth"@,
    {
        let mut slots: Vec<&'static str> = Vec::new();
        slots.push("color");
        slots.push("depth");
        slots
    }

    /// The bytes of the frame uniforms, as they are written to the uniform
    /// buffer before a frame.
    pub fn uniform_block(&self, camera: &CameraMatrices, viewport: [u32; 2], focal: [u32; 2]) -> (bytes:
        Vec<u8>)
        ensures
            in_machine_order(
                bytes@,
                uniform_words(*camera, viewport, focal, self.gaussian_count, self.padded_count),
            ),
    {
        let mut words: Vec<u32> = Vec::new();
        let mut i: usize = 0;
        while i < 16
            invariant
                i <= 16,
                words@ == camera.view@.take(i as int),
            decreases 16 - i,
        {
            words.push(camera.view[i]);
            assert(words@ =~= camera.view@.take(i + 1));
            i = i + 1;
        }
        let mut j: usize = 0;
        while j < 16
            invariant
                j <= 16,
                words@ == camera.view@ + camera.projection@.take(j as int),
            decreases 16 - j,
        {
            words.push(camera.projection[j]);
            assert(words@ =~= camera.view@ + camera.projection@.take(j + 1));
            j = j + 1;
        }
        words.push(viewport[0]);
        words.push(viewport[1]);
        words.push(focal[0]);
        words.push(focal[1]);
        words.push(self.gaussian_count);
        words.push(self.padded_count);
        words.push(0);
        words.push(0);
        assert(words@ =~= uniform_words(
            *camera,
            viewport,
            focal,
            self.gaussian_count,
            self.padded_count,
        ));
        words_to_bytes(words.as_slice())
    }

    /// The steps of one frame, in the order in which they are recorded.
    pub fn execute(&self) -> (steps: Vec<PassStep>)
        ensures
            steps@ == frame_steps(self.gaussian_count, self.padded_count, self.sort_stages@),
    {
        let mut steps: Vec<PassStep> = Vec::new();
        if self.gaussian_count == 0 {
            return steps;
        }
        steps.push(
            PassStep::CopyBuffer {
                source: BufferRole::DrawIndirectReset,
                destination: BufferRole::DrawIndirect,
                size: DRAW_INDIRECT_SIZE,
            },
        );
        steps.push(
            PassStep::Dispatch {
                program: ComputeProgram::ClearSort,
                dynamic_offset: None,
                workgroups: workgroups_for(self.padded_count),
            },
        );
        steps.push(
            PassStep::Dispatch {
                program: ComputeProgram::Preprocess,
                dynamic_offset: None,
                workgroups: workgroups_for(self.gaussian_count),
            },
        );
        let num_pairs: u32 = self.padded_count / 2;
        let sort_workgroups: u32 = workgroups_for(num_pairs);
        let ghost head = steps@;
        let ghost sorts = self.sort_stages@.map_values(
            |stage: SortStage| sort_dispatch(self.padded_count, stage),
        );
        let mut i: usize = 0;
        while i < self.sort_stages.len()
            invariant
                i <= self.sort_stages@.len(),
                sort_workgroups == workgroup_count((self.padded_count / 2) as nat),
                sorts == self.sort_stages@.map_values(
                    |stage: SortStage| sort_dispatch(self.padded_count, stage),
                ),
                steps@ == head + sorts.take(i as int),
            decreases self.sort_stages@.len() - i,
        {
            steps.push(
                PassStep::Dispatch {
                    program: ComputeProgram::Sort,
                    dynamic_offset: Some(self.sort_stages[i].dynamic_offset),
                    workgroups: sort_workgroups,
                },
            );
            assert(steps@ =~= head + sorts.take(i + 1));
            i = i + 1;
        }
        assert(sorts.take(i as int) =~= sorts);
        steps.push(
            PassStep::DrawIndirect {
                bind_group: BindGroupKind::Render,
                indirect: BufferRole::DrawIndirect,
                offset: 0,
            },
        );
        steps
    }
}

} // verus!
