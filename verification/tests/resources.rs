use gaussian_splats::resources::{
    bind_group_entries, bind_group_layout, bind_group_plan, buffer_layout_entry,
    compute_pipeline_plan, render_pipeline_plan, render_state, whole_buffer,
    BindGroupEntry, BindGroupKind, BindGroupLayoutEntry, BlendComponent, BlendFactor,
    BlendOperation, BufferBindingType, BufferRole, CompareFunction, ComputeProgram,
    PrimitiveTopology, ShaderModule, ShaderStage, DRAW_INDIRECT_SIZE, QUAD_VERTEX_COUNT,
    SPLAT_SIZE, UNIFORMS_SIZE,
};

const UNIFORM: BufferBindingType = BufferBindingType::Uniform;
const READ_ONLY: BufferBindingType = BufferBindingType::Storage { read_only: true };
const READ_WRITE: BufferBindingType = BufferBindingType::Storage { read_only: false };

fn layout(binding: u32, visibility: ShaderStage, ty: BufferBindingType, dynamic: bool) -> BindGroupLayoutEntry {
    BindGroupLayoutEntry { binding, visibility, ty, has_dynamic_offset: dynamic }
}

fn whole(binding: u32, buffer: BufferRole) -> BindGroupEntry {
    BindGroupEntry { binding, buffer, offset: 0, size: None }
}

#[test]
fn sizes_of_the_fixed_records() {
    assert_eq!(SPLAT_SIZE, 48);
    assert_eq!(DRAW_INDIRECT_SIZE, 16);
    assert_eq!(UNIFORMS_SIZE, 160);
    assert_eq!(QUAD_VERTEX_COUNT, 6);
}

#[test]
fn layout_entry_carries_its_arguments() {
    assert_eq!(
        buffer_layout_entry(3, ShaderStage::Compute, READ_WRITE, false),
        layout(3, ShaderStage::Compute, READ_WRITE, false)
    );
    assert_eq!(
        buffer_layout_entry(0, ShaderStage::Vertex, UNIFORM, true),
        layout(0, ShaderStage::Vertex, UNIFORM, true)
    );
    assert_eq!(whole_buffer(2, BufferRole::Splats), whole(2, BufferRole::Splats));
}

#[test]
fn preprocess_layout_has_six_compute_bindings() {
    let c = ShaderStage::Compute;
    assert_eq!(
        bind_group_layout(BindGroupKind::Preprocess),
        vec![
            layout(0, c, UNIFORM, false),
            layout(1, c, READ_ONLY, false),
            layout(2, c, READ_WRITE, false),
            layout(3, c, READ_WRITE, false),
            layout(4, c, READ_WRITE, false),
            layout(5, c, READ_WRITE, false),
        ]
    );
    assert_eq!(
        bind_group_entries(BindGroupKind::Preprocess),
        vec![
            whole(0, BufferRole::Uniforms),
            whole(1, BufferRole::Gaussians),
            whole(2, BufferRole::Splats),
            whole(3, BufferRole::SortKeys),
            whole(4, BufferRole::SortValues),
            whole(5, BufferRole::DrawIndirect),
        ]
    );
}

#[test]
fn sort_layout_selects_its_stage_by_dynamic_offset() {
    let c = ShaderStage::Compute;
    assert_eq!(
        bind_group_layout(BindGroupKind::Sort),
        vec![layout(0, c, UNIFORM, true), layout(1, c, READ_WRITE, false), layout(2, c, READ_WRITE, false)]
    );
    assert_eq!(
        bind_group_entries(BindGroupKind::Sort),
        vec![
            BindGroupEntry { binding: 0, buffer: BufferRole::SortUniforms, offset: 0, size: Some(16) },
            whole(1, BufferRole::SortKeys),
            whole(2, BufferRole::SortValues),
        ]
    );
}

#[test]
fn render_layout_is_read_only_and_vertex_visible() {
    let v = ShaderStage::Vertex;
    assert_eq!(
        bind_group_layout(BindGroupKind::Render),
        vec![layout(0, v, UNIFORM, false), layout(1, v, READ_ONLY, false), layout(2, v, READ_ONLY, false)]
    );
    assert_eq!(
        bind_group_entries(BindGroupKind::Render),
        vec![
            whole(0, BufferRole::Uniforms),
            whole(1, BufferRole::Splats),
            whole(2, BufferRole::SortValues),
        ]
    );
}

#[test]
fn compute_programs_name_module_group_and_entry_point() {
    assert_eq!(ComputeProgram::ClearSort.module(), ShaderModule::Preprocess);
    assert_eq!(ComputeProgram::ClearSort.bind_group(), BindGroupKind::Preprocess);
    assert_eq!(ComputeProgram::ClearSort.entry_point(), "clear_sort");
    assert_eq!(ComputeProgram::Preprocess.module(), ShaderModule::Preprocess);
    assert_eq!(ComputeProgram::Preprocess.bind_group(), BindGroupKind::Preprocess);
    assert_eq!(ComputeProgram::Preprocess.entry_point(), "main");
    assert_eq!(ComputeProgram::Sort.module(), ShaderModule::Sort);
    assert_eq!(ComputeProgram::Sort.bind_group(), BindGroupKind::Sort);
    assert_eq!(ComputeProgram::Sort.entry_point(), "main");
}

#[test]
fn render_state_blends_premultiplied_alpha() {
    let state = render_state();
    let premultiplied = BlendComponent {
        src_factor: BlendFactor::One,
        dst_factor: BlendFactor::OneMinusSrcAlpha,
        operation: BlendOperation::Add,
    };
    assert_eq!(state.topology, PrimitiveTopology::TriangleList);
    assert_eq!(state.cull_mode, None);
    assert!(!state.depth_write_enabled);
    assert_eq!(state.depth_compare, CompareFunction::Always);
    assert_eq!(state.color_blend, premultiplied);
    assert_eq!(state.alpha_blend, premultiplied);
}

#[test]
fn plans_of_groups_and_pipelines_agree_with_their_parts() {
    for kind in [BindGroupKind::Preprocess, BindGroupKind::Sort, BindGroupKind::Render] {
        let plan = bind_group_plan(kind);
        assert_eq!(plan.kind, kind);
        assert_eq!(plan.layout, bind_group_layout(kind));
        assert_eq!(plan.entries, bind_group_entries(kind));
    }
    for program in [ComputeProgram::ClearSort, ComputeProgram::Preprocess, ComputeProgram::Sort] {
        let plan = compute_pipeline_plan(program);
        assert_eq!(plan.program, program);
        assert_eq!(plan.module, program.module());
        assert_eq!(plan.entry_point, program.entry_point());
        assert_eq!(plan.bind_group, program.bind_group());
    }
    let render = render_pipeline_plan();
    assert_eq!(render.module, ShaderModule::Render);
    assert_eq!(render.vertex_entry_point, "vertex_main");
    assert_eq!(render.fragment_entry_point, "fragment_main");
    assert_eq!(render.bind_group, BindGroupKind::Render);
    assert_eq!(render.state, render_state());
}
