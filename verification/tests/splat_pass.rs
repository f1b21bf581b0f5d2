use gaussian_splats::gaussian::GpuGaussian;
use gaussian_splats::resources::{
    bind_group_entries, bind_group_layout, render_state, BindGroupKind, BufferRole, BufferUsage,
    CompareFunction, ComputePipelinePlan, ComputeProgram, PrimitiveTopology, ShaderModule,
    ShaderStage,
};
use gaussian_splats::sort_table::build_sort_uniform_data;
use gaussian_splats::splat_pass::{
    padded_count_for, prepare, viewport_or_default, workgroups_for, CameraMatrices, PassStep,
    SplatPass, MAX_GAUSSIANS,
};

fn gaussian(seed: u32) -> GpuGaussian {
    GpuGaussian {
        position: [seed, seed + 1, seed + 2],
        opacity_logit: seed + 3,
        sh_dc: [seed + 4, seed + 5, seed + 6],
        _pad0: 0,
        scale_log: [seed + 7, seed + 8, seed + 9],
        _pad1: 0,
        rotation: [seed + 10, seed + 11, seed + 12, seed + 13],
    }
}

fn words(bytes: &[u8]) -> Vec<u32> {
    bytes
        .chunks(4)
        .map(|c| u32::from_ne_bytes([c[0], c[1], c[2], c[3]]))
        .collect()
}

const STORAGE: BufferUsage = BufferUsage {
    storage: true,
    uniform: false,
    indirect: false,
    copy_src: false,
    copy_dst: false,
};

#[test]
fn padded_count_is_the_next_power_of_two() {
    assert_eq!(padded_count_for(0), 1);
    assert_eq!(padded_count_for(1), 1);
    assert_eq!(padded_count_for(2), 2);
    assert_eq!(padded_count_for(3), 4);
    assert_eq!(padded_count_for(4), 4);
    assert_eq!(padded_count_for(5), 8);
    assert_eq!(padded_count_for(1000), 1024);
    assert_eq!(padded_count_for(0x7FFF_FFFF), 0x8000_0000);
    assert_eq!(padded_count_for(0x8000_0000), 0x8000_0000);
    assert_eq!(MAX_GAUSSIANS, 0x8000_0000);
    for n in 1u32..2000 {
        assert_eq!(padded_count_for(n), n.next_power_of_two());
    }
}

#[test]
fn workgroups_cover_every_invocation() {
    assert_eq!(workgroups_for(0), 0);
    assert_eq!(workgroups_for(1), 1);
    assert_eq!(workgroups_for(255), 1);
    assert_eq!(workgroups_for(256), 1);
    assert_eq!(workgroups_for(257), 2);
    assert_eq!(workgroups_for(512), 2);
    assert_eq!(workgroups_for(u32::MAX), 16_777_216);
}

#[test]
fn empty_pass_records_nothing() {
    let pass = SplatPass::new(&[]);
    assert_eq!(pass.gaussian_count, 0);
    assert_eq!(pass.padded_count, 1);
    assert!(pass.sort_stages.is_empty());
    assert!(pass.execute().is_empty());
    assert_eq!(pass.gaussian_buffer.size, 0);
    assert_eq!(pass.gaussian_buffer.contents, Some(Vec::new()));
    assert_eq!(pass.sort_uniform_buffer.size, 256);
    assert_eq!(pass.sort_uniform_buffer.contents, Some(vec![0u8; 256]));
}

#[test]
fn single_gaussian_has_no_sort_stage() {
    let pass = SplatPass::new(&[gaussian(1)]);
    assert_eq!(pass.gaussian_count, 1);
    assert_eq!(pass.padded_count, 1);
    assert_eq!(pass.sort_uniform_buffer.contents, Some(vec![0u8; 256]));
    assert_eq!(
        pass.execute(),
        vec![
            PassStep::CopyBuffer {
                source: BufferRole::DrawIndirectReset,
                destination: BufferRole::DrawIndirect,
                size: 16
            },
            PassStep::Dispatch {
                program: ComputeProgram::ClearSort,
                dynamic_offset: None,
                workgroups: 1
            },
            PassStep::Dispatch {
                program: ComputeProgram::Preprocess,
                dynamic_offset: None,
                workgroups: 1
            },
            PassStep::DrawIndirect {
                bind_group: BindGroupKind::Render,
                indirect: BufferRole::DrawIndirect,
                offset: 0
            },
        ]
    );
}

#[test]
fn three_gaussians_are_padded_to_four() {
    let gaussians = [gaussian(10), gaussian(20), gaussian(30)];
    let pass = SplatPass::new(&gaussians);
    assert_eq!(pass.gaussian_count, 3);
    assert_eq!(pass.padded_count, 4);
    let offsets: Vec<u32> = pass.sort_stages.iter().map(|s| s.dynamic_offset).collect();
    assert_eq!(offsets, vec![0, 256, 512]);

    assert_eq!(pass.gaussian_buffer.role, BufferRole::Gaussians);
    assert_eq!(pass.gaussian_buffer.size, 3 * 64);
    assert_eq!(pass.gaussian_buffer.usage, STORAGE);
    let stored = words(pass.gaussian_buffer.contents.as_ref().unwrap());
    assert_eq!(stored.len(), 48);
    assert_eq!(
        &stored[16..32],
        &[20, 21, 22, 23, 24, 25, 26, 0, 27, 28, 29, 0, 30, 31, 32, 33][..]
    );

    assert_eq!(pass.splat_buffer.role, BufferRole::Splats);
    assert_eq!(pass.splat_buffer.size, 48 * 4);
    assert_eq!(pass.splat_buffer.usage, STORAGE);
    assert_eq!(pass.splat_buffer.contents, None);
    assert_eq!(pass.sort_keys_buffer.role, BufferRole::SortKeys);
    assert_eq!(pass.sort_keys_buffer.size, 16);
    assert_eq!(pass.sort_keys_buffer.contents, None);
    assert_eq!(pass.sort_values_buffer.role, BufferRole::SortValues);
    assert_eq!(pass.sort_values_buffer.size, 16);
    assert_eq!(pass.sort_values_buffer.usage, STORAGE);

    assert_eq!(pass.draw_indirect_buffer.role, BufferRole::DrawIndirect);
    assert_eq!(pass.draw_indirect_buffer.size, 16);
    assert_eq!(
        pass.draw_indirect_buffer.usage,
        BufferUsage { storage: true, uniform: false, indirect: true, copy_src: false, copy_dst: true }
    );
    assert_eq!(words(pass.draw_indirect_buffer.contents.as_ref().unwrap()), vec![6, 0, 0, 0]);
    assert_eq!(pass.draw_indirect_reset_buffer.role, BufferRole::DrawIndirectReset);
    assert_eq!(
        pass.draw_indirect_reset_buffer.usage,
        BufferUsage { storage: false, uniform: false, indirect: false, copy_src: true, copy_dst: false }
    );
    assert_eq!(
        words(pass.draw_indirect_reset_buffer.contents.as_ref().unwrap()),
        vec![6, 0, 0, 0]
    );

    assert_eq!(pass.uniform_buffer.role, BufferRole::Uniforms);
    assert_eq!(pass.uniform_buffer.size, 160);
    assert_eq!(
        pass.uniform_buffer.usage,
        BufferUsage { storage: false, uniform: true, indirect: false, copy_src: false, copy_dst: true }
    );
    assert_eq!(pass.uniform_buffer.contents, None);

    assert_eq!(pass.sort_uniform_buffer.role, BufferRole::SortUniforms);
    assert_eq!(pass.sort_uniform_buffer.size, 3 * 256);
    assert_eq!(
        pass.sort_uniform_buffer.usage,
        BufferUsage { storage: false, uniform: true, indirect: false, copy_src: false, copy_dst: false }
    );
    let table = pass.sort_uniform_buffer.contents.as_ref().unwrap();
    assert_eq!(table.len(), 3 * 256);
    assert_eq!(words(&table[0..16]), vec![4, 2, 1, 0]);
    assert_eq!(words(&table[256..272]), vec![4, 4, 2, 0]);
    assert_eq!(words(&table[512..528]), vec![4, 4, 1, 0]);
    assert!(table[16..256].iter().all(|b| *b == 0));
    assert!(table[272..512].iter().all(|b| *b == 0));
    assert!(table[528..].iter().all(|b| *b == 0));
}

#[test]
fn sort_table_buffer_has_one_aligned_block_for_each_stage() {
    for count in [2usize, 3, 9, 300, 5000] {
        let gaussians: Vec<GpuGaussian> = (0..count as u32).map(gaussian).collect();
        let pass = SplatPass::new(&gaussians);
        let stages = pass.sort_stages.len();
        let table = build_sort_uniform_data(pass.padded_count, &pass.sort_stages);
        let contents = pass.sort_uniform_buffer.contents.as_ref().unwrap();
        assert_eq!(pass.sort_uniform_buffer.size, 256 * stages as u64);
        assert_eq!(contents.len(), 256 * stages);
        assert_eq!(&contents[..table.len()], &table[..]);
        assert!(contents[table.len()..].iter().all(|b| *b == 0));
        let last = pass.sort_stages.last().unwrap().dynamic_offset as usize;
        assert!(last + 256 <= contents.len());
    }
}

#[test]
fn pass_carries_its_bind_groups_and_pipelines() {
    let pass = SplatPass::new(&[gaussian(1), gaussian(2)]);
    for (group, kind) in [
        (&pass.preprocess_bind_group, BindGroupKind::Preprocess),
        (&pass.sort_bind_group, BindGroupKind::Sort),
        (&pass.render_bind_group, BindGroupKind::Render),
    ] {
        assert_eq!(group.kind, kind);
        assert_eq!(group.layout, bind_group_layout(kind));
        assert_eq!(group.entries, bind_group_entries(kind));
    }
    assert_eq!(pass.preprocess_bind_group.layout.len(), 6);
    assert!(pass.sort_bind_group.layout[0].has_dynamic_offset);
    assert_eq!(pass.sort_bind_group.entries[0].size, Some(16));
    assert!(pass.render_bind_group.layout.iter().all(|e| e.visibility == ShaderStage::Vertex));

    assert_eq!(
        pass.clear_sort_pipeline,
        ComputePipelinePlan {
            program: ComputeProgram::ClearSort,
            module: ShaderModule::Preprocess,
            entry_point: "clear_sort",
            bind_group: BindGroupKind::Preprocess,
        }
    );
    assert_eq!(
        pass.preprocess_pipeline,
        ComputePipelinePlan {
            program: ComputeProgram::Preprocess,
            module: ShaderModule::Preprocess,
            entry_point: "main",
            bind_group: BindGroupKind::Preprocess,
        }
    );
    assert_eq!(
        pass.sort_pipeline,
        ComputePipelinePlan {
            program: ComputeProgram::Sort,
            module: ShaderModule::Sort,
            entry_point: "main",
            bind_group: BindGroupKind::Sort,
        }
    );
    assert_eq!(pass.render_pipeline.module, ShaderModule::Render);
    assert_eq!(pass.render_pipeline.vertex_entry_point, "vertex_main");
    assert_eq!(pass.render_pipeline.fragment_entry_point, "fragment_main");
    assert_eq!(pass.render_pipeline.bind_group, BindGroupKind::Render);
    assert_eq!(pass.render_pipeline.state, render_state());
    assert_eq!(pass.render_pipeline.state.depth_compare, CompareFunction::Always);
    assert_eq!(pass.render_pipeline.state.topology, PrimitiveTopology::TriangleList);
    assert_eq!(pass.render_pipeline.state.cull_mode, None);
    assert!(!pass.render_pipeline.state.depth_write_enabled);
}

#[test]
fn frame_steps_run_in_the_required_order() {
    let gaussians: Vec<GpuGaussian> = (0..300).map(gaussian).collect();
    let pass = SplatPass::new(&gaussians);
    assert_eq!(pass.padded_count, 512);
    let steps = pass.execute();
    assert_eq!(steps.len(), 4 + 45);
    assert_eq!(
        steps[0],
        PassStep::CopyBuffer {
            source: BufferRole::DrawIndirectReset,
            destination: BufferRole::DrawIndirect,
            size: 16
        }
    );
    assert_eq!(
        steps[1],
        PassStep::Dispatch { program: ComputeProgram::ClearSort, dynamic_offset: None, workgroups: 2 }
    );
    assert_eq!(
        steps[2],
        PassStep::Dispatch { program: ComputeProgram::Preprocess, dynamic_offset: None, workgroups: 2 }
    );
    for i in 0..45 {
        assert_eq!(
            steps[3 + i],
            PassStep::Dispatch {
                program: ComputeProgram::Sort,
                dynamic_offset: Some(i as u32 * 256),
                workgroups: 1
            }
        );
    }
    assert_eq!(
        steps[48],
        PassStep::DrawIndirect {
            bind_group: BindGroupKind::Render,
            indirect: BufferRole::DrawIndirect,
            offset: 0
        }
    );
}

#[test]
fn sort_dispatch_covers_half_the_padded_count() {
    let gaussians: Vec<GpuGaussian> = (0..1025).map(gaussian).collect();
    let pass = SplatPass::new(&gaussians);
    assert_eq!(pass.padded_count, 2048);
    let steps = pass.execute();
    assert_eq!(
        steps[1],
        PassStep::Dispatch { program: ComputeProgram::ClearSort, dynamic_offset: None, workgroups: 8 }
    );
    assert_eq!(
        steps[2],
        PassStep::Dispatch { program: ComputeProgram::Preprocess, dynamic_offset: None, workgroups: 5 }
    );
    assert_eq!(
        steps[3],
        PassStep::Dispatch { program: ComputeProgram::Sort, dynamic_offset: Some(0), workgroups: 4 }
    );
}

#[test]
fn frame_without_camera_is_skipped() {
    assert!(prepare(None, Some((800, 600))).is_none());
    assert!(prepare(None, None).is_none());
}

#[test]
fn viewport_defaults_to_full_hd() {
    assert_eq!(viewport_or_default(None), (1920, 1080));
    assert_eq!(viewport_or_default(Some((256, 256))), (256, 256));
    assert_eq!(viewport_or_default(Some((0, 0))), (0, 0));
    let camera = CameraMatrices { view: [1; 16], projection: [2; 16] };
    let frame = prepare(Some(camera), None).unwrap();
    assert_eq!(frame.viewport, (1920, 1080));
    assert_eq!(frame.camera.view, [1; 16]);
    assert_eq!(frame.camera.projection, [2; 16]);
    let frame = prepare(Some(camera), Some((640, 480))).unwrap();
    assert_eq!(frame.viewport, (640, 480));
}

#[test]
fn uniform_block_lays_out_forty_words() {
    let pass = SplatPass::new(&[gaussian(0), gaussian(1), gaussian(2)]);
    let mut view = [0u32; 16];
    let mut projection = [0u32; 16];
    for i in 0..16 {
        view[i] = 100 + i as u32;
        projection[i] = 200 + i as u32;
    }
    let camera = CameraMatrices { view, projection };
    let bytes = pass.uniform_block(&camera, [31, 32], [41, 42]);
    assert_eq!(bytes.len(), 160);
    let got = words(&bytes);
    let mut expected: Vec<u32> = Vec::new();
    expected.extend_from_slice(&view);
    expected.extend_from_slice(&projection);
    expected.extend_from_slice(&[31, 32, 41, 42, 3, 4, 0, 0]);
    assert_eq!(got, expected);
}

#[test]
fn pass_names_its_slots() {
    let pass = SplatPass::new(&[]);
    assert_eq!(pass.name(), "splat_pass");
    assert_eq!(pass.reads_writes(), vec!["color", "depth"]);
}
