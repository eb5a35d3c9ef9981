use zing_fog2d::fog::ViewFogOfWarUniformOffset;
use zing_fog2d::node::FogNode2d;
use zing_fog2d::node::FogPass;
use zing_fog2d::node::FogPassInputs;
use zing_fog2d::node::NoiseSource;
use zing_fog2d::node::FULLSCREEN_VERTICES;
use zing_fog2d::vision_compute::dispatch_size;
use zing_fog2d::vision_compute::plan_compute;
use zing_fog2d::vision_compute::ComputePass;
use zing_fog2d::vision_compute::ComputePassInputs;
use zing_fog2d::vision_compute::VISIBILITY_TEXTURE_SIZE;
use zing_fog2d::vision_compute::WORKGROUP_SIZE;

fn inputs(view: bool, pipeline: bool, settings: bool, noise: bool) -> FogPassInputs {
    FogPassInputs {
        view_uniforms_ready: view,
        pipeline_ready: pipeline,
        settings_ready: settings,
        noise_ready: noise,
    }
}

#[test]
fn fog_pass_is_skipped_until_everything_is_ready() {
    let node = FogNode2d::default();
    let offset = ViewFogOfWarUniformOffset { offset: 256 };
    for noise in [false, true] {
        assert_eq!(node.plan(inputs(false, true, true, noise), offset), FogPass::Skip);
        assert_eq!(node.plan(inputs(true, false, true, noise), offset), FogPass::Skip);
        assert_eq!(node.plan(inputs(true, true, false, noise), offset), FogPass::Skip);
        assert_eq!(node.plan(inputs(false, false, false, noise), offset), FogPass::Skip);
    }
}

#[test]
fn fog_pass_draws_one_triangle_at_the_view_offset() {
    let node = FogNode2d;
    assert_eq!(
        node.plan(inputs(true, true, true, true), ViewFogOfWarUniformOffset { offset: 512 }),
        FogPass::Draw { noise: NoiseSource::Texture, uniform_offset: 512, vertices: 3 }
    );
    assert_eq!(
        node.plan(inputs(true, true, true, false), ViewFogOfWarUniformOffset { offset: 0 }),
        FogPass::Draw { noise: NoiseSource::Fallback, uniform_offset: 0, vertices: 3 }
    );
    assert_eq!(FULLSCREEN_VERTICES, 3);
}

#[test]
fn dispatch_size_covers_the_texture() {
    assert_eq!(dispatch_size(VISIBILITY_TEXTURE_SIZE, WORKGROUP_SIZE), 128);
    assert_eq!(dispatch_size(1024, 8), 128);
    assert_eq!(dispatch_size(1025, 8), 129);
    assert_eq!(dispatch_size(1023, 8), 128);
    assert_eq!(dispatch_size(1, 8), 1);
    assert_eq!(dispatch_size(0, 8), 0);
    assert_eq!(dispatch_size(7, 1), 7);
    assert_eq!(dispatch_size(u32::MAX, 1), u32::MAX);
    assert_eq!(dispatch_size(u32::MAX, u32::MAX), 1);
    assert_eq!(dispatch_size(u32::MAX, 2), 0x8000_0000);
}

fn compute_inputs(view: bool, pipeline: bool, params: bool) -> ComputePassInputs {
    ComputePassInputs {
        view_uniforms_ready: view,
        pipeline_ready: pipeline,
        params_ready: params,
    }
}

#[test]
fn compute_pass_is_skipped_until_everything_is_ready() {
    assert_eq!(plan_compute(compute_inputs(false, true, true)), ComputePass::Skip);
    assert_eq!(plan_compute(compute_inputs(true, false, true)), ComputePass::Skip);
    assert_eq!(plan_compute(compute_inputs(true, true, false)), ComputePass::Skip);
    assert_eq!(plan_compute(compute_inputs(false, false, false)), ComputePass::Skip);
    assert_eq!(plan_compute(compute_inputs(true, false, false)), ComputePass::Skip);
}

#[test]
fn compute_pass_covers_the_visibility_texture() {
    assert_eq!(
        plan_compute(compute_inputs(true, true, true)),
        ComputePass::Dispatch { groups_x: 128, groups_y: 128, groups_z: 1 }
    );
}
