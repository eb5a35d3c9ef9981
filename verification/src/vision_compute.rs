use vstd::prelude::*;

verus! {

/// Side length of the square visibility texture, in texels.
pub const VISIBILITY_TEXTURE_SIZE: u32 = 1024;

/// Side length of the square of texels that one workgroup fills.
pub const WORKGROUP_SIZE: u32 = 8;

/// Number of workgroups along one side that cover `extent` texels: the
/// least number whose texels are no fewer than `extent`.
pub open spec fn spec_dispatch_size(extent: u32, workgroup_size: u32) -> int {
    if extent % workgroup_size == 0 {
        (extent / workgroup_size) as int
    } else {
        extent / workgroup_size + 1
    }
}

/// Number of workgroups along one side that cover `extent` texels.
pub fn dispatch_size(extent: u32, workgroup_size: u32) -> (count: u32)
    requires
        workgroup_size > 0,
    ensures
        count == spec_dispatch_size(extent, workgroup_size),
        count * workgroup_size >= extent,
        count > 0 ==> (count - 1) * workgroup_size < extent,
{
    let whole: u32 = extent / workgroup_size;
    let rest: u32 = extent % workgroup_size;
    proof {
        let e = extent as int;
        let w = workgroup_size as int;
        vstd::arithmetic::div_mod::lemma_fundamental_div_mod(e, w);
        assert(w * (e / w) == (e / w) * w) by (nonlinear_arith);
        assert((e / w + 1) * w == (e / w) * w + w) by (nonlinear_arith);
        assert((e / w - 1) * w == (e / w) * w - w) by (nonlinear_arith);
        if rest != 0 {
            assert(e / w < u32::MAX) by (nonlinear_arith)
                requires
                    (e / w) * w + e % w == e,
                    e % w > 0,
                    w >= 1,
                    e <= u32::MAX,
                    e / w >= 0,
            ;
        }
    }
    if rest == 0 {
        whole
    } else {
        whole + 1
    }
}

/// What is at hand when the compute pass of a view is due.
#[derive(Clone, Copy, Debug, PartialEq, Eq, Structural)]
pub struct ComputePassInputs {
    /// The view's uniforms are bound.
    pub view_uniforms_ready: bool,
    /// The compute pipeline is compiled.
    pub pipeline_ready: bool,
    /// The vision providers are uploaded to their buffer.
    pub params_ready: bool,
}

/// What the compute pass of a view does.
#[derive(Clone, Copy, Debug, PartialEq, Eq, Structural)]
pub enum ComputePass {
    /// Nothing: something the pass needs is not there yet.
    Skip,
    /// Fills the visibility texture with this many workgroups along each
    /// axis.
    Dispatch { groups_x: u32, groups_y: u32, groups_z: u32 },
}

/// What the compute pass does with what is at hand: it runs only when the
/// view uniforms, the pipeline and the providers' buffer are all there, and
/// then with as many workgroups along both sides as cover the visibility
/// texture, one layer deep.
pub fn plan_compute(inputs: ComputePassInputs) -> (pass: ComputePass)
    ensures
        pass is Skip <==> !(inputs.view_uniforms_ready && inputs.pipeline_ready
            && inputs.params_ready),
        pass matches ComputePass::Dispatch { groups_x, groups_y, groups_z } ==> groups_x
            == spec_dispatch_size(VISIBILITY_TEXTURE_SIZE, WORKGROUP_SIZE) && groups_y == groups_x
            && groups_z == 1,
{
    if !inputs.view_uniforms_ready {
        return ComputePass::Skip;
    }
    if !inputs.pipeline_ready {
        return ComputePass::Skip;
    }
    if !inputs.params_ready {
        return ComputePass::Skip;
    }
    let groups: u32 = dispatch_size(VISIBILITY_TEXTURE_SIZE, WORKGROUP_SIZE);
    ComputePass::Dispatch { groups_x: groups, groups_y: groups, groups_z: 1 }
}

} // verus!
