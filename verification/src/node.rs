use vstd::prelude::*;
use crate::fog::ViewFogOfWarUniformOffset;

verus! {

/// What is at hand when the fog pass of a view is due.
#[derive(Clone, Copy, Debug, PartialEq, Eq, Structural)]
pub struct FogPassInputs {
    /// The view's uniforms are bound.
    pub view_uniforms_ready: bool,
    /// The fog pipeline is compiled.
    pub pipeline_ready: bool,
    /// The fog settings are written to their buffer.
    pub settings_ready: bool,
    /// The noise texture is on the GPU.
    pub noise_ready: bool,
}

/// The texture that the fog pass samples its noise from.
#[derive(Clone, Copy, Debug, PartialEq, Eq, Structural)]
pub enum NoiseSource {
    /// The noise texture of the pipeline.
    Texture,
    /// The stand-in, while the noise texture is not loaded.
    Fallback,
}

/// What the fog pass of a view does.
#[derive(Clone, Copy, Debug, PartialEq, Eq, Structural)]
pub enum FogPass {
    /// Nothing: something the pass needs is not there yet.
    Skip,
    /// Draws the fog over the whole view.
    Draw {
        noise: NoiseSource,
        /// Where the view's settings start in the uniform buffer.
        uniform_offset: u32,
        /// Number of vertices drawn.
        vertices: u32,
    },
}

/// Vertices of the one triangle that covers the view.
pub const FULLSCREEN_VERTICES: u32 = 3;

/// The render graph node that lays the fog over a 2D view.
#[derive(Clone, Copy, Debug, Default)]
pub struct FogNode2d;

impl FogNode2d {
    /// What the pass does with what is at hand: it draws only when the view
    /// uniforms, the pipeline and the settings are all there, and then with
    /// the noise texture if that is loaded, else with the stand-in.
    pub open spec fn spec_plan(inputs: FogPassInputs, offset: ViewFogOfWarUniformOffset) -> FogPass {
        if inputs.view_uniforms_ready && inputs.pipeline_ready && inputs.settings_ready {
            FogPass::Draw {
                noise: if inputs.noise_ready {
                    NoiseSource::Texture
                } else {
                    NoiseSource::Fallback
                },
                uniform_offset: offset.offset,
                vertices: FULLSCREEN_VERTICES,
            }
        } else {
            FogPass::Skip
        }
    }

    /// What the pass does with what is at hand.
    pub fn plan(&self, inputs: FogPassInputs, offset: ViewFogOfWarUniformOffset) -> (pass: FogPass)
        ensures
            pass == FogNode2d::spec_plan(inputs, offset),
            pass is Skip <==> !(inputs.view_uniforms_ready && inputs.pipeline_ready
                && inputs.settings_ready),
    {
        if !inputs.view_uniforms_ready {
            return FogPass::Skip;
        }
        if !inputs.pipeline_ready {
            return FogPass::Skip;
        }
        if !inputs.settings_ready {
            return FogPass::Skip;
        }
        let noise = if inputs.noise_ready {
            NoiseSource::Texture
        } else {
            NoiseSource::Fallback
        };
        FogPass::Draw { noise, uniform_offset: offset.offset, vertices: FULLSCREEN_VERTICES }
    }
}

} // verus!
