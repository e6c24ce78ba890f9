//! Reference views: how each one is rendered.
use vstd::prelude::*;

use crate::float_bits::{less, Vec3, ONE, ZERO};
#[allow(unused_imports)]
use crate::float_bits::lt;
use crate::light_sampling::LightSampling;
use crate::renderer::RenderConfig;

verus! {

/// How to bake reference views. Floats are bit patterns.
#[derive(Clone, Copy, Debug, PartialEq, Eq, Structural)]
pub struct BakeConfig {
    /// Number of viewpoints.
    pub views: u32,
    pub width: u32,
    pub height: u32,
    /// Radius of the camera sphere around `target`.
    pub orbit_radius: u32,
    /// The point that cameras look at.
    pub target: Vec3,
    /// Vertical field of view in radians.
    pub fov_y: u32,
    pub aa_samples: u32,
    pub max_depth: i32,
    pub tonemap: bool,
}

impl Default for BakeConfig {
    /// Fifty views of 512 by 384 pixels from 35 units around `(0, 0, -20)`,
    /// with a field of view of 1.05.
    fn default() -> (cfg: Self)
        ensures
            cfg == (BakeConfig {
                views: 50,
                width: 512,
                height: 384,
                orbit_radius: 0x420c_0000,
                target: Vec3 { x: ZERO, y: ZERO, z: 0xc1a0_0000 },
                fov_y: 0x3f86_6666,
                aa_samples: 2,
                max_depth: 16,
                tonemap: true,
            }),
    {
        BakeConfig {
            views: 50,
            width: 512,
            height: 384,
            orbit_radius: 0x420c_0000,
            target: Vec3::new(ZERO, ZERO, 0xc1a0_0000),
            fov_y: 0x3f86_6666,
            aa_samples: 2,
            max_depth: 16,
            tonemap: true,
        }
    }
}

/// Steepness past which a view counts as vertical: `0.95`.
pub const STEEP: u32 = 0x3f73_3333;

/// The up vector of a view that looks up or down with this steepness, the
/// magnitude of its direction's Y component: Y unless the view is close to
/// vertical, then X.
pub fn pick_up(steepness: u32) -> (up: Vec3)
    ensures
        up == if lt(STEEP, steepness) {
            Vec3 { x: ONE, y: ZERO, z: ZERO }
        } else {
            Vec3 { x: ZERO, y: ONE, z: ZERO }
        },
        lt(0x3f73_3333, steepness) ==> up.x == 0x3f80_0000 && up.y == 0 && up.z == 0,
        !lt(0x3f73_3333, steepness) ==> up.x == 0 && up.y == 0x3f80_0000 && up.z == 0,
{
    if less(STEEP, steepness) {
        Vec3::new(ONE, ZERO, ZERO)
    } else {
        Vec3::new(ZERO, ONE, ZERO)
    }
}

/// The render of a reference view from `camera_pos`.
pub open spec fn reference_render(cfg: BakeConfig, camera_pos: Vec3, up: Vec3) -> RenderConfig {
    RenderConfig {
        width: cfg.width,
        height: cfg.height,
        fov: cfg.fov_y,
        camera_pos,
        camera_target: cfg.target,
        camera_up: up,
        aa_samples: cfg.aa_samples,
        max_depth: cfg.max_depth,
        reflection_depth: 4,
        refraction_depth: 8,
        tonemap: cfg.tonemap,
        light_sampling: LightSampling::All,
    }
}

/// Two reference views of one configuration differ only in where the camera
/// stands and what is up: they share the frame, the target and the way they
/// are rendered, which are those of the configuration.
pub proof fn law_reference_views(cfg: BakeConfig, pos: Vec3, up: Vec3, pos2: Vec3, up2: Vec3)
    ensures
        reference_render(cfg, pos, up).camera_pos == pos,
        reference_render(cfg, pos, up).camera_up == up,
        reference_render(cfg, pos, up).camera_target == cfg.target,
        reference_render(cfg, pos, up).width == cfg.width,
        reference_render(cfg, pos, up).height == cfg.height,
        reference_render(cfg, pos, up).fov == cfg.fov_y,
        reference_render(cfg, pos, up).aa_samples == cfg.aa_samples,
        reference_render(cfg, pos, up).max_depth == cfg.max_depth,
        reference_render(cfg, pos, up).reflection_depth == 4,
        reference_render(cfg, pos, up).refraction_depth == 8,
        reference_render(cfg, pos, up).tonemap == cfg.tonemap,
        reference_render(cfg, pos, up).light_sampling is All,
        reference_render(cfg, pos2, up2) == (RenderConfig {
            camera_pos: pos2,
            camera_up: up2,
            ..reference_render(cfg, pos, up)
        }),
{
}

/// The render of one reference view: the configured frame from `camera_pos`,
/// with fixed reflection and refraction depths and all lights.
pub fn view_config(cfg: &BakeConfig, camera_pos: Vec3, up: Vec3) -> (config: RenderConfig)
    ensures
        config == (RenderConfig {
            width: cfg.width,
            height: cfg.height,
            fov: cfg.fov_y,
            camera_pos,
            camera_target: cfg.target,
            camera_up: up,
            aa_samples: cfg.aa_samples,
            max_depth: cfg.max_depth,
            reflection_depth: 4,
            refraction_depth: 8,
            tonemap: cfg.tonemap,
            light_sampling: LightSampling::All,
        }),
        config == reference_render(*cfg, camera_pos, up),
{
    RenderConfig {
        width: cfg.width,
        height: cfg.height,
        fov: cfg.fov_y,
        camera_pos,
        camera_target: cfg.target,
        camera_up: up,
        aa_samples: cfg.aa_samples,
        max_depth: cfg.max_depth,
        reflection_depth: 4,
        refraction_depth: 8,
        tonemap: cfg.tonemap,
        light_sampling: LightSampling::All,
    }
}

} // verus!
