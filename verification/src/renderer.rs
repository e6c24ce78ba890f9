//! The path tracer's frame: its parameter block, dispatch, descriptors and
//! readback.
use vstd::prelude::*;

use crate::dispatch::group_count;
#[allow(unused_imports)]
use crate::dispatch::groups_for;
use crate::environment::EnvGpuData;
#[allow(unused_imports)]
use crate::environment::{uploads, EnvironmentMap};
use crate::float_bits::{Vec3, ONE, ZERO};
use crate::gpu_scene::{build_gpu_scene, flatten_triangles, GpuSceneData};
#[allow(unused_imports)]
use crate::gpu_scene::{can_flatten, flattened_materials, flattened_meshes, light_points};
use crate::light_sampling::LightSampling;
use crate::mesh::Mesh;
use crate::scene::Scene;
use crate::shaders::assemble;
#[allow(unused_imports)]
use crate::shaders::{HELPERS, PREAMBLE};

verus! {

/// What to render. Floats are bit patterns.
#[derive(Clone, Copy, Debug)]
pub struct RenderConfig {
    pub width: u32,
    pub height: u32,
    /// Vertical field of view in radians.
    pub fov: u32,
    pub camera_pos: Vec3,
    pub camera_target: Vec3,
    pub camera_up: Vec3,
    /// Samples per pixel along each axis.
    pub aa_samples: u32,
    pub max_depth: i32,
    pub reflection_depth: i32,
    pub refraction_depth: i32,
    pub tonemap: bool,
    pub light_sampling: LightSampling,
}

/// The shader's parameter block.
#[derive(Clone, Copy, Debug)]
pub struct GpuParams {
    pub width: u32,
    pub height: u32,
    pub aa_samples: u32,
    pub max_depth: u32,
    pub reflection_depth: u32,
    pub refraction_depth: u32,
    pub light_count: u32,
    pub light_sampling: u32,
    pub use_env: u32,
    pub use_sky: u32,
    pub env_width: u32,
    pub env_height: u32,
    pub tonemap: u32,
    pub exposure: u32,
    pub fov: u32,
    /// Cosine-convolved irradiance of the environment, nine RGB coefficients.
    pub irradiance_sh: [[u32; 4]; 9],
    pub camera_pos: Vec3,
    pub camera_target: Vec3,
    pub camera_up: Vec3,
}

/// The environment is the procedural sky's: one opaque black texel.
pub open spec fn is_sky(env: EnvGpuData) -> bool {
    &&& env.data@ == seq![[ZERO, ZERO, ZERO, ONE]]
    &&& env.width == 1
    &&& env.height == 1
    &&& env.exposure == ONE
    &&& env.use_sky
}

/// The environment of a scene that has none: the procedural sky.
pub fn default_environment() -> (env: EnvGpuData)
    ensures
        is_sky(env),
{
    let mut data: Vec<[u32; 4]> = Vec::new();
    data.push([ZERO, ZERO, ZERO, ONE]);
    assert(data@ =~= seq![[ZERO, ZERO, ZERO, ONE]]);
    EnvGpuData { data, width: 1, height: 1, exposure: ONE, use_sky: true }
}

/// `used` is the irradiance that a scene is lit by: that of its environment,
/// or none at all.
pub open spec fn lit_by(scene: Scene, given: [[u32; 4]; 9], used: [[u32; 4]; 9]) -> bool {
    if scene.environment is Some {
        used == given
    } else {
        forall|i: int, j: int| 0 <= i < 9 && 0 <= j < 4 ==> #[trigger] used[i][j] == ZERO
    }
}

/// A flag as a word.
pub open spec fn flag(b: bool) -> u32 {
    if b {
        1
    } else {
        0
    }
}

/// `x`, but not below `least`.
pub open spec fn at_least(x: i32, least: i32) -> int {
    if x < least {
        least as int
    } else {
        x as int
    }
}

fn raise(x: i32, least: i32) -> (r: u32)
    requires
        least >= 0,
    ensures
        r == at_least(x, least),
{
    if x < least {
        least as u32
    } else {
        x as u32
    }
}

fn flag_word(b: bool) -> (w: u32)
    ensures
        w == flag(b),
{
    if b {
        1
    } else {
        0
    }
}

/// The block that a configuration, a number of lights and an environment give.
/// At least one bounce is traced, reflection and refraction depths are never
/// negative, and exactly one of the sky and the environment texture is in use.
pub open spec fn block_for(
    params: GpuParams,
    config: RenderConfig,
    light_count: int,
    env: EnvGpuData,
    irradiance_sh: [[u32; 4]; 9],
) -> bool {
    &&& params.width == config.width
    &&& params.height == config.height
    &&& params.aa_samples == config.aa_samples
    &&& params.max_depth == at_least(config.max_depth, 1)
    &&& params.reflection_depth == at_least(config.reflection_depth, 0)
    &&& params.refraction_depth == at_least(config.refraction_depth, 0)
    &&& params.light_count == light_count
    &&& params.light_sampling == config.light_sampling.code()
    &&& params.use_env == flag(!env.use_sky)
    &&& params.use_sky == flag(env.use_sky)
    &&& params.env_width == env.width
    &&& params.env_height == env.height
    &&& params.tonemap == flag(config.tonemap)
    &&& params.exposure == env.exposure
    &&& params.fov == config.fov
    &&& params.irradiance_sh == irradiance_sh
    &&& params.camera_pos == config.camera_pos
    &&& params.camera_target == config.camera_target
    &&& params.camera_up == config.camera_up
}

/// The parameter block of a frame.
pub fn gpu_params(
    config: &RenderConfig,
    light_count: u32,
    env: &EnvGpuData,
    irradiance_sh: &[[u32; 4]; 9],
) -> (params: GpuParams)
    ensures
        block_for(params, *config, light_count as int, *env, *irradiance_sh),
{
    GpuParams {
        width: config.width,
        height: config.height,
        aa_samples: config.aa_samples,
        max_depth: raise(config.max_depth, 1),
        reflection_depth: raise(config.reflection_depth, 0),
        refraction_depth: raise(config.refraction_depth, 0),
        light_count,
        light_sampling: config.light_sampling.as_u32(),
        use_env: flag_word(!env.use_sky),
        use_sky: flag_word(env.use_sky),
        env_width: env.width,
        env_height: env.height,
        tonemap: flag_word(config.tonemap),
        exposure: env.exposure,
        fov: config.fov,
        irradiance_sh: *irradiance_sh,
        camera_pos: config.camera_pos,
        camera_target: config.camera_target,
        camera_up: config.camera_up,
    }
}

/// Word offset of the irradiance coefficients in the uniform block.
pub const IRRADIANCE_WORD: usize = 20;

/// Word offset of the camera in the uniform block.
pub const CAMERA_WORD: usize = 56;

impl GpuParams {
    /// The words of the uniform block: fifteen scalars, two padding words and
    /// three more up to the next four-word boundary, nine irradiance
    /// coefficients and the three camera vectors, four words each.
    pub open spec fn block(self) -> Seq<u32> {
        seq![
            self.width,
            self.height,
            self.aa_samples,
            self.max_depth,
            self.reflection_depth,
            self.refraction_depth,
            self.light_count,
            self.light_sampling,
            self.use_env,
            self.use_sky,
            self.env_width,
            self.env_height,
            self.tonemap,
            self.exposure,
            self.fov,
            0,
            0,
            0,
            0,
            0,
        ] + Seq::new(36, |i: int| self.irradiance_sh[i / 4][i % 4]) + seq![
            self.camera_pos.x,
            self.camera_pos.y,
            self.camera_pos.z,
            0,
            self.camera_target.x,
            self.camera_target.y,
            self.camera_target.z,
            0,
            self.camera_up.x,
            self.camera_up.y,
            self.camera_up.z,
            0,
        ]
    }

    /// The words of the uniform block.
    pub fn words(&self) -> (words: Vec<u32>)
        ensures
            words@ == self.block(),
    {
        let mut words: Vec<u32> = Vec::new();
        words.push(self.width);
        words.push(self.height);
        words.push(self.aa_samples);
        words.push(self.max_depth);
        words.push(self.reflection_depth);
        words.push(self.refraction_depth);
        words.push(self.light_count);
        words.push(self.light_sampling);
        words.push(self.use_env);
        words.push(self.use_sky);
        words.push(self.env_width);
        words.push(self.env_height);
        words.push(self.tonemap);
        words.push(self.exposure);
        words.push(self.fov);
        words.push(0);
        words.push(0);
        words.push(0);
        words.push(0);
        words.push(0);
        let ghost head = words@;
        let ghost sh = Seq::new(36, |i: int| self.irradiance_sh[i / 4][i % 4]);
        assert(words@ =~= head + sh.take(0));
        let mut k: usize = 0;
        while k < 9
            invariant
                k <= 9,
                sh == Seq::new(36, |i: int| self.irradiance_sh[i / 4][i % 4]),
                words@ == head + sh.take(k * 4),
            decreases 9 - k,
        {
            let q: [u32; 4] = self.irradiance_sh[k];
            words.push(q[0]);
            words.push(q[1]);
            words.push(q[2]);
            words.push(q[3]);
            proof {
                assert(sh[k * 4] == q[0]);
                assert(sh[k * 4 + 1] == q[1]);
                assert(sh[k * 4 + 2] == q[2]);
                assert(sh[k * 4 + 3] == q[3]);
                assert(words@ =~= head + sh.take((k + 1) * 4));
            }
            k = k + 1;
        }
        words.push(self.camera_pos.x);
        words.push(self.camera_pos.y);
        words.push(self.camera_pos.z);
        words.push(0);
        words.push(self.camera_target.x);
        words.push(self.camera_target.y);
        words.push(self.camera_target.z);
        words.push(0);
        words.push(self.camera_up.x);
        words.push(self.camera_up.y);
        words.push(self.camera_up.z);
        words.push(0);
        assert(words@ =~= self.block());
        words
    }
}

/// In the uniform block every four-word vector starts on a four-word
/// boundary, and the camera and the irradiance stand whole where the shader's
/// layout reads them.
pub proof fn law_block_is_aligned(p: GpuParams)
    ensures
        p.block().len() == 68,
        IRRADIANCE_WORD as int % 4 == 0,
        CAMERA_WORD as int % 4 == 0,
        forall|i: int|
            0 <= i < 9 ==> (#[trigger] p.irradiance_sh[i])@ == p.block().subrange(
                IRRADIANCE_WORD + 4 * i,
                IRRADIANCE_WORD + 4 * i + 4,
            ),
        p.block().subrange(CAMERA_WORD as int, CAMERA_WORD + 3) == p.camera_pos.seq(),
        p.block().subrange(CAMERA_WORD + 4, CAMERA_WORD + 7) == p.camera_target.seq(),
        p.block().subrange(CAMERA_WORD + 8, CAMERA_WORD + 11) == p.camera_up.seq(),
{
    let b = p.block();
    assert forall|i: int| 0 <= i < 9 implies (#[trigger] p.irradiance_sh[i])@ == b.subrange(
        IRRADIANCE_WORD + 4 * i,
        IRRADIANCE_WORD + 4 * i + 4,
    ) by {
        let s = b.subrange(IRRADIANCE_WORD + 4 * i, IRRADIANCE_WORD + 4 * i + 4);
        let q = p.irradiance_sh[i];
        assert forall|j: int| 0 <= j < 4 implies s[j] == q@[j] by {
            let w = 4 * i + j;
            assert(w / 4 == i && w % 4 == j);
            assert(b[20 + w] == p.irradiance_sh[w / 4][w % 4]);
        }
        assert(q@ =~= s);
    }
    assert(b.subrange(CAMERA_WORD as int, CAMERA_WORD + 3) =~= p.camera_pos.seq());
    assert(b.subrange(CAMERA_WORD + 4, CAMERA_WORD + 7) =~= p.camera_target.seq());
    assert(b.subrange(CAMERA_WORD + 8, CAMERA_WORD + 11) =~= p.camera_up.seq());
}

/// Word by word, the uniform block is what the shader's `Params` declares: the
/// scalars in the order of their declaration, zero padding up to the next
/// four-word boundary, nine irradiance coefficients of four words, and the
/// camera's position, target and up vector with a zero fourth word each.
pub proof fn law_block_words(p: GpuParams)
    ensures
        p.block().len() == 68,
        p.block()[0] == p.width,
        p.block()[1] == p.height,
        p.block()[2] == p.aa_samples,
        p.block()[3] == p.max_depth,
        p.block()[4] == p.reflection_depth,
        p.block()[5] == p.refraction_depth,
        p.block()[6] == p.light_count,
        p.block()[7] == p.light_sampling,
        p.block()[8] == p.use_env,
        p.block()[9] == p.use_sky,
        p.block()[10] == p.env_width,
        p.block()[11] == p.env_height,
        p.block()[12] == p.tonemap,
        p.block()[13] == p.exposure,
        p.block()[14] == p.fov,
        forall|i: int| 15 <= i < 20 ==> #[trigger] p.block()[i] == 0,
        forall|i: int| 20 <= i < 56 ==> #[trigger] p.block()[i] == p.irradiance_sh[(i - 20) / 4][(i
            - 20) % 4],
        p.block()[56] == p.camera_pos.x,
        p.block()[57] == p.camera_pos.y,
        p.block()[58] == p.camera_pos.z,
        p.block()[59] == 0,
        p.block()[60] == p.camera_target.x,
        p.block()[61] == p.camera_target.y,
        p.block()[62] == p.camera_target.z,
        p.block()[63] == 0,
        p.block()[64] == p.camera_up.x,
        p.block()[65] == p.camera_up.y,
        p.block()[66] == p.camera_up.z,
        p.block()[67] == 0,
{
}

/// What the shader reads of a configuration: sizes, samples, field of view,
/// exposure and camera as they are, the bounce limit never below one and the
/// two other limits never below zero, one for every flag that is set and zero
/// for every other, and zero for sampling all lights and one for sampling one.
pub proof fn law_configuration_reaches_the_shader(
    params: GpuParams,
    config: RenderConfig,
    light_count: int,
    env: EnvGpuData,
    irradiance_sh: [[u32; 4]; 9],
)
    requires
        block_for(params, config, light_count, env, irradiance_sh),
    ensures
        params.block()[0] == config.width,
        params.block()[1] == config.height,
        params.block()[2] == config.aa_samples,
        config.max_depth >= 1 ==> params.block()[3] == config.max_depth,
        config.max_depth < 1 ==> params.block()[3] == 1,
        config.reflection_depth >= 0 ==> params.block()[4] == config.reflection_depth,
        config.reflection_depth < 0 ==> params.block()[4] == 0,
        config.refraction_depth >= 0 ==> params.block()[5] == config.refraction_depth,
        config.refraction_depth < 0 ==> params.block()[5] == 0,
        params.block()[6] == light_count,
        config.light_sampling is All ==> params.block()[7] == 0,
        config.light_sampling is One ==> params.block()[7] == 1,
        env.use_sky ==> params.block()[8] == 0 && params.block()[9] == 1,
        !env.use_sky ==> params.block()[8] == 1 && params.block()[9] == 0,
        params.block()[10] == env.width,
        params.block()[11] == env.height,
        config.tonemap ==> params.block()[12] == 1,
        !config.tonemap ==> params.block()[12] == 0,
        params.block()[13] == env.exposure,
        params.block()[14] == config.fov,
        forall|i: int, j: int|
            0 <= i < 9 && 0 <= j < 4 ==> params.block()[20 + 4 * i + j]
                == #[trigger] irradiance_sh[i][j],
        params.block()[56] == config.camera_pos.x,
        params.block()[57] == config.camera_pos.y,
        params.block()[58] == config.camera_pos.z,
        params.block()[60] == config.camera_target.x,
        params.block()[61] == config.camera_target.y,
        params.block()[62] == config.camera_target.z,
        params.block()[64] == config.camera_up.x,
        params.block()[65] == config.camera_up.y,
        params.block()[66] == config.camera_up.z,
{
    law_block_words(params);
    assert forall|i: int, j: int| 0 <= i < 9 && 0 <= j < 4 implies params.block()[20 + 4 * i + j]
        == #[trigger] irradiance_sh[i][j] by {
        let w = 4 * i + j;
        assert(w / 4 == i && w % 4 == j);
        assert(params.block()[20 + w] == params.irradiance_sh[w / 4][w % 4]);
    }
}

/// The environment that stands in where a scene has none is what the
/// procedural sky uploads: one opaque black texel at exposure one. Such a scene
/// is lit by no irradiance, any other by all of its own.
pub proof fn law_scene_without_environment(
    map: EnvironmentMap,
    env: EnvGpuData,
    scene: Scene,
    given: [[u32; 4]; 9],
    used: [[u32; 4]; 9],
)
    requires
        lit_by(scene, given, used),
    ensures
        is_sky(env) ==> env.data@.len() == 1 && env.data@[0]@ == seq![
            0u32,
            0u32,
            0u32,
            0x3f80_0000u32,
        ] && env.width == 1 && env.height == 1 && env.exposure == 0x3f80_0000 && env.use_sky,
        map.use_sky && map.exposure == 0x3f80_0000 ==> is_sky(env) == uploads(map, env),
        forall|i: int, j: int|
            0 <= i < 9 && 0 <= j < 4 ==> #[trigger] used[i][j] == if scene.environment is Some {
                given[i][j]
            } else {
                0
            },
{
    let black: [u32; 4] = [ZERO, ZERO, ZERO, ONE];
    assert(black@ =~= seq![0u32, 0u32, 0u32, 0x3f80_0000u32]);
}

/// Two frames that differ in where their camera stands, looks at or holds
/// upright differ in their uniform blocks: a moved camera reaches the shader.
pub proof fn law_camera_reaches_the_shader(p: GpuParams, q: GpuParams)
    requires
        p.camera_pos != q.camera_pos || p.camera_target != q.camera_target || p.camera_up
            != q.camera_up,
    ensures
        p.block() != q.block(),
{
    let a = p.block();
    let b = q.block();
    assert(a[56] == p.camera_pos.x && a[57] == p.camera_pos.y && a[58] == p.camera_pos.z);
    assert(a[60] == p.camera_target.x && a[61] == p.camera_target.y && a[62]
        == p.camera_target.z);
    assert(a[64] == p.camera_up.x && a[65] == p.camera_up.y && a[66] == p.camera_up.z);
    assert(b[56] == q.camera_pos.x && b[57] == q.camera_pos.y && b[58] == q.camera_pos.z);
    assert(b[60] == q.camera_target.x && b[61] == q.camera_target.y && b[62]
        == q.camera_target.z);
    assert(b[64] == q.camera_up.x && b[65] == q.camera_up.y && b[66] == q.camera_up.z);
}

/// Workgroups of eight by eight pixels that cover a frame.
pub fn frame_groups(width: u32, height: u32) -> (groups: (u32, u32))
    ensures
        groups.0 == groups_for(width as int, 8),
        groups.1 == groups_for(height as int, 8),
{
    (group_count(width, 8), group_count(height, 8))
}

/// Bytes of a frame of four-component float pixels.
pub fn frame_bytes(width: u32, height: u32) -> (bytes: u64)
    requires
        width * height * 16 <= u32::MAX,
    ensures
        bytes == width * height * 16,
{
    proof {
        assert(0 <= width * height) by (nonlinear_arith)
            requires
                0 <= width,
                0 <= height,
        ;
    }
    (width * height * 16) as u64
}

/// The colours of four-component pixels, without their alpha.
pub fn strip_alpha(words: &[u32]) -> (pixels: Vec<Vec3>)
    requires
        words.len() % 4 == 0,
    ensures
        pixels.len() * 4 == words.len(),
        forall|i: int|
            0 <= i < pixels.len() ==> #[trigger] pixels@[i] == (Vec3 {
                x: words@[4 * i],
                y: words@[4 * i + 1],
                z: words@[4 * i + 2],
            }),
{
    let n: usize = words.len() / 4;
    let mut pixels: Vec<Vec3> = Vec::new();
    let mut i: usize = 0;
    while i < n
        invariant
            i <= n,
            n * 4 == words.len(),
            pixels.len() == i,
            forall|k: int|
                0 <= k < i ==> #[trigger] pixels@[k] == (Vec3 {
                    x: words@[4 * k],
                    y: words@[4 * k + 1],
                    z: words@[4 * k + 2],
                }),
        decreases n - i,
    {
        pixels.push(Vec3::new(words[4 * i], words[4 * i + 1], words[4 * i + 2]));
        i = i + 1;
    }
    pixels
}

/// Everything that a frame uploads and dispatches.
pub struct RenderPlan {
    pub scene: GpuSceneData,
    /// The triangles as one flat index buffer.
    pub indices: Vec<u32>,
    pub env: EnvGpuData,
    pub params: GpuParams,
    pub groups: (u32, u32),
    pub output_bytes: u64,
}

/// Plans a frame: flattens the scene, takes its environment or the sky, and
/// fills in the parameter block. `spheres` and `face_normals` are those of
/// [`build_gpu_scene`]; `irradiance_sh` is the irradiance of the scene's
/// environment and not read where there is none.
pub fn plan_render(
    scene: &Scene,
    spheres: &[Mesh],
    face_normals: &[Vec<Vec3>],
    config: &RenderConfig,
    irradiance_sh: &[[u32; 4]; 9],
) -> (plan: RenderPlan)
    requires
        can_flatten(*scene, spheres@, face_normals@),
        scene.environment matches Some(map) ==> map.wf(),
        scene.lights.len() <= u32::MAX,
        config.width * config.height * 16 <= u32::MAX,
    ensures
        plan.scene.holds_meshes(
            flattened_meshes(*scene, spheres@, face_normals@),
            flattened_meshes(*scene, spheres@, face_normals@).len() as int,
        ),
        plan.scene.materials@ == flattened_materials(*scene),
        plan.scene.lights@ == light_points(scene.lights@, scene.lights.len() as int),
        plan.indices.len() == plan.scene.triangles.len() * 3,
        forall|t: int|
            0 <= t < plan.scene.triangles.len() ==> {
                &&& plan.indices@[3 * t] == (#[trigger] plan.scene.triangles@[t]).v0
                &&& plan.indices@[3 * t + 1] == plan.scene.triangles@[t].v1
                &&& plan.indices@[3 * t + 2] == plan.scene.triangles@[t].v2
            },
        scene.environment matches Some(map) ==> uploads(map, plan.env),
        scene.environment is None ==> is_sky(plan.env),
        plan.env.data.len() == plan.env.width * plan.env.height,
        block_for(
            plan.params,
            *config,
            plan.scene.lights.len() as int,
            plan.env,
            plan.params.irradiance_sh,
        ),
        lit_by(*scene, *irradiance_sh, plan.params.irradiance_sh),
        plan.groups.0 == groups_for(config.width as int, 8),
        plan.groups.1 == groups_for(config.height as int, 8),
        plan.output_bytes == config.width * config.height * 16,
{
    let gpu_scene: GpuSceneData = build_gpu_scene(scene, spheres, face_normals);
    let indices: Vec<u32> = flatten_triangles(&gpu_scene.triangles);
    let env: EnvGpuData = match &scene.environment {
        Some(map) => map.gpu_data(),
        None => default_environment(),
    };
    let irradiance: [[u32; 4]; 9] = if scene.environment.is_some() {
        *irradiance_sh
    } else {
        [[ZERO; 4]; 9]
    };
    let params: GpuParams = gpu_params(
        config,
        gpu_scene.lights.len() as u32,
        &env,
        &irradiance,
    );
    let groups: (u32, u32) = frame_groups(config.width, config.height);
    let output_bytes: u64 = frame_bytes(config.width, config.height);
    RenderPlan { scene: gpu_scene, indices, env, params, groups, output_bytes }
}

/// What a descriptor binding holds.
#[derive(Clone, Copy, Debug, PartialEq, Eq, Structural)]
pub enum DescriptorKind {
    AccelerationStructure,
    StorageImage,
    StorageBuffer,
    UniformBuffer,
    CombinedImageSampler,
}

/// A resource that the path tracer binds.
#[derive(Clone, Copy, Debug, PartialEq, Eq, Structural)]
pub enum Resource {
    Tlas,
    Output,
    Vertices,
    Normals,
    Triangles,
    Materials,
    TriMaterials,
    Lights,
    Params,
    Environment,
}

impl Resource {
    /// The kind of descriptor that a resource takes.
    pub open spec fn of_kind(self) -> DescriptorKind {
        match self {
            Resource::Tlas => DescriptorKind::AccelerationStructure,
            Resource::Output => DescriptorKind::StorageImage,
            Resource::Params => DescriptorKind::UniformBuffer,
            Resource::Environment => DescriptorKind::CombinedImageSampler,
            _ => DescriptorKind::StorageBuffer,
        }
    }

    /// The kind of descriptor that the resource takes.
    pub fn kind(self) -> (kind: DescriptorKind)
        ensures
            kind == self.of_kind(),
    {
        match self {
            Resource::Tlas => DescriptorKind::AccelerationStructure,
            Resource::Output => DescriptorKind::StorageImage,
            Resource::Params => DescriptorKind::UniformBuffer,
            Resource::Environment => DescriptorKind::CombinedImageSampler,
            _ => DescriptorKind::StorageBuffer,
        }
    }
}

/// The resource at each binding, in binding order.
pub open spec fn binding_table() -> Seq<Resource> {
    seq![
        Resource::Tlas,
        Resource::Output,
        Resource::Vertices,
        Resource::Normals,
        Resource::Triangles,
        Resource::Materials,
        Resource::TriMaterials,
        Resource::Lights,
        Resource::Params,
        Resource::Environment,
    ]
}

/// The resource at each binding, in binding order.
pub fn bindings() -> (table: Vec<Resource>)
    ensures
        table@ == binding_table(),
{
    let mut table: Vec<Resource> = Vec::new();
    table.push(Resource::Tlas);
    table.push(Resource::Output);
    table.push(Resource::Vertices);
    table.push(Resource::Normals);
    table.push(Resource::Triangles);
    table.push(Resource::Materials);
    table.push(Resource::TriMaterials);
    table.push(Resource::Lights);
    table.push(Resource::Params);
    table.push(Resource::Environment);
    assert(table@ =~= binding_table());
    table
}

/// No resource is bound twice, and each is bound.
pub proof fn law_each_resource_bound_once(r: Resource)
    ensures
        binding_table().contains(r),
        binding_table().no_duplicates(),
{
    let t = binding_table();
    assert(t[0] is Tlas && t[1] is Output && t[2] is Vertices && t[3] is Normals && t[4] is Triangles
        && t[5] is Materials && t[6] is TriMaterials && t[7] is Lights && t[8] is Params
        && t[9] is Environment);
    let i: int = match r {
        Resource::Tlas => 0,
        Resource::Output => 1,
        Resource::Vertices => 2,
        Resource::Normals => 3,
        Resource::Triangles => 4,
        Resource::Materials => 5,
        Resource::TriMaterials => 6,
        Resource::Lights => 7,
        Resource::Params => 8,
        Resource::Environment => 9,
    };
    assert(t[i] == r);
}

/// How many bindings of `table` are of kind `kind`.
pub open spec fn kind_count(table: Seq<Resource>, kind: DescriptorKind) -> int
    decreases table.len(),
{
    if table.len() == 0 {
        0
    } else {
        kind_count(table.drop_last(), kind) + if table.last().of_kind() == kind {
            1int
        } else {
            0int
        }
    }
}

/// How many descriptors of a kind the pool has to hold: one per binding of
/// that kind.
pub fn pool_count(kind: DescriptorKind) -> (count: u32)
    ensures
        count == kind_count(binding_table(), kind),
{
    let table: Vec<Resource> = bindings();
    let mut count: u32 = 0;
    let mut i: usize = 0;
    assert(table@.take(0) =~= Seq::<Resource>::empty());
    while i < table.len()
        invariant
            i <= table.len(),
            table.len() == 10,
            count <= i,
            count == kind_count(table@.take(i as int), kind),
        decreases table.len() - i,
    {
        assert(table@.take(i + 1).drop_last() =~= table@.take(i as int));
        if table[i].kind() == kind {
            count = count + 1;
        }
        i = i + 1;
    }
    assert(table@.take(table@.len() as int) =~= table@);
    count
}

/// Each resource stands at the binding where the shader declares it, as the
/// kind of descriptor that the shader reads there: the acceleration structure
/// first, the image that it writes, the six scene buffers, the parameter block
/// and the environment's texture.
pub proof fn law_bindings_are_the_shaders()
    ensures
        binding_table().len() == 10,
        binding_table()[0] is Tlas && Resource::Tlas.of_kind() is AccelerationStructure,
        binding_table()[1] is Output && Resource::Output.of_kind() is StorageImage,
        binding_table()[2] is Vertices && Resource::Vertices.of_kind() is StorageBuffer,
        binding_table()[3] is Normals && Resource::Normals.of_kind() is StorageBuffer,
        binding_table()[4] is Triangles && Resource::Triangles.of_kind() is StorageBuffer,
        binding_table()[5] is Materials && Resource::Materials.of_kind() is StorageBuffer,
        binding_table()[6] is TriMaterials && Resource::TriMaterials.of_kind() is StorageBuffer,
        binding_table()[7] is Lights && Resource::Lights.of_kind() is StorageBuffer,
        binding_table()[8] is Params && Resource::Params.of_kind() is UniformBuffer,
        binding_table()[9] is Environment && Resource::Environment.of_kind()
            is CombinedImageSampler,
{
}

/// The pool holds as many descriptors of a kind as bindings take one of that
/// kind: six storage buffers and one of each other kind.
pub proof fn law_pool_covers_the_bindings(table: Seq<Resource>, kind: DescriptorKind)
    ensures
        kind_count(table, kind) == table.filter(|r: Resource| r.of_kind() == kind).len(),
        kind_count(binding_table(), kind) == if kind is StorageBuffer {
            6int
        } else {
            1int
        },
{
    lemma_kind_count(table, kind);
    law_bindings_are_the_shaders();
    let t = binding_table();
    assert(t.take(10) =~= t);
    lemma_kind_step(t, 0, kind);
    lemma_kind_step(t, 1, kind);
    lemma_kind_step(t, 2, kind);
    lemma_kind_step(t, 3, kind);
    lemma_kind_step(t, 4, kind);
    lemma_kind_step(t, 5, kind);
    lemma_kind_step(t, 6, kind);
    lemma_kind_step(t, 7, kind);
    lemma_kind_step(t, 8, kind);
    lemma_kind_step(t, 9, kind);
}

proof fn lemma_kind_step(table: Seq<Resource>, i: int, kind: DescriptorKind)
    requires
        0 <= i < table.len(),
    ensures
        kind_count(table.take(0), kind) == 0,
        kind_count(table.take(i + 1), kind) == kind_count(table.take(i), kind) + if table[i].of_kind()
            == kind {
            1int
        } else {
            0int
        },
{
    assert(table.take(i + 1).drop_last() =~= table.take(i));
}

proof fn lemma_kind_count(table: Seq<Resource>, kind: DescriptorKind)
    ensures
        kind_count(table, kind) == table.filter(|r: Resource| r.of_kind() == kind).len(),
    decreases table.len(),
{
    reveal(Seq::filter);
    if table.len() > 0 {
        lemma_kind_count(table.drop_last(), kind);
    }
}

/// GLSL bindings of the path tracer.
pub const RENDERER_BINDINGS: &'static str = r#"
layout(local_size_x = 8, local_size_y = 8, local_size_z = 1) in;

layout(set = 0, binding = 0) uniform accelerationStructureEXT topLevelAS;
layout(set = 0, binding = 1, rgba32f) uniform image2D outImage;
layout(set = 0, binding = 2, std430) readonly buffer Vertices { vec4 vertices[]; };
layout(set = 0, binding = 3, std430) readonly buffer Normals { vec4 normals[]; };
layout(set = 0, binding = 4, std430) readonly buffer Triangles { uvec4 tris[]; };
layout(set = 0, binding = 5, std430) readonly buffer Materials { Material materials[]; };
layout(set = 0, binding = 6, std430) readonly buffer TriMaterials { uint tri_materials[]; };
layout(set = 0, binding = 7, std430) readonly buffer Lights { vec4 lights[]; };
layout(set = 0, binding = 8) uniform Params {
    uint width;
    uint height;
    uint aa_samples;
    uint max_depth;
    uint reflection_depth;
    uint refraction_depth;
    uint light_count;
    uint light_sampling;
    uint use_env;
    uint use_sky;
    uint env_width;
    uint env_height;
    uint tonemap;
    float exposure;
    float fov;
    uint _pad0;
    uint _pad1;
    vec4 irradiance_sh[9];
    vec4 camera_pos;
    vec4 camera_target;
    vec4 camera_up;
} params;
layout(set = 0, binding = 9) uniform sampler2D env_map;
"#;

/// GLSL body of the path tracer.
pub const RENDERER_BODY: &'static str = r#"
float halton(uint index, uint base) {
    float result = 0.0;
    float f = 1.0 / float(base);
    uint i = index;
    while (i > 0u) {
        result += float(i % base) * f;
        i /= base;
        f /= float(base);
    }
    return result;
}

void main() {
    uvec2 gid = gl_GlobalInvocationID.xy;
    if (gid.x >= params.width || gid.y >= params.height) {
        return;
    }

    float half_w = float(params.width) * 0.5;
    float half_h = float(params.height) * 0.5;
    float fov_scale = tan(params.fov * 0.5);
    float dir_z = -float(params.height) / (2.0 * fov_scale);

    vec3 cam_forward = normalize(params.camera_target.xyz - params.camera_pos.xyz);
    vec3 cam_right = normalize(cross(cam_forward, params.camera_up.xyz));
    vec3 cam_up = cross(cam_right, cam_forward);

    uint spp = max(params.aa_samples, 1u);
    uint sample_count = spp * spp;
    vec3 final_color = vec3(0.0);

    for (uint s = 0u; s < sample_count; ++s) {
        float jitter_x = halton(s, 2u);
        float jitter_y = halton(s, 3u);

        float dir_x = (float(gid.x) + jitter_x) - half_w;
        float dir_y = -(float(gid.y) + jitter_y) + half_h;
        vec3 ray_dir = normalize(cam_right * dir_x + cam_up * dir_y - cam_forward * dir_z);

        vec3 stack_origin[MAX_STACK];
        vec3 stack_dir[MAX_STACK];
        vec3 stack_weight[MAX_STACK];
        int stack_depth[MAX_STACK];
        int stack_size = 0;

        stack_origin[stack_size] = params.camera_pos.xyz;
        stack_dir[stack_size] = ray_dir;
        stack_weight[stack_size] = vec3(1.0);
        stack_depth[stack_size] = 0;
        stack_size++;

        vec3 sample_color = vec3(0.0);
        int max_depth = min(int(params.max_depth), MAX_STACK - 1);
        int max_reflect = min(int(params.reflection_depth), MAX_STACK - 1);
        int max_refract = min(int(params.refraction_depth), MAX_STACK - 1);

        while (stack_size > 0) {
            stack_size--;
            vec3 origin = stack_origin[stack_size];
            vec3 dir = stack_dir[stack_size];
            vec3 weight = stack_weight[stack_size];
            int depth = stack_depth[stack_size];

            uint prim_id;
            vec2 bary;
            float t;
            if (!trace_ray(origin, dir, 10000.0, prim_id, bary, t)) {
                sample_color += weight * sample_environment(dir);
                continue;
            }

            uvec4 tri = tris[prim_id];
            vec3 v0 = vertices[tri.x].xyz;
            vec3 v1 = vertices[tri.y].xyz;
            vec3 v2 = vertices[tri.z].xyz;
            vec3 n0 = normals[tri.x].xyz;
            vec3 n1 = normals[tri.y].xyz;
            vec3 n2 = normals[tri.z].xyz;
            float w = 1.0 - bary.x - bary.y;
            vec3 hit_pos = v0 * w + v1 * bary.x + v2 * bary.y;
            vec3 normal = normalize(n0 * w + n1 * bary.x + n2 * bary.y);
            if (dot(normal, dir) > 0.0) {
                normal = -normal;
            }

            uint mat_idx = tri_materials[prim_id];
            Material mat = materials[mat_idx];
            vec3 diffuse_color = mat.diffuse;

            if ((mat.flags & FLAG_CHECKER) != 0u) {
                diffuse_color = checker_color(hit_pos);
            }

            float diffuse_intensity = 0.0;
            float specular_intensity = 0.0;

            // GGX setup: roughness from Phong exponent, Fresnel F0 from ks.
            float alpha_ggx = phong_to_alpha(mat.specular_exponent);
            vec3 view = -dir;

            if (params.light_count > 0u) {
                if (params.light_sampling == 0u) {
                    for (uint li = 0u; li < params.light_count; ++li) {
                        vec3 light_pos = lights[li].xyz;
                        vec3 light_dir = normalize(light_pos - hit_pos);
                        float light_dist = length(light_pos - hit_pos);
                        vec3 shadow_origin = offset_origin(hit_pos, normal, light_dir);
                        float visibility = shadow_ray(shadow_origin, light_dir, light_dist - EPS);
                        if (visibility <= 0.0) {
                            continue;
                        }
                        diffuse_intensity += max(dot(light_dir, normal), 0.0);
                        specular_intensity += ggx_specular(normal, view, light_dir, alpha_ggx, mat.albedo.y);
                    }
                } else {
                    uint seed = gid.x * 1973u + gid.y * 9277u + s * 26699u + uint(depth) * 104729u;
                    uint li = min(uint(rand01(seed) * float(params.light_count)), params.light_count - 1u);
                    float light_weight = float(params.light_count);

                    vec3 light_pos = lights[li].xyz;
                    vec3 light_dir = normalize(light_pos - hit_pos);
                    float light_dist = length(light_pos - hit_pos);
                    vec3 shadow_origin = offset_origin(hit_pos, normal, light_dir);
                    float visibility = shadow_ray(shadow_origin, light_dir, light_dist - EPS);
                    if (visibility > 0.0) {
                        diffuse_intensity += max(dot(light_dir, normal), 0.0) * light_weight;
                        specular_intensity += ggx_specular(normal, view, light_dir, alpha_ggx, mat.albedo.y) * light_weight;
                    }
                }
            }

            // GGX already absorbs Fresnel F0 — no separate ks/spec_norm needed.
            // Add IBL diffuse (cosine-convolved env SH) so surfaces are not
            // pitch-black where direct lights don't reach.
            vec3 ibl = eval_env_irradiance(normal);
            vec3 local_color = diffuse_color * mat.albedo.x * (diffuse_intensity + ibl);
            local_color += vec3(1.0) * specular_intensity;
            sample_color += weight * local_color;

            if (depth >= max_depth) {
                continue;
            }

            if (depth > 3) {
                float p = clamp(max_component(weight), 0.05, 0.95);
                uint seed = gid.x * 1973u + gid.y * 9277u + s * 26699u + uint(depth) * 104729u;
                if (rand01(seed) > p) {
                    continue;
                }
                weight /= p;
            }

            // Schlick Fresnel rebalance for dielectrics with both kr and kt > 0:
            // F0 at normal incidence, → 1 at grazing (glass becomes mirror-like at edges).
            float kr_eff = mat.albedo.z;
            float kt_eff = mat.albedo.w;
            if (mat.albedo.z > 0.0 && mat.albedo.w > 0.0) {
                float cosi = max(-dot(dir, normal), 0.0);
                float f0_s = (mat.refractive_index - 1.0) / (mat.refractive_index + 1.0);
                float f0 = f0_s * f0_s;
                float fresnel = f0 + (1.0 - f0) * pow(1.0 - cosi, 5.0);
                float total = mat.albedo.z + mat.albedo.w;
                kr_eff = fresnel * total;
                kt_eff = (1.0 - fresnel) * total;
            }

            if (kr_eff > 0.0 && depth < max_reflect && stack_size < MAX_STACK) {
                vec3 refl_dir = reflect_dir(dir, normal);
                vec3 refl_origin = offset_origin(hit_pos, normal, refl_dir);
                stack_origin[stack_size] = refl_origin;
                stack_dir[stack_size] = refl_dir;
                stack_weight[stack_size] = weight * kr_eff;
                stack_depth[stack_size] = depth + 1;
                stack_size++;
            }

            if (kt_eff > 0.0 && depth < max_refract && stack_size < MAX_STACK) {
                vec3 refr_dir = refract_dir(dir, normal, mat.refractive_index, 1.0);
                vec3 refr_origin = offset_origin(hit_pos, normal, refr_dir);
                stack_origin[stack_size] = refr_origin;
                stack_dir[stack_size] = refr_dir;
                stack_weight[stack_size] = weight * kt_eff;
                stack_depth[stack_size] = depth + 1;
                stack_size++;
            }
        }

        final_color += sample_color;
    }

    final_color /= float(sample_count);
    imageStore(outImage, ivec2(gid), vec4(final_color, 1.0));
}
"#;

/// The whole source of the path tracer's shader.
pub fn shader_source() -> (source: String)
    ensures
        source@ == PREAMBLE@ + RENDERER_BINDINGS@ + HELPERS@ + RENDERER_BODY@,
{
    assemble(RENDERER_BINDINGS, RENDERER_BODY)
}

} // verus!
