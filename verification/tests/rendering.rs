use nanotracer::adam::AdamConfig;
use nanotracer::environment::EnvironmentMap;
use nanotracer::float_bits::{Vec3, ONE, ZERO};
use nanotracer::light_sampling::LightSampling;
use nanotracer::loss::{
    blur_taps, loss_terms, merge_channels, reflect_index, split_channels, LossTerms,
};
use nanotracer::pipelines::{
    adam_params, composite_params, constraint_params, count_params, image_bytes, projected_bytes,
    step_all, tonemap_params, Attribute, Binding, Pass,
};
use nanotracer::raster::{CameraUniform, ProjectedGrad, ProjectedSplat};
use nanotracer::reference::{pick_up, view_config, BakeConfig};
use nanotracer::renderer::{
    bindings, default_environment, frame_bytes, frame_groups, gpu_params, plan_render, pool_count,
    shader_source, strip_alpha, DescriptorKind, RenderConfig, Resource, CAMERA_WORD,
    IRRADIANCE_WORD,
};
use nanotracer::scene::{Light, Scene};
use nanotracer::tile_binner::TilingParams;
use nanotracer::vk_runtime::{
    accel_plan, find_memory_type, find_queue_family, pack_24_8, pick_device, spirv_code_size,
    supports_extensions, DeviceInfo,
};

fn b(x: f32) -> u32 {
    x.to_bits()
}

fn v(x: f32, y: f32, z: f32) -> Vec3 {
    Vec3::new(b(x), b(y), b(z))
}

fn base_config() -> RenderConfig {
    RenderConfig {
        width: 128,
        height: 96,
        fov: b(1.05),
        camera_pos: v(0.0, 0.0, 0.0),
        camera_target: v(0.0, 0.0, -10.0),
        camera_up: v(0.0, 1.0, 0.0),
        aa_samples: 1,
        max_depth: 4,
        reflection_depth: 2,
        refraction_depth: 2,
        tonemap: true,
        light_sampling: LightSampling::All,
    }
}

fn coefficients() -> [[u32; 4]; 9] {
    let mut c = [[0u32; 4]; 9];
    for (i, q) in c.iter_mut().enumerate() {
        for (j, w) in q.iter_mut().enumerate() {
            *w = (i * 4 + j) as u32 + 500;
        }
    }
    c
}

#[test]
fn parameters_follow_the_configuration() {
    let env = default_environment();
    let mut config = base_config();
    config.max_depth = -3;
    config.reflection_depth = -1;
    let p = gpu_params(&config, 3, &env, &coefficients());
    assert_eq!((p.max_depth, p.reflection_depth, p.refraction_depth), (1, 0, 2));
    assert_eq!((p.use_env, p.use_sky, p.tonemap, p.light_count), (0, 1, 1, 3));
    let words = p.words();
    assert_eq!(words.len(), 68);
    assert_eq!(words[0], 128);
    assert_eq!(words[14], b(1.05));
    assert_eq!(words[IRRADIANCE_WORD], 500);
    assert_eq!(words[IRRADIANCE_WORD + 35], 535);
    assert_eq!(words[CAMERA_WORD + 6], b(-10.0));
    assert_eq!(words[CAMERA_WORD + 9], ONE);
}

#[test]
fn a_moved_camera_changes_the_parameter_words() {
    let env = default_environment();
    let base = gpu_params(&base_config(), 0, &env, &coefficients()).words();
    let mut shifted = base_config();
    shifted.camera_pos = v(3.0, 0.0, 0.0);
    let moved = gpu_params(&shifted, 0, &env, &coefficients()).words();
    assert_ne!(base, moved);
    let again = gpu_params(&base_config(), 0, &env, &coefficients()).words();
    assert_eq!(base, again);
}

#[test]
fn a_frame_plan_covers_scene_and_image() {
    let mut scene = Scene::new();
    scene.add_light(Light::point(v(1.0, 2.0, 3.0)));
    let mut config = base_config();
    config.width = 129;
    let plan = plan_render(&scene, &[], &[], &config, &coefficients());
    assert_eq!(plan.groups, (17, 12));
    assert_eq!(plan.output_bytes, 129 * 96 * 16);
    assert_eq!(plan.indices, vec![0, 1, 2, 0, 2, 3]);
    assert_eq!(plan.params.light_count, 1);
    assert!(plan.env.use_sky);
    assert_eq!(plan.params.irradiance_sh, [[0; 4]; 9]);

    let pixels = vec![v(1.0, 0.0, 0.0); 2];
    scene.set_environment(EnvironmentMap::from_pixels(pixels, 2, 1, b(2.0)));
    let lit = plan_render(&scene, &[], &[], &config, &coefficients());
    assert_eq!((lit.params.use_env, lit.params.use_sky), (1, 0));
    assert_eq!((lit.params.env_width, lit.params.exposure), (2, b(2.0)));
    assert_eq!(lit.env.data.len(), 2);
    assert_eq!(lit.params.irradiance_sh, coefficients());
}

#[test]
fn frames_come_back_without_alpha() {
    assert_eq!(frame_groups(8, 9), (1, 2));
    assert_eq!(frame_bytes(2, 3), 96);
    let pixels = strip_alpha(&[1, 2, 3, 4, 5, 6, 7, 8]);
    assert_eq!(pixels, vec![Vec3::new(1, 2, 3), Vec3::new(5, 6, 7)]);
}

#[test]
fn descriptors_match_their_pool() {
    let table = bindings();
    assert_eq!(table.len(), 10);
    assert_eq!(table[5], Resource::Materials);
    assert_eq!(table[6], Resource::TriMaterials);
    assert_eq!(pool_count(DescriptorKind::AccelerationStructure), 1);
    assert_eq!(pool_count(DescriptorKind::StorageImage), 1);
    assert_eq!(pool_count(DescriptorKind::StorageBuffer), 6);
    assert_eq!(pool_count(DescriptorKind::UniformBuffer), 1);
    assert_eq!(pool_count(DescriptorKind::CombinedImageSampler), 1);
}

#[test]
fn the_shader_is_put_together_in_order() {
    let source = shader_source();
    assert!(source.starts_with("#version 460"));
    let bindings = source.find("uniform accelerationStructureEXT").unwrap();
    let helpers = source.find("vec3 eval_env_irradiance").unwrap();
    let body = source.find("void main()").unwrap();
    assert!(bindings < helpers && helpers < body);
    assert!(source.contains("params.camera_pos.xyz"));
}

#[test]
fn reference_views_look_at_the_target() {
    let cfg = BakeConfig::default();
    assert_eq!((cfg.views, cfg.width, cfg.height), (50, 512, 384));
    assert_eq!(cfg.orbit_radius, b(35.0));
    assert_eq!(cfg.target, v(0.0, 0.0, -20.0));
    assert_eq!(cfg.fov_y, b(1.05));
    let up = pick_up(b(0.5));
    assert_eq!(up, v(0.0, 1.0, 0.0));
    assert_eq!(pick_up(b(0.95)), v(0.0, 1.0, 0.0));
    assert_eq!(pick_up(b(0.96)), v(1.0, 0.0, 0.0));
    let view = view_config(&cfg, v(1.0, 2.0, 3.0), up);
    assert_eq!(view.camera_target, cfg.target);
    assert_eq!((view.reflection_depth, view.refraction_depth, view.max_depth), (4, 8, 16));
}

#[test]
fn indices_reflect_at_both_ends() {
    let got: Vec<usize> = (-5..9).map(|i| reflect_index(i, 4)).collect();
    assert_eq!(got, vec![1, 2, 3, 2, 1, 0, 1, 2, 3, 2, 1, 0, 1, 2]);
    assert_eq!(reflect_index(-7, 1), 0);
    assert_eq!(reflect_index(-1, 2), 1);
}

#[test]
fn blur_windows_stay_inside_the_line() {
    let taps = blur_taps(3);
    assert_eq!(taps.len(), 33);
    assert_eq!(taps[..11], [1, 0, 1, 2, 1, 0, 1, 2, 1, 0, 1]);
    assert!(taps.iter().all(|t| *t < 3));
    // Seen from the other end the windows are mirrored.
    for x in 0..3 {
        for k in 0..11 {
            assert_eq!(taps[(2 - x) * 11 + (10 - k)], 2 - taps[x * 11 + k]);
        }
    }
    assert!(blur_taps(0).is_empty());
}

#[test]
fn the_weight_selects_the_terms() {
    assert_eq!(loss_terms(b(0.0)), LossTerms::MseOnly);
    assert_eq!(loss_terms(b(-0.0)), LossTerms::MseOnly);
    assert_eq!(loss_terms(b(-3.0)), LossTerms::MseOnly);
    assert_eq!(loss_terms(b(1.0)), LossTerms::SsimOnly);
    assert_eq!(loss_terms(b(7.0)), LossTerms::SsimOnly);
    assert_eq!(loss_terms(b(0.2)), LossTerms::Mixed(b(0.2)));
    assert_eq!(loss_terms(b(f32::NAN)), LossTerms::Mixed(b(f32::NAN)));
}

#[test]
fn channels_split_and_join() {
    let image = vec![Vec3::new(1, 2, 3), Vec3::new(4, 5, 6)];
    let planes = split_channels(&image);
    assert_eq!((planes.x.clone(), planes.z.clone()), (vec![1, 4], vec![3, 6]));
    assert_eq!(merge_channels(&planes), image);
}

#[test]
fn passes_bind_what_they_use() {
    assert_eq!(
        Pass::Scatter.layout(),
        vec![
            Binding::ReadOnly,
            Binding::ReadOnly,
            Binding::ReadWrite,
            Binding::ReadWrite,
            Binding::ReadOnly,
            Binding::ReadOnly,
            Binding::Uniform
        ]
    );
    assert_eq!(Pass::ProjectBackward.layout().len(), 14);
    assert_eq!(Pass::Tonemap.layout()[1], Binding::WriteTexture);
    assert_eq!(Pass::Predicate.groups(0), 0);
    assert_eq!(Pass::Predicate.groups(257), 2);
    assert_eq!(Pass::AdamStep.groups(0), 1);
    assert_eq!(Pass::Project.groups(65), 2);
}

#[test]
fn one_step_covers_every_attribute() {
    let pos = AdamConfig::default();
    let attr = AdamConfig { lr: b(0.01), ..pos };
    let steps = step_all(10, &pos, &attr);
    let lanes: Vec<u32> = steps.iter().map(|s| s.lanes).collect();
    assert_eq!(lanes, vec![40, 40, 40, 10, 40, 480]);
    assert_eq!(steps[0].attribute, Attribute::Positions);
    assert_eq!(steps[0].config, pos);
    assert_eq!(steps[5].config, attr);
    assert_eq!(adam_params(&pos, 7, 8, 40)[3..], [b(1e-15), 7, 8, 40, 0]);
    assert_eq!(constraint_params(5, 1, 2, 3), [5, 0, 0, 0, 1, 2, 3, 0]);
    assert_eq!(count_params(5), [5, 0, 0, 0]);
}

#[test]
fn image_passes_cover_their_image() {
    let tiling = TilingParams { width: 100, height: 33, tile_size: 16, depth_max: ZERO };
    assert_eq!(composite_params(&tiling), ([100, 33, 16, 7], (7, 3)));
    assert_eq!(tonemap_params(17, 16), ([17, 16, 0, 0], (2, 1)));
    assert_eq!(image_bytes(3, 5), 240);
    assert_eq!(projected_bytes(0), 48);
    assert_eq!(projected_bytes(3), 144);
}

fn device(flags: &[u32], extensions: &[&str]) -> DeviceInfo {
    DeviceInfo {
        queue_flags: flags.to_vec(),
        extensions: extensions.iter().map(|e| e.to_string()).collect(),
    }
}

#[test]
fn the_first_suitable_device_is_picked() {
    let required = ["VK_KHR_ray_query".to_string()];
    let graphics = ash::vk::QueueFlags::GRAPHICS.as_raw();
    let compute = ash::vk::QueueFlags::COMPUTE.as_raw();
    let devices = [
        device(&[graphics], &["VK_KHR_ray_query"]),
        device(&[compute], &["VK_KHR_swapchain"]),
        device(&[graphics, graphics | compute], &["VK_KHR_swapchain", "VK_KHR_ray_query"]),
    ];
    assert_eq!(pick_device(&devices, &required), Some((2, 1)));
    assert_eq!(pick_device(&devices[..2], &required), None);
    assert_eq!(find_queue_family(&vec![graphics, compute]), Some(1));
    assert_eq!(find_queue_family(&vec![graphics]), None);
    assert!(supports_extensions(&devices[2].extensions, &required));
    assert!(!supports_extensions(&devices[1].extensions, &required));
    assert!(supports_extensions(&devices[1].extensions, &[]));
}

#[test]
fn memory_types_need_bit_and_properties() {
    let local = ash::vk::MemoryPropertyFlags::DEVICE_LOCAL.as_raw();
    let visible = ash::vk::MemoryPropertyFlags::HOST_VISIBLE.as_raw();
    let coherent = ash::vk::MemoryPropertyFlags::HOST_COHERENT.as_raw();
    let types = [local, visible, visible | coherent];
    assert_eq!(find_memory_type(&types, 0b111, visible | coherent), Some(2));
    assert_eq!(find_memory_type(&types, 0b111, visible), Some(1));
    assert_eq!(find_memory_type(&types, 0b100, visible), Some(2));
    assert_eq!(find_memory_type(&types, 0b011, visible | coherent), None);
    assert_eq!(find_memory_type(&types, 0b111, 0), Some(0));
}

#[test]
fn acceleration_structures_name_their_vertices() {
    let plan = accel_plan(10, 4, 1);
    assert_eq!((plan.vertex_stride, plan.max_vertex, plan.primitive_count), (16, 9, 4));
    assert_eq!(plan.custom_index_and_mask, 0xff00_0000);
    assert_eq!(plan.record_offset_and_flags, 0x0100_0000);
    assert_eq!(accel_plan(0, 0, 0).max_vertex, 0);
    assert_eq!(pack_24_8(0x12_3456, 0x78), 0x7812_3456);
    assert_eq!(spirv_code_size(5), 20);
}

#[test]
fn rasteriser_records_keep_their_layout() {
    let words: [u32; 12] = [1, 2, 3, 4, 5, 6, 7, 8, 9, 10, 11, 12];
    let splat = ProjectedSplat::from_words(&words);
    assert_eq!((splat.depth, splat.visible, splat.opacity), (3, 8, 12));
    assert_eq!(splat.words(), words);
    assert_eq!(ProjectedSplat::default().words(), [0; 12]);
    let grad = ProjectedGrad::from_words(&words);
    assert_eq!((grad.dmean_opacity[2], grad.dconic[0], grad.dcolor[2]), (3, 5, 11));
    let camera = CameraUniform {
        view: [[1, 2, 3, 4], [5, 6, 7, 8], [9, 10, 11, 12], [13, 14, 15, 16]],
        cam_pos: [17, 18, 19],
        near: 20,
        focal: 21,
        width: 22,
        height: 23,
        n_splats: 24,
    };
    let block: Vec<u32> = (1..25).collect();
    assert_eq!(camera.words().to_vec(), block);
}
