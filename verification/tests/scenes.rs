use nanotracer::dispatch::{group_count, group_count_min_one};
use nanotracer::environment::{blank_pixels, store_pixel, EnvironmentMap};
use nanotracer::float_bits::{less, less_or_equal, Vec3, ONE, ZERO};
use nanotracer::gltf_loader::{GltfError, LoadedMesh, MeshBuilder};
use nanotracer::gpu_scene::{
    build_gpu_scene, checkerboard_plane_mesh, flatten_triangles, GpuMaterial, GpuSceneData,
    GpuTriangle, MATERIAL_FLAG_CHECKERBOARD,
};
use nanotracer::light_sampling::LightSampling;
use nanotracer::material::{
    checkerboard_material, glass, ivory, matte_blue, matte_green, matte_red, matte_white, mirror,
    red_rubber, Material,
};
use nanotracer::mesh::{cube_indices, pyramid_indices, sphere_indices, torus_indices, Mesh};
use nanotracer::scene::{face_axis, select_face, Light, Object, Scene};
use nanotracer::sh::ShCoeffs;

fn b(x: f32) -> u32 {
    x.to_bits()
}

fn v(x: f32, y: f32, z: f32) -> Vec3 {
    Vec3::new(b(x), b(y), b(z))
}

fn matte() -> Material {
    checkerboard_material(v(0.5, 0.5, 0.5))
}

fn triangle(offset: f32) -> Mesh {
    Mesh::with_normals(
        vec![v(offset, 0.0, 0.0), v(offset, 1.0, 0.0), v(offset, 0.0, 1.0)],
        vec![[0, 1, 2]],
        vec![],
    )
}

#[test]
fn has_env_light_detects_variant() {
    let mut s = Scene::new();
    assert!(!s.has_env_light());
    s.add_light(Light::point(v(0.0, 0.0, 0.0)));
    assert!(!s.has_env_light());
    s.add_light(Light::Env { intensity: b(1.0) });
    assert!(s.has_env_light());
}

#[test]
fn a_scene_flattens_object_by_object() {
    let mut s = Scene::new();
    s.add_object(Object::mesh(triangle(1.0), matte()));
    s.add_object(Object::sphere(v(0.0, 0.0, 0.0), b(2.0), matte()));
    s.add_light(Light::Env { intensity: b(1.0) });
    s.add_light(Light::point(v(1.0, 2.0, 3.0)));
    let sideways = vec![v(1.0, 0.0, 0.0); 3];
    let sphere_normals = vec![v(0.0, 0.0, 1.0); 3];
    let faces = [sideways, sphere_normals];
    let gpu = build_gpu_scene(&s, &[triangle(9.0)], &faces);
    assert_eq!(gpu.vertices.len(), 10);
    assert_eq!(gpu.vertices[3], [b(9.0), b(0.0), b(0.0), ONE]);
    assert_eq!(gpu.triangles[1], GpuTriangle { v0: 3, v1: 4, v2: 5, _pad: 0 });
    assert_eq!(gpu.triangles[2], GpuTriangle { v0: 6, v1: 7, v2: 8, _pad: 0 });
    assert_eq!(gpu.tri_materials, vec![0, 1, 2, 2]);
    assert_eq!(gpu.materials.len(), 3);
    assert_eq!(gpu.materials[1].flags, 0);
    assert_eq!(gpu.materials[2].flags, MATERIAL_FLAG_CHECKERBOARD);
    // Meshes without normals take their face normals.
    assert_eq!(&gpu.normals[..3], &[[ONE, ZERO, ZERO, ZERO]; 3]);
    assert_eq!(&gpu.normals[3..6], &[[ZERO, ZERO, ONE, ZERO]; 3]);
    assert_eq!(&gpu.normals[6..], &[[ZERO, ONE, ZERO, ZERO]; 4]);
    assert_eq!(gpu.lights, vec![[b(1.0), b(2.0), b(3.0), ONE]]);
    let flat = flatten_triangles(&gpu.triangles);
    assert_eq!(&flat[..6], &[0, 1, 2, 3, 4, 5]);
}

#[test]
fn own_normals_come_before_face_normals() {
    let corners = vec![v(0.0, 0.0, 0.0), v(1.0, 0.0, 0.0), v(0.0, 1.0, 0.0)];
    let own = vec![v(0.0, 1.0, 0.0); 3];
    let bare = Mesh::with_normals(corners.clone(), vec![[0, 1, 2]], vec![]);
    let shaded = Mesh::with_normals(corners, vec![[0, 1, 2]], own);
    let mut data = GpuSceneData::empty();
    data.append_mesh(&bare, &[v(0.0, 0.0, 1.0); 3], 4);
    data.append_mesh(&shaded, &[], 5);
    assert_eq!(&data.normals[..3], &[[ZERO, ZERO, ONE, ZERO]; 3]);
    assert_eq!(&data.normals[3..], &[[ZERO, ONE, ZERO, ZERO]; 3]);
    assert_eq!(data.triangles[1], GpuTriangle { v0: 3, v1: 4, v2: 5, _pad: 0 });
    assert_eq!(data.tri_materials, vec![4, 5]);
}

#[test]
fn device_records_list_their_words() {
    let tri = GpuTriangle { v0: 7, v1: 8, v2: 9, _pad: 0 };
    assert_eq!(tri.words(), [7, 8, 9, 0]);
    let m = GpuMaterial::from_material(glass(), MATERIAL_FLAG_CHECKERBOARD);
    assert_eq!(
        m.words(),
        [
            b(0.95),
            b(0.97),
            b(1.0),
            b(300.0),
            b(0.0),
            b(0.04),
            b(0.10),
            b(0.85),
            b(1.5),
            1,
            0,
            0,
        ]
    );
}

#[test]
fn stock_materials_have_their_values() {
    let m = glass();
    assert_eq!(m.refractive_index, b(1.5));
    assert_eq!(m.albedo, [b(0.0), b(0.04), b(0.10), b(0.85)]);
    assert_eq!(m.diffuse_color, v(0.95, 0.97, 1.0));
    assert_eq!(m.specular_exponent, b(300.0));
    assert_eq!(ivory().albedo, [b(0.85), b(0.04), b(0.10), b(0.0)]);
    assert_eq!(ivory().diffuse_color, v(0.85, 0.85, 0.75));
    assert_eq!(red_rubber().albedo[0], b(0.90));
    assert_eq!(red_rubber().diffuse_color, v(0.65, 0.20, 0.20));
    assert_eq!(mirror().albedo, [b(0.0), b(0.04), b(0.96), b(0.0)]);
    assert_eq!(mirror().specular_exponent, b(1500.0));
    let colors = [
        (matte_white(), v(0.85, 0.85, 0.85)),
        (matte_red(), v(0.85, 0.20, 0.20)),
        (matte_blue(), v(0.20, 0.30, 0.85)),
        (matte_green(), v(0.20, 0.85, 0.30)),
    ];
    for (m, color) in colors {
        assert_eq!(m.diffuse_color, color);
        assert_eq!(m.albedo, [b(0.95), b(0.04), b(0.0), b(0.0)]);
        assert_eq!(m.specular_exponent, b(20.0));
    }
}

#[test]
fn the_checkerboard_can_be_left_out() {
    let mut s = Scene::default();
    s.checkerboard_enabled = false;
    let gpu = build_gpu_scene(&s, &[], &[]);
    assert!(gpu.vertices.is_empty() && gpu.materials.is_empty());
    let plane = checkerboard_plane_mesh();
    assert_eq!(plane.vertices[0], v(-10.0, -4.0, -30.0));
    assert_eq!(plane.vertices[2], v(10.0, -4.0, -10.0));
}

#[test]
fn lights_stand_at_their_anchor() {
    let p = v(1.0, 2.0, 3.0);
    let c = v(1.0, 1.0, 1.0);
    assert_eq!(Light::point(p).position(), Some(p));
    assert_eq!(
        Light::Sphere { center: p, radius: b(1.0), color: c, intensity: b(1.0) }.position(),
        Some(p)
    );
    assert_eq!(Light::Env { intensity: b(1.0) }.position(), None);
}

#[test]
fn box_faces_are_picked_by_area() {
    let cdf = [b(0.0), b(0.25), b(0.5), b(0.625), b(0.75), b(0.875), b(1.0)];
    assert_eq!(select_face(b(0.0), &cdf), 0);
    assert_eq!(select_face(b(0.25), &cdf), 1);
    assert_eq!(select_face(b(0.7), &cdf), 3);
    assert_eq!(select_face(b(1.0), &cdf), 5);
    assert_eq!(face_axis(0), (0, true));
    assert_eq!(face_axis(3), (1, false));
    assert_eq!(face_axis(5), (2, false));
}

#[test]
fn environments_upload_row_by_row() {
    let mut pixels = blank_pixels(3, 2);
    assert_eq!(pixels.len(), 6);
    store_pixel(&mut pixels, 3, 2, 1, v(1.0, 2.0, 3.0));
    store_pixel(&mut pixels, 3, 0, 7, v(9.0, 9.0, 9.0));
    assert_eq!(pixels[5], v(1.0, 2.0, 3.0));
    assert_eq!(pixels.iter().filter(|p| **p != v(0.0, 0.0, 0.0)).count(), 1);
    let map = EnvironmentMap::from_pixels(pixels, 3, 2, b(0.5));
    assert_eq!((map.width(), map.height()), (3, 2));
    let gpu = map.gpu_data();
    assert_eq!(gpu.data[5], [b(1.0), b(2.0), b(3.0), ONE]);
    assert!(!gpu.use_sky);
    assert_eq!(gpu.exposure, b(0.5));
}

#[test]
fn an_empty_map_still_fills_its_texture() {
    let gpu = EnvironmentMap::from_pixels(vec![], 0, 0, b(2.0)).gpu_data();
    assert_eq!((gpu.width, gpu.height), (1, 1));
    assert_eq!(gpu.data, vec![[ZERO, ZERO, ZERO, ONE]]);
    assert!(!gpu.use_sky);
    let gpu = EnvironmentMap::from_pixels(vec![], 0, 3, b(2.0)).gpu_data();
    assert_eq!((gpu.width, gpu.height), (1, 3));
    assert_eq!(gpu.data.len(), 3);
}

#[test]
fn the_sky_is_one_black_texel() {
    let gpu = EnvironmentMap::procedural_sky().gpu_data();
    assert_eq!(gpu.data, vec![[ZERO, ZERO, ZERO, ONE]]);
    assert_eq!((gpu.width, gpu.height, gpu.exposure), (1, 1, ONE));
    assert!(gpu.use_sky);
}

#[test]
fn loaded_primitives_join_into_one_mesh() {
    let mut builder = MeshBuilder::new();
    let tri = [v(0.0, 0.0, 0.0), v(1.0, 0.0, 0.0), v(0.0, 1.0, 0.0)];
    let up = vec![v(0.0, 0.0, 1.0); 3];
    builder.add_primitive(&tri, &Some(up.clone()), &Some(vec![0, 1, 2, 1]));
    builder.add_primitive(&tri, &Some(up), &None);
    match builder.finish() {
        Ok(LoadedMesh::Complete(mesh)) => {
            assert_eq!(mesh.vertices.len(), 6);
            assert_eq!(mesh.indices, vec![[0, 1, 2], [3, 4, 5]]);
            assert_eq!(mesh.normals.len(), 6);
        }
        _ => panic!("all primitives had normals"),
    }
}

#[test]
fn a_primitive_without_normals_asks_for_them() {
    let mut builder = MeshBuilder::new();
    let tri = [v(0.0, 0.0, 0.0), v(1.0, 0.0, 0.0), v(0.0, 1.0, 0.0)];
    builder.add_primitive(&tri, &None, &None);
    assert!(matches!(
        builder.finish(),
        Ok(LoadedMesh::NeedsNormals { vertices: _, indices: _ })
    ));
    assert!(matches!(MeshBuilder::new().finish(), Err(GltfError::NoTriangles)));
}

#[test]
fn stock_meshes_close_up() {
    assert_eq!(cube_indices().len(), 12);
    assert_eq!(pyramid_indices().len(), 6);
    let torus = torus_indices(3, 4);
    assert_eq!(torus.len(), 24);
    assert!(torus.iter().all(|t| t.iter().all(|i| *i < 12)));
    assert!(torus_indices(0, 4).is_empty());
    let sphere = sphere_indices(24, 16);
    assert_eq!(sphere.len(), 24 * 16 * 2);
    assert_eq!(sphere[0], [0, 25, 26]);
    assert_eq!(sphere[1], [0, 26, 1]);
}

#[test]
fn coefficients_are_planar_by_channel() {
    let mut sh = ShCoeffs::new(3);
    assert_eq!(sh.coeffs.len(), 16);
    for (i, c) in sh.coeffs.iter_mut().enumerate() {
        *c = [i as u32, 100 + i as u32, 200 + i as u32];
    }
    assert_eq!(sh.dc(), [0, 100, 200]);
    let rest = sh.rest_planar();
    assert_eq!(rest.len(), 45);
    assert_eq!((rest[0], rest[14], rest[15], rest[44]), (1, 15, 101, 215));
    let low = ShCoeffs::new(0);
    assert_eq!(low.rest_planar(), vec![0; 45]);
}

#[test]
fn floats_compare_by_their_bits() {
    let xs = [f32::NEG_INFINITY, -2.5, -0.0, 0.0, 1.0e-40, 1.0, f32::INFINITY, f32::NAN];
    for a in xs {
        for c in xs {
            assert_eq!(less(b(a), b(c)), a < c, "{a} < {c}");
            assert_eq!(less_or_equal(b(a), b(c)), a <= c, "{a} <= {c}");
        }
    }
}

#[test]
fn groups_round_up() {
    assert_eq!(group_count(0, 256), 0);
    assert_eq!(group_count(256, 256), 1);
    assert_eq!(group_count(257, 256), 2);
    assert_eq!(group_count(u32::MAX, 256), 1 << 24);
    assert_eq!(group_count_min_one(0, 64), 1);
    assert_eq!(group_count_min_one(65, 64), 2);
}

#[test]
fn sampling_strategies_have_codes() {
    assert_eq!(LightSampling::All.as_u32(), 0);
    assert_eq!(LightSampling::One.as_u32(), 1);
}
