//! Flattening of a scene into the buffers that the ray tracer binds.
use vstd::prelude::*;

use crate::float_bits::{Vec3, ONE, ZERO};
use crate::material::{checkerboard_material, Material};
use crate::mesh::Mesh;
#[allow(unused_imports)]
use crate::mesh::{indices_below, MeshModel};
use crate::scene::{Geometry, Light, Scene};

verus! {

/// Flag of a material whose colour comes from the checkerboard pattern.
pub const MATERIAL_FLAG_CHECKERBOARD: u32 = 1;

/// A material as the shader reads it.
#[derive(Clone, Copy, Debug)]
pub struct GpuMaterial {
    pub diffuse: [u32; 3],
    pub specular_exponent: u32,
    pub albedo: [u32; 4],
    pub refractive_index: u32,
    pub flags: u32,
    pub _pad0: u32,
    pub _pad1: u32,
}

/// A triangle as the shader reads it.
#[derive(Clone, Copy, Debug, PartialEq, Eq, Structural)]
pub struct GpuTriangle {
    pub v0: u32,
    pub v1: u32,
    pub v2: u32,
    pub _pad: u32,
}

/// The flattened scene. Triangle areas and their cumulative distribution are
/// left empty for the caller to fill in.
pub struct GpuSceneData {
    pub vertices: Vec<[u32; 4]>,
    pub normals: Vec<[u32; 4]>,
    pub triangles: Vec<GpuTriangle>,
    pub tri_materials: Vec<u32>,
    pub tri_cdf: Vec<u32>,
    pub tri_areas: Vec<u32>,
    pub materials: Vec<GpuMaterial>,
    pub lights: Vec<[u32; 4]>,
}

/// The shader's form of a material.
pub open spec fn shader_material(material: Material, flags: u32) -> GpuMaterial {
    GpuMaterial {
        diffuse: [
            material.diffuse_color.x,
            material.diffuse_color.y,
            material.diffuse_color.z,
        ],
        specular_exponent: material.specular_exponent,
        albedo: material.albedo,
        refractive_index: material.refractive_index,
        flags,
        _pad0: 0,
        _pad1: 0,
    }
}

impl GpuMaterial {
    pub fn from_material(material: Material, flags: u32) -> (gpu: Self)
        ensures
            gpu == shader_material(material, flags),
    {
        GpuMaterial {
            diffuse: [
                material.diffuse_color.x,
                material.diffuse_color.y,
                material.diffuse_color.z,
            ],
            specular_exponent: material.specular_exponent,
            albedo: material.albedo,
            refractive_index: material.refractive_index,
            flags,
            _pad0: 0,
            _pad1: 0,
        }
    }

    /// The words of the shader's record: colour and exponent, weights, and then
    /// index, flags and padding.
    pub open spec fn record(self) -> Seq<u32> {
        self.diffuse@ + seq![self.specular_exponent] + self.albedo@ + seq![
            self.refractive_index,
            self.flags,
            self._pad0,
            self._pad1,
        ]
    }

    /// The words of the shader's record.
    pub fn words(&self) -> (words: [u32; 12])
        ensures
            words@ == self.record(),
    {
        let words: [u32; 12] = [
            self.diffuse[0],
            self.diffuse[1],
            self.diffuse[2],
            self.specular_exponent,
            self.albedo[0],
            self.albedo[1],
            self.albedo[2],
            self.albedo[3],
            self.refractive_index,
            self.flags,
            self._pad0,
            self._pad1,
        ];
        assert(words@ =~= self.record());
        words
    }
}

impl GpuTriangle {
    /// The words of the shader's record: the three corners and padding.
    pub open spec fn record(self) -> Seq<u32> {
        seq![self.v0, self.v1, self.v2, self._pad]
    }

    /// The words of the shader's record.
    pub fn words(&self) -> (words: [u32; 4])
        ensures
            words@ == seq![self.v0, self.v1, self.v2, self._pad],
            words@ == self.record(),
    {
        let words: [u32; 4] = [self.v0, self.v1, self.v2, self._pad];
        assert(words@ =~= seq![self.v0, self.v1, self.v2, self._pad]);
        words
    }
}

/// A vector with a fourth component.
pub open spec fn vec4(v: Vec3, w: u32) -> [u32; 4] {
    [v.x, v.y, v.z, w]
}

/// Mesh vertices as points.
pub open spec fn mesh_points(m: MeshModel) -> Seq<[u32; 4]> {
    m.vertices.map_values(|v: Vec3| vec4(v, ONE))
}

/// Mesh normals as directions.
pub open spec fn mesh_directions(m: MeshModel) -> Seq<[u32; 4]> {
    m.normals.map_values(|v: Vec3| vec4(v, ZERO))
}

/// Mesh triangles over a vertex buffer in which the mesh starts at `base`.
pub open spec fn mesh_triangles(m: MeshModel, base: int) -> Seq<GpuTriangle> {
    m.indices.map_values(
        |t: [u32; 3]|
            GpuTriangle {
                v0: (base + t[0]) as u32,
                v1: (base + t[1]) as u32,
                v2: (base + t[2]) as u32,
                _pad: 0,
            },
    )
}

/// `n` copies of a material index.
pub open spec fn repeated(index: u32, n: nat) -> Seq<u32> {
    Seq::new(n, |i: int| index)
}

/// Number of vertices of the first `k` meshes.
pub open spec fn vertex_total(meshes: Seq<MeshModel>, k: int) -> int
    decreases k,
{
    if k <= 0 {
        0
    } else {
        vertex_total(meshes, k - 1) + meshes[k - 1].vertices.len()
    }
}

/// The points of the first `k` meshes.
pub open spec fn all_points(meshes: Seq<MeshModel>, k: int) -> Seq<[u32; 4]>
    decreases k,
{
    if k <= 0 {
        Seq::empty()
    } else {
        all_points(meshes, k - 1) + mesh_points(meshes[k - 1])
    }
}

/// The normals of the first `k` meshes.
pub open spec fn all_directions(meshes: Seq<MeshModel>, k: int) -> Seq<[u32; 4]>
    decreases k,
{
    if k <= 0 {
        Seq::empty()
    } else {
        all_directions(meshes, k - 1) + mesh_directions(meshes[k - 1])
    }
}

/// The triangles of the first `k` meshes, each over its own vertices.
pub open spec fn all_triangles(meshes: Seq<MeshModel>, k: int) -> Seq<GpuTriangle>
    decreases k,
{
    if k <= 0 {
        Seq::empty()
    } else {
        all_triangles(meshes, k - 1) + mesh_triangles(
            meshes[k - 1],
            vertex_total(meshes, k - 1),
        )
    }
}

/// The material index of every triangle of the first `k` meshes: mesh `i` has
/// material `i`.
pub open spec fn all_tri_materials(meshes: Seq<MeshModel>, k: int) -> Seq<u32>
    decreases k,
{
    if k <= 0 {
        Seq::empty()
    } else {
        all_tri_materials(meshes, k - 1) + repeated((k - 1) as u32, meshes[k - 1].indices.len())
    }
}

impl GpuSceneData {
    /// The geometry is that of the first `k` meshes.
    pub open spec fn holds_meshes(self, meshes: Seq<MeshModel>, k: int) -> bool {
        &&& self.vertices@ == all_points(meshes, k)
        &&& self.normals@ == all_directions(meshes, k)
        &&& self.triangles@ == all_triangles(meshes, k)
        &&& self.tri_materials@ == all_tri_materials(meshes, k)
    }

    pub fn empty() -> (data: Self)
        ensures
            data.vertices.len() == 0,
            data.normals.len() == 0,
            data.triangles.len() == 0,
            data.tri_materials.len() == 0,
            data.tri_cdf.len() == 0,
            data.tri_areas.len() == 0,
            data.materials.len() == 0,
            data.lights.len() == 0,
    {
        GpuSceneData {
            vertices: Vec::new(),
            normals: Vec::new(),
            triangles: Vec::new(),
            tri_materials: Vec::new(),
            tri_cdf: Vec::new(),
            tri_areas: Vec::new(),
            materials: Vec::new(),
            lights: Vec::new(),
        }
    }

    /// Appends a mesh whose triangles have the material `material_index`.
    /// Where the mesh lacks a normal per vertex, `face_normals` holds the face
    /// normal at each vertex; otherwise it is not read.
    pub fn append_mesh(&mut self, mesh: &Mesh, face_normals: &[Vec3], material_index: u32)
        requires
            mesh@.wf(),
            mesh@.shaded(face_normals@).has_normals(),
            old(self).vertices.len() + mesh.vertices.len() <= u32::MAX,
        ensures
            final(self).vertices@ == old(self).vertices@ + mesh_points(mesh@),
            final(self).normals@ == old(self).normals@ + mesh_directions(
                mesh@.shaded(face_normals@),
            ),
            final(self).triangles@ == old(self).triangles@ + mesh_triangles(
                mesh@,
                old(self).vertices.len() as int,
            ),
            final(self).tri_materials@ == old(self).tri_materials@ + repeated(
                material_index,
                mesh.indices@.len(),
            ),
            final(self).tri_cdf == old(self).tri_cdf,
            final(self).tri_areas == old(self).tri_areas,
            final(self).materials == old(self).materials,
            final(self).lights == old(self).lights,
    {
        let ghost before = *self;
        let ghost points = mesh_points(mesh@);
        let ghost directions = mesh_directions(mesh@.shaded(face_normals@));
        let base: u32 = self.vertices.len() as u32;
        let has_normals: bool = mesh.normals.len() == mesh.vertices.len();
        let mut i: usize = 0;
        while i < mesh.vertices.len()
            invariant
                i <= mesh.vertices.len(),
                has_normals == mesh@.has_normals(),
                mesh@.shaded(face_normals@).has_normals(),
                points == mesh_points(mesh@),
                directions == mesh_directions(mesh@.shaded(face_normals@)),
                self.vertices@ == before.vertices@ + points.take(i as int),
                self.normals@ == before.normals@ + directions.take(i as int),
                self.triangles == before.triangles,
                self.tri_materials == before.tri_materials,
                self.tri_cdf == before.tri_cdf,
                self.tri_areas == before.tri_areas,
                self.materials == before.materials,
                self.lights == before.lights,
            decreases mesh.vertices.len() - i,
        {
            let v: Vec3 = mesh.vertices[i];
            let n: Vec3 = if has_normals {
                mesh.normals[i]
            } else {
                face_normals[i]
            };
            self.vertices.push([v.x, v.y, v.z, ONE]);
            self.normals.push([n.x, n.y, n.z, ZERO]);
            proof {
                assert(points[i as int] == vec4(v, ONE));
                assert(directions[i as int] == vec4(n, ZERO));
                assert(self.vertices@ =~= before.vertices@ + points.take(i + 1));
                assert(self.normals@ =~= before.normals@ + directions.take(i + 1));
            }
            i = i + 1;
        }
        assert(points.take(i as int) =~= points);
        assert(directions.take(i as int) =~= directions);
        let ghost tris = mesh_triangles(mesh@, base as int);
        let ghost mats = repeated(material_index, mesh.indices@.len());
        let mut t: usize = 0;
        while t < mesh.indices.len()
            invariant
                t <= mesh.indices.len(),
                mesh@.wf(),
                base == before.vertices.len(),
                base + mesh.vertices.len() <= u32::MAX,
                tris == mesh_triangles(mesh@, base as int),
                mats == repeated(material_index, mesh.indices@.len()),
                self.vertices@ == before.vertices@ + points,
                self.normals@ == before.normals@ + directions,
                self.triangles@ == before.triangles@ + tris.take(t as int),
                self.tri_materials@ == before.tri_materials@ + mats.take(t as int),
                self.tri_cdf == before.tri_cdf,
                self.tri_areas == before.tri_areas,
                self.materials == before.materials,
                self.lights == before.lights,
            decreases mesh.indices.len() - t,
        {
            let tri: [u32; 3] = mesh.indices[t];
            assert(mesh.indices@[t as int] == tri);
            let gpu = GpuTriangle {
                v0: base + tri[0],
                v1: base + tri[1],
                v2: base + tri[2],
                _pad: 0,
            };
            self.triangles.push(gpu);
            self.tri_materials.push(material_index);
            proof {
                assert(tris[t as int] == gpu);
                assert(self.triangles@ =~= before.triangles@ + tris.take(t + 1));
                assert(self.tri_materials@ =~= before.tri_materials@ + mats.take(t + 1));
            }
            t = t + 1;
        }
        assert(tris.take(t as int) =~= tris);
        assert(mats.take(t as int) =~= mats);
    }
}

/// The checkerboard plane: a square of side 20 at height `-4.0`, two
/// triangles, facing up.
pub open spec fn checkerboard_plane() -> MeshModel {
    let y: u32 = 0xc080_0000;
    MeshModel {
        vertices: seq![
            Vec3 { x: 0xc120_0000, y, z: 0xc1f0_0000 },
            Vec3 { x: 0x4120_0000, y, z: 0xc1f0_0000 },
            Vec3 { x: 0x4120_0000, y, z: 0xc120_0000 },
            Vec3 { x: 0xc120_0000, y, z: 0xc120_0000 },
        ],
        indices: seq![[0u32, 1u32, 2u32], [0u32, 2u32, 3u32]],
        normals: Seq::new(4, |i: int| Vec3::unit_y()),
    }
}

/// The plane under the scene.
pub fn checkerboard_plane_mesh() -> (mesh: Mesh)
    ensures
        mesh@ == checkerboard_plane(),
        mesh@.wf(),
{
    let y: u32 = 0xc080_0000;
    let mut vertices: Vec<Vec3> = Vec::new();
    vertices.push(Vec3::new(0xc120_0000, y, 0xc1f0_0000));
    vertices.push(Vec3::new(0x4120_0000, y, 0xc1f0_0000));
    vertices.push(Vec3::new(0x4120_0000, y, 0xc120_0000));
    vertices.push(Vec3::new(0xc120_0000, y, 0xc120_0000));
    let mut normals: Vec<Vec3> = Vec::new();
    normals.push(Vec3::new(ZERO, ONE, ZERO));
    normals.push(Vec3::new(ZERO, ONE, ZERO));
    normals.push(Vec3::new(ZERO, ONE, ZERO));
    normals.push(Vec3::new(ZERO, ONE, ZERO));
    let mut indices: Vec<[u32; 3]> = Vec::new();
    indices.push([0u32, 1u32, 2u32]);
    indices.push([0u32, 2u32, 3u32]);
    let mesh: Mesh = Mesh::with_normals(vertices, indices, normals);
    assert(mesh@ =~= checkerboard_plane());
    mesh
}

/// Number of spheres among the first `k` objects.
pub open spec fn sphere_count(scene: Scene, k: int) -> int
    decreases k,
{
    if k <= 0 {
        0
    } else if scene.objects@[k - 1].geometry is Sphere {
        sphere_count(scene, k - 1) + 1
    } else {
        sphere_count(scene, k - 1)
    }
}

/// The mesh of object `i`: its own, or the tessellation of the sphere that it
/// is.
pub open spec fn own_mesh(scene: Scene, spheres: Seq<Mesh>, i: int) -> MeshModel {
    match scene.objects@[i].geometry {
        Geometry::Mesh(mesh) => mesh@,
        Geometry::Sphere { .. } => spheres[sphere_count(scene, i)]@,
    }
}

/// The mesh of object `i`, with its face normals where it has no others.
pub open spec fn object_mesh(
    scene: Scene,
    spheres: Seq<Mesh>,
    face_normals: Seq<Vec<Vec3>>,
    i: int,
) -> MeshModel {
    own_mesh(scene, spheres, i).shaded(face_normals[i]@)
}

/// The meshes of a scene in object order.
pub open spec fn object_meshes(
    scene: Scene,
    spheres: Seq<Mesh>,
    face_normals: Seq<Vec<Vec3>>,
) -> Seq<MeshModel> {
    Seq::new(scene.objects@.len(), |i: int| object_mesh(scene, spheres, face_normals, i))
}

/// The meshes that a scene flattens to: its objects' and then, where enabled,
/// the checkerboard plane.
pub open spec fn flattened_meshes(
    scene: Scene,
    spheres: Seq<Mesh>,
    face_normals: Seq<Vec<Vec3>>,
) -> Seq<MeshModel> {
    if scene.checkerboard_enabled {
        object_meshes(scene, spheres, face_normals).push(checkerboard_plane())
    } else {
        object_meshes(scene, spheres, face_normals)
    }
}

/// The scene can be flattened with these tessellations and face normals: there
/// is one tessellation per sphere and one list of face normals per object,
/// every triangle names vertices of its mesh, every vertex gets a normal, and
/// vertices and materials can be counted in 32 bits.
pub open spec fn can_flatten(
    scene: Scene,
    spheres: Seq<Mesh>,
    face_normals: Seq<Vec<Vec3>>,
) -> bool {
    let n = scene.objects.len() as int;
    &&& spheres.len() == sphere_count(scene, n)
    &&& face_normals.len() == n
    &&& forall|i: int|
        0 <= i < n ==> (#[trigger] object_meshes(scene, spheres, face_normals)[i]).wf()
            && object_meshes(scene, spheres, face_normals)[i].has_normals()
    &&& vertex_total(object_meshes(scene, spheres, face_normals), n) + 4 <= u32::MAX
    &&& n < u32::MAX
}

/// The materials that a scene flattens to: one per object and then, where
/// enabled, the flagged checkerboard material.
pub open spec fn flattened_materials(scene: Scene) -> Seq<GpuMaterial> {
    let own = scene.objects@.map_values(
        |o: crate::scene::Object| shader_material(o.material, 0),
    );
    if scene.checkerboard_enabled {
        own.push(
            shader_material(
                Material {
                    refractive_index: ONE,
                    albedo: [0x3f66_6666u32, 0x3dcc_cccdu32, ZERO, ZERO],
                    diffuse_color: Vec3 { x: 0x3e99_999a, y: 0x3e99_999a, z: 0x3e99_999a },
                    specular_exponent: 0x4120_0000,
                },
                MATERIAL_FLAG_CHECKERBOARD,
            ),
        )
    } else {
        own
    }
}

/// The points of the first `k` lights. The environment lights the scene through
/// its irradiance and has none.
pub open spec fn light_points(lights: Seq<Light>, k: int) -> Seq<[u32; 4]>
    decreases k,
{
    if k <= 0 {
        Seq::empty()
    } else {
        match lights[k - 1].anchor() {
            Some(p) => light_points(lights, k - 1).push(vec4(p, ONE)),
            None => light_points(lights, k - 1),
        }
    }
}

proof fn lemma_sphere_count(scene: Scene, i: int, k: int)
    requires
        0 <= i <= k <= scene.objects.len(),
    ensures
        0 <= sphere_count(scene, i) <= sphere_count(scene, k) <= k,
        i < k && scene.objects@[i].geometry is Sphere ==> sphere_count(scene, i) < sphere_count(
            scene,
            k,
        ),
    decreases k,
{
    if i < k {
        lemma_sphere_count(scene, i, k - 1);
    } else if k > 0 {
        lemma_sphere_count(scene, i - 1, k - 1);
    }
}

proof fn lemma_totals(meshes: Seq<MeshModel>, i: int, k: int)
    requires
        0 <= i <= k <= meshes.len(),
    ensures
        0 <= vertex_total(meshes, i) <= vertex_total(meshes, k),
        all_points(meshes, k).len() == vertex_total(meshes, k),
        all_triangles(meshes, k).len() == all_tri_materials(meshes, k).len(),
    decreases k,
{
    if k > 0 {
        lemma_totals(meshes, if i < k { i } else { i - 1 }, k - 1);
    }
}

proof fn lemma_same_prefix(a: Seq<MeshModel>, b: Seq<MeshModel>, k: int)
    requires
        0 <= k <= a.len(),
        k <= b.len(),
        forall|i: int| 0 <= i < k ==> a[i] == b[i],
    ensures
        vertex_total(a, k) == vertex_total(b, k),
        all_points(a, k) == all_points(b, k),
        all_directions(a, k) == all_directions(b, k),
        all_triangles(a, k) == all_triangles(b, k),
        all_tri_materials(a, k) == all_tri_materials(b, k),
    decreases k,
{
    if k > 0 {
        lemma_same_prefix(a, b, k - 1);
    }
}

/// Flattens a scene. `spheres` holds the tessellation of each sphere of the
/// scene, in object order; `face_normals` holds a list per object, which
/// stands in for the normals of an object without one per vertex.
pub fn build_gpu_scene(
    scene: &Scene,
    spheres: &[Mesh],
    face_normals: &[Vec<Vec3>],
) -> (data: GpuSceneData)
    requires
        can_flatten(*scene, spheres@, face_normals@),
    ensures
        data.holds_meshes(
            flattened_meshes(*scene, spheres@, face_normals@),
            flattened_meshes(*scene, spheres@, face_normals@).len() as int,
        ),
        data.materials@ == flattened_materials(*scene),
        data.lights@ == light_points(scene.lights@, scene.lights.len() as int),
        data.lights.len() <= scene.lights.len(),
        data.tri_cdf.len() == 0,
        data.tri_areas.len() == 0,
{
    let mut data: GpuSceneData = GpuSceneData::empty();
    let ghost meshes = object_meshes(*scene, spheres@, face_normals@);
    let ghost own = scene.objects@.map_values(
        |o: crate::scene::Object| shader_material(o.material, 0),
    );
    let mut sphere: usize = 0;
    let mut i: usize = 0;
    assert(data.vertices@ =~= all_points(meshes, 0));
    assert(data.normals@ =~= all_directions(meshes, 0));
    assert(data.triangles@ =~= all_triangles(meshes, 0));
    assert(data.tri_materials@ =~= all_tri_materials(meshes, 0));
    assert(own.take(0) =~= data.materials@);
    while i < scene.objects.len()
        invariant
            i <= scene.objects.len(),
            can_flatten(*scene, spheres@, face_normals@),
            meshes == object_meshes(*scene, spheres@, face_normals@),
            own == scene.objects@.map_values(
                |o: crate::scene::Object| shader_material(o.material, 0),
            ),
            sphere == sphere_count(*scene, i as int),
            data.holds_meshes(meshes, i as int),
            data.materials@ == own.take(i as int),
            data.lights.len() == 0,
            data.tri_cdf.len() == 0,
            data.tri_areas.len() == 0,
        decreases scene.objects.len() - i,
    {
        proof {
            lemma_sphere_count(*scene, i as int, scene.objects.len() as int);
            lemma_totals(meshes, i as int, i as int);
            lemma_totals(meshes, i + 1, scene.objects.len() as int);
            assert(meshes[i as int].wf() && meshes[i as int].has_normals());
            assert(meshes[i as int] == object_mesh(*scene, spheres@, face_normals@, i as int));
            assert(own.take(i + 1) =~= own.take(i as int).push(own[i as int]));
        }
        let material_index: u32 = data.materials.len() as u32;
        data.materials.push(GpuMaterial::from_material(scene.objects[i].material, 0));
        match &scene.objects[i].geometry {
            Geometry::Sphere { .. } => {
                data.append_mesh(&spheres[sphere], &face_normals[i], material_index);
                sphere = sphere + 1;
            },
            Geometry::Mesh(mesh) => {
                data.append_mesh(mesh, &face_normals[i], material_index);
            },
        }
        i = i + 1;
    }
    proof {
        lemma_totals(meshes, i as int, i as int);
        assert(own.take(i as int) =~= own);
    }
    let plane: Mesh = checkerboard_plane_mesh();
    let ghost all = flattened_meshes(*scene, spheres@, face_normals@);
    if scene.checkerboard_enabled {
        proof {
            lemma_same_prefix(meshes, all, i as int);
        }
        let material_index: u32 = data.materials.len() as u32;
        let checker: Material = checkerboard_material(
            Vec3::new(0x3e99_999a, 0x3e99_999a, 0x3e99_999a),
        );
        data.materials.push(GpuMaterial::from_material(checker, MATERIAL_FLAG_CHECKERBOARD));
        data.append_mesh(&plane, &[], material_index);
    }
    assert(data.holds_meshes(all, all.len() as int));
    let mut k: usize = 0;
    while k < scene.lights.len()
        invariant
            k <= scene.lights.len(),
            data.lights@ == light_points(scene.lights@, k as int),
            data.lights.len() <= k,
            data.holds_meshes(all, all.len() as int),
            data.materials@ == flattened_materials(*scene),
            data.tri_cdf.len() == 0,
            data.tri_areas.len() == 0,
        decreases scene.lights.len() - k,
    {
        if let Some(p) = scene.lights[k].position() {
            data.lights.push([p.x, p.y, p.z, ONE]);
        }
        k = k + 1;
    }
    data
}

/// Every triangle of a flattened scene names vertices of its own mesh, which
/// lie in the vertex buffer, and a material of its own mesh.
pub proof fn law_triangles_stay_in_their_mesh(meshes: Seq<MeshModel>, k: int, t: int)
    requires
        0 <= k <= meshes.len(),
        meshes.len() <= u32::MAX,
        forall|i: int| 0 <= i < meshes.len() ==> (#[trigger] meshes[i]).wf(),
        vertex_total(meshes, k) <= u32::MAX,
        0 <= t < all_triangles(meshes, k).len(),
    ensures
        all_triangles(meshes, k).len() == all_tri_materials(meshes, k).len(),
        ({
            let tri = all_triangles(meshes, k)[t];
            let m = all_tri_materials(meshes, k)[t] as int;
            let lo = vertex_total(meshes, m);
            let hi = vertex_total(meshes, m + 1);
            &&& 0 <= m < k
            &&& lo <= tri.v0 < hi
            &&& lo <= tri.v1 < hi
            &&& lo <= tri.v2 < hi
            &&& hi <= vertex_total(meshes, k)
        }),
    decreases k,
{
    lemma_totals(meshes, k, k);
    lemma_totals(meshes, k - 1, k);
    lemma_totals(meshes, k - 1, k - 1);
    let head = all_triangles(meshes, k - 1);
    let m = meshes[k - 1];
    assert(m.wf());
    if t < head.len() {
        law_triangles_stay_in_their_mesh(meshes, k - 1, t);
    } else {
        let j = t - head.len();
        let base = vertex_total(meshes, k - 1);
        assert(all_triangles(meshes, k)[t] == mesh_triangles(m, base)[j]);
        assert(all_tri_materials(meshes, k)[t] == (k - 1) as u32);
        assert(m.indices[j][0] < m.vertices.len());
    }
}

/// A flattened scene has a point and a normal for every vertex of its meshes,
/// in step: vertex `j` of mesh `i` has the normal that the mesh has there.
pub proof fn law_each_vertex_has_its_normal(meshes: Seq<MeshModel>, k: int, i: int, j: int)
    requires
        0 <= i < k <= meshes.len(),
        forall|m: int| 0 <= m < meshes.len() ==> (#[trigger] meshes[m]).has_normals(),
        0 <= j < meshes[i].vertices.len(),
    ensures
        all_points(meshes, k).len() == vertex_total(meshes, k),
        all_directions(meshes, k).len() == vertex_total(meshes, k),
        0 <= vertex_total(meshes, i) + j < vertex_total(meshes, k),
        all_points(meshes, k)[vertex_total(meshes, i) + j] == vec4(meshes[i].vertices[j], ONE),
        all_directions(meshes, k)[vertex_total(meshes, i) + j] == vec4(
            meshes[i].normals[j],
            ZERO,
        ),
    decreases k,
{
    lemma_direction_count(meshes, k);
    lemma_direction_count(meshes, k - 1);
    lemma_totals(meshes, i + 1, k);
    lemma_totals(meshes, i, i);
    lemma_totals(meshes, k - 1, k - 1);
    assert(meshes[k - 1].has_normals());
    if i < k - 1 {
        law_each_vertex_has_its_normal(meshes, k - 1, i, j);
    } else {
        assert(mesh_points(meshes[i])[j] == vec4(meshes[i].vertices[j], ONE));
        assert(mesh_directions(meshes[i])[j] == vec4(meshes[i].normals[j], ZERO));
    }
}

proof fn lemma_direction_count(meshes: Seq<MeshModel>, k: int)
    requires
        0 <= k <= meshes.len(),
        forall|m: int| 0 <= m < meshes.len() ==> (#[trigger] meshes[m]).has_normals(),
    ensures
        all_directions(meshes, k).len() == vertex_total(meshes, k),
    decreases k,
{
    if k > 0 {
        lemma_direction_count(meshes, k - 1);
        assert(meshes[k - 1].has_normals());
    }
}

/// Number of triangles of the first `k` meshes.
pub open spec fn triangle_total(meshes: Seq<MeshModel>, k: int) -> int
    decreases k,
{
    if k <= 0 {
        0
    } else {
        triangle_total(meshes, k - 1) + meshes[k - 1].indices.len()
    }
}

/// The triangles of a flattened scene follow mesh by mesh. Triangle `t` of mesh
/// `i` stands behind all triangles of the meshes before it, names the vertices
/// that it names in its mesh, counted on from the vertices before that mesh,
/// and has material `i`.
pub proof fn law_triangle_of_its_mesh(meshes: Seq<MeshModel>, k: int, i: int, t: int)
    requires
        0 <= i < k <= meshes.len(),
        meshes.len() <= u32::MAX,
        0 <= t < meshes[i].indices.len(),
        meshes[i].wf(),
        vertex_total(meshes, k) <= u32::MAX,
    ensures
        all_triangles(meshes, k).len() == triangle_total(meshes, k),
        all_tri_materials(meshes, k).len() == triangle_total(meshes, k),
        0 <= triangle_total(meshes, i) + t < triangle_total(meshes, k),
        ({
            let tri = all_triangles(meshes, k)[triangle_total(meshes, i) + t];
            &&& tri.v0 == vertex_total(meshes, i) + meshes[i].indices[t][0]
            &&& tri.v1 == vertex_total(meshes, i) + meshes[i].indices[t][1]
            &&& tri.v2 == vertex_total(meshes, i) + meshes[i].indices[t][2]
            &&& tri._pad == 0
        }),
        all_tri_materials(meshes, k)[triangle_total(meshes, i) + t] == i,
    decreases k,
{
    lemma_triangle_totals(meshes, i, k);
    lemma_triangle_totals(meshes, i, k - 1);
    lemma_triangle_totals(meshes, i, i);
    lemma_totals(meshes, i, k);
    lemma_totals(meshes, i + 1, k);
    lemma_totals(meshes, k - 1, k);
    lemma_totals(meshes, k - 1, k - 1);
    if i < k - 1 {
        law_triangle_of_its_mesh(meshes, k - 1, i, t);
        lemma_triangle_totals(meshes, i + 1, k - 1);
    } else {
        let m = meshes[i];
        let base = vertex_total(meshes, i);
        assert(m.indices[t][0] < m.vertices.len() && m.indices[t][1] < m.vertices.len()
            && m.indices[t][2] < m.vertices.len());
        assert(all_triangles(meshes, k)[triangle_total(meshes, i) + t] == mesh_triangles(
            m,
            base,
        )[t]);
        assert(all_tri_materials(meshes, k)[triangle_total(meshes, i) + t] == repeated(
            i as u32,
            m.indices.len(),
        )[t]);
    }
}

proof fn lemma_triangle_totals(meshes: Seq<MeshModel>, i: int, k: int)
    requires
        0 <= i <= k <= meshes.len(),
    ensures
        0 <= triangle_total(meshes, i) <= triangle_total(meshes, k),
        all_triangles(meshes, k).len() == triangle_total(meshes, k),
        all_tri_materials(meshes, k).len() == triangle_total(meshes, k),
    decreases k,
{
    if k > 0 {
        lemma_triangle_totals(meshes, if i < k { i } else { i - 1 }, k - 1);
    }
}

/// Mesh `i` of a flattened scene is that of object `i`: the object's own mesh,
/// or for a sphere the tessellation that has as many before it as there are
/// spheres among the objects before. Its normals are those of that mesh where
/// there is one per vertex, else the face normals given for the object. Behind
/// the objects' meshes there is only the checkerboard plane, where enabled.
pub proof fn law_meshes_are_the_objects(
    scene: Scene,
    spheres: Seq<Mesh>,
    face_normals: Seq<Vec<Vec3>>,
    i: int,
)
    requires
        0 <= i < scene.objects.len(),
    ensures
        flattened_meshes(scene, spheres, face_normals).len() == if scene.checkerboard_enabled {
            scene.objects.len() + 1
        } else {
            scene.objects.len() as int
        },
        ({
            let before = scene.objects@.take(i).filter(
                |o: crate::scene::Object| o.geometry is Sphere,
            ).len() as int;
            let mesh = match scene.objects@[i].geometry {
                Geometry::Mesh(mesh) => mesh,
                Geometry::Sphere { .. } => spheres[before],
            };
            let flat = flattened_meshes(scene, spheres, face_normals)[i];
            &&& flat.vertices == mesh.vertices@
            &&& flat.indices == mesh.indices@
            &&& mesh.normals.len() == mesh.vertices.len() ==> flat.normals == mesh.normals@
            &&& mesh.normals.len() != mesh.vertices.len() ==> flat.normals == face_normals[i]@
        }),
{
    lemma_spheres_before(scene, i);
    assert(flattened_meshes(scene, spheres, face_normals)[i] == object_mesh(
        scene,
        spheres,
        face_normals,
        i,
    ));
}

proof fn lemma_spheres_before(scene: Scene, k: int)
    requires
        0 <= k <= scene.objects.len(),
    ensures
        sphere_count(scene, k) == scene.objects@.take(k).filter(
            |o: crate::scene::Object| o.geometry is Sphere,
        ).len(),
    decreases k,
{
    reveal(Seq::filter);
    if k > 0 {
        lemma_spheres_before(scene, k - 1);
        assert(scene.objects@.take(k).drop_last() =~= scene.objects@.take(k - 1));
    }
}

/// Every triangle that comes from object `i` is shaded with that object's own
/// material: the material that it names has the object's colour, exponent,
/// weights and refractive index, and no checkerboard flag.
pub proof fn law_triangles_have_their_objects_material(
    scene: Scene,
    spheres: Seq<Mesh>,
    face_normals: Seq<Vec<Vec3>>,
    data: GpuSceneData,
    i: int,
    t: int,
)
    requires
        can_flatten(scene, spheres, face_normals),
        data.holds_meshes(
            flattened_meshes(scene, spheres, face_normals),
            flattened_meshes(scene, spheres, face_normals).len() as int,
        ),
        data.materials@ == flattened_materials(scene),
        0 <= i < scene.objects.len(),
        triangle_total(flattened_meshes(scene, spheres, face_normals), i) <= t < triangle_total(
            flattened_meshes(scene, spheres, face_normals),
            i + 1,
        ),
    ensures
        t < data.tri_materials.len(),
        data.tri_materials@[t] < data.materials.len(),
        ({
            let shaded = data.materials@[data.tri_materials@[t] as int];
            let own = scene.objects@[i].material;
            &&& shaded.diffuse@ == seq![
                own.diffuse_color.x,
                own.diffuse_color.y,
                own.diffuse_color.z,
            ]
            &&& shaded.specular_exponent == own.specular_exponent
            &&& shaded.albedo@ == own.albedo@
            &&& shaded.refractive_index == own.refractive_index
            &&& shaded.flags == 0
        }),
{
    let meshes = flattened_meshes(scene, spheres, face_normals);
    let k = meshes.len() as int;
    let n = scene.objects.len() as int;
    let own = object_meshes(scene, spheres, face_normals);
    assert(forall|j: int| 0 <= j < n ==> own[j] == meshes[j]);
    lemma_same_prefix(own, meshes, n);
    assert(vertex_total(meshes, k) <= u32::MAX);
    assert(own[i].wf());
    law_triangle_of_its_mesh(meshes, k, i, t - triangle_total(meshes, i));
    let own_material = scene.objects@[i].material;
    assert(data.materials@[i] == shader_material(own_material, 0));
    assert(data.materials@[i].diffuse@ =~= seq![
        own_material.diffuse_color.x,
        own_material.diffuse_color.y,
        own_material.diffuse_color.z,
    ]);
}

/// A scene flattens to one material per object, in object order, and then,
/// where the checkerboard is enabled, to the flagged material of its plane,
/// which is the last.
pub proof fn law_one_material_per_object(scene: Scene, i: int)
    requires
        0 <= i < flattened_materials(scene).len(),
    ensures
        flattened_materials(scene).len() == if scene.checkerboard_enabled {
            scene.objects.len() + 1
        } else {
            scene.objects.len() as int
        },
        ({
            let m = flattened_materials(scene)[i];
            &&& m.flags == if i < scene.objects.len() {
                0u32
            } else {
                1u32
            }
            &&& i < scene.objects.len() ==> {
                let own = scene.objects@[i].material;
                &&& m.diffuse@ == seq![
                    own.diffuse_color.x,
                    own.diffuse_color.y,
                    own.diffuse_color.z,
                ]
                &&& m.specular_exponent == own.specular_exponent
                &&& m.albedo@ == own.albedo@
                &&& m.refractive_index == own.refractive_index
            }
            &&& i >= scene.objects.len() ==> {
                &&& m.diffuse@ == seq![0x3e99_999au32, 0x3e99_999au32, 0x3e99_999au32]
                &&& m.specular_exponent == 0x4120_0000
                &&& m.albedo@ == seq![0x3f66_6666u32, 0x3dcc_cccdu32, 0u32, 0u32]
                &&& m.refractive_index == 0x3f80_0000
            }
        }),
{
    let m = flattened_materials(scene)[i];
    if i < scene.objects.len() {
        let own = scene.objects@[i].material;
        assert(m == shader_material(own, 0));
        assert(m.diffuse@ =~= seq![
            own.diffuse_color.x,
            own.diffuse_color.y,
            own.diffuse_color.z,
        ]);
    } else {
        assert(m.diffuse@ =~= seq![0x3e99_999au32, 0x3e99_999au32, 0x3e99_999au32]);
        assert(m.albedo@ =~= seq![0x3f66_6666u32, 0x3dcc_cccdu32, 0u32, 0u32]);
    }
}

/// Word by word, a material's record is what the shader's `Material` declares:
/// colour, exponent, the four weights, refractive index, flags and two zero
/// words.
pub proof fn law_material_words(material: Material, flags: u32)
    ensures
        ({
            let words = shader_material(material, flags).record();
            &&& words.len() == 12
            &&& words[0] == material.diffuse_color.x
            &&& words[1] == material.diffuse_color.y
            &&& words[2] == material.diffuse_color.z
            &&& words[3] == material.specular_exponent
            &&& words[4] == material.albedo[0]
            &&& words[5] == material.albedo[1]
            &&& words[6] == material.albedo[2]
            &&& words[7] == material.albedo[3]
            &&& words[8] == material.refractive_index
            &&& words[9] == flags
            &&& words[10] == 0
            &&& words[11] == 0
        }),
{
}

/// Word by word, a triangle's record is its three corners in order and then its
/// padding.
pub proof fn law_triangle_words(t: GpuTriangle)
    ensures
        t.record().len() == 4,
        t.record()[0] == t.v0,
        t.record()[1] == t.v1,
        t.record()[2] == t.v2,
        t.record()[3] == t._pad,
{
}

/// Vertex `j` of mesh `i` stands behind all vertices of the meshes before it,
/// as a point with a fourth component of one and a normal with a fourth
/// component of zero.
pub proof fn law_vertex_of_its_mesh(meshes: Seq<MeshModel>, k: int, i: int, j: int)
    requires
        0 <= i < k <= meshes.len(),
        forall|m: int| 0 <= m < meshes.len() ==> (#[trigger] meshes[m]).has_normals(),
        0 <= j < meshes[i].vertices.len(),
    ensures
        0 <= vertex_total(meshes, i) + j < all_points(meshes, k).len(),
        all_directions(meshes, k).len() == all_points(meshes, k).len(),
        ({
            let v = meshes[i].vertices[j];
            let n = meshes[i].normals[j];
            &&& all_points(meshes, k)[vertex_total(meshes, i) + j]@ == seq![
                v.x,
                v.y,
                v.z,
                0x3f80_0000u32,
            ]
            &&& all_directions(meshes, k)[vertex_total(meshes, i) + j]@ == seq![
                n.x,
                n.y,
                n.z,
                0u32,
            ]
        }),
{
    law_each_vertex_has_its_normal(meshes, k, i, j);
    let v = meshes[i].vertices[j];
    let n = meshes[i].normals[j];
    assert(vec4(v, ONE)@ =~= seq![v.x, v.y, v.z, 0x3f80_0000u32]);
    assert(vec4(n, ZERO)@ =~= seq![n.x, n.y, n.z, 0u32]);
}

/// The lights of a flattened scene are its lights but the environment, in
/// order, each as the point at which it stands or has its centre.
pub proof fn law_lights_in_order(lights: Seq<Light>, k: int)
    requires
        0 <= k <= lights.len(),
    ensures
        ({
            let standing = lights.take(k).filter(|l: Light| !(l is Env));
            &&& light_points(lights, k).len() == standing.len()
            &&& forall|p: int|
                0 <= p < standing.len() ==> (#[trigger] light_points(lights, k)[p])@ == match standing[p] {
                    Light::Point { position, .. } => seq![
                        position.x,
                        position.y,
                        position.z,
                        0x3f80_0000u32,
                    ],
                    Light::Rect { center, .. } => seq![
                        center.x,
                        center.y,
                        center.z,
                        0x3f80_0000u32,
                    ],
                    Light::Sphere { center, .. } => seq![
                        center.x,
                        center.y,
                        center.z,
                        0x3f80_0000u32,
                    ],
                    Light::Box { center, .. } => seq![
                        center.x,
                        center.y,
                        center.z,
                        0x3f80_0000u32,
                    ],
                    Light::Env { .. } => Seq::empty(),
                }
        }),
    decreases k,
{
    reveal(Seq::filter);
    let stands = |l: Light| !(l is Env);
    if k > 0 {
        law_lights_in_order(lights, k - 1);
        assert(lights.take(k).drop_last() =~= lights.take(k - 1));
        let prev = lights.take(k - 1).filter(stands);
        let now = lights.take(k).filter(stands);
        let points = light_points(lights, k);
        let l = lights[k - 1];
        assert(lights.take(k).last() == l);
        if stands(l) {
            assert(now == prev.push(l));
            let c = l.anchor()->0;
            assert(points.last() == vec4(c, ONE));
            assert(vec4(c, ONE)@ =~= seq![c.x, c.y, c.z, 0x3f80_0000u32]);
            assert forall|p: int| 0 <= p < now.len() - 1 implies #[trigger] points[p]
                == light_points(lights, k - 1)[p] && now[p] == prev[p] by {}
        } else {
            assert(now == prev);
        }
    } else {
        assert(lights.take(0).filter(stands) =~= Seq::empty());
    }
}

/// The checkerboard plane lies level at height `-4.0`: its four vertices are
/// the four corners of a rectangle, each of its two triangles has three of
/// them, both share one diagonal, and every normal points up.
pub proof fn law_checkerboard_plane()
    ensures
        ({
            let m = checkerboard_plane();
            let west: u32 = 0xc120_0000;
            let east: u32 = 0x4120_0000;
            let far: u32 = 0xc1f0_0000;
            let near: u32 = 0xc120_0000;
            &&& m.vertices.len() == 4
            &&& m.normals.len() == 4
            &&& m.indices.len() == 2
            &&& forall|i: int| 0 <= i < 4 ==> (#[trigger] m.vertices[i]).y == 0xc080_0000
            &&& m.vertices[0].x == west && m.vertices[0].z == far
            &&& m.vertices[1].x == east && m.vertices[1].z == far
            &&& m.vertices[2].x == east && m.vertices[2].z == near
            &&& m.vertices[3].x == west && m.vertices[3].z == near
            &&& m.indices[0]@ == seq![0u32, 1u32, 2u32]
            &&& m.indices[1]@ == seq![0u32, 2u32, 3u32]
            &&& forall|i: int|
                0 <= i < 4 ==> (#[trigger] m.normals[i]).x == 0 && m.normals[i].y == 0x3f80_0000
                    && m.normals[i].z == 0
        }),
{
    let m = checkerboard_plane();
    assert(m.indices[0]@ =~= seq![0u32, 1u32, 2u32]);
    assert(m.indices[1]@ =~= seq![0u32, 2u32, 3u32]);
}

/// Triangles as one flat index buffer.
pub fn flatten_triangles(triangles: &[GpuTriangle]) -> (flat: Vec<u32>)
    ensures
        flat.len() == triangles.len() * 3,
        forall|t: int|
            0 <= t < triangles.len() ==> {
                &&& flat@[3 * t] == (#[trigger] triangles@[t]).v0
                &&& flat@[3 * t + 1] == triangles@[t].v1
                &&& flat@[3 * t + 2] == triangles@[t].v2
            },
{
    let mut flat: Vec<u32> = Vec::new();
    let mut i: usize = 0;
    while i < triangles.len()
        invariant
            i <= triangles.len(),
            flat.len() == i * 3,
            forall|t: int|
                0 <= t < i ==> {
                    &&& flat@[3 * t] == (#[trigger] triangles@[t]).v0
                    &&& flat@[3 * t + 1] == triangles@[t].v1
                    &&& flat@[3 * t + 2] == triangles@[t].v2
                },
        decreases triangles.len() - i,
    {
        let tri: GpuTriangle = triangles[i];
        flat.push(tri.v0);
        flat.push(tri.v1);
        flat.push(tri.v2);
        i = i + 1;
    }
    flat
}

} // verus!
