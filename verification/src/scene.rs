//! Scenes: objects, lights and the environment.
use vstd::prelude::*;

use crate::environment::EnvironmentMap;
use crate::float_bits::{less_or_equal, Vec3, ONE};
#[allow(unused_imports)]
use crate::float_bits::le;
use crate::material::Material;
use crate::mesh::Mesh;

verus! {

/// The shape of an object.
pub enum Geometry {
    /// An analytic sphere.
    Sphere { center: Vec3, radius: u32 },
    /// A triangle mesh.
    Mesh(Mesh),
}

/// A shape and the material of its surface.
pub struct Object {
    pub geometry: Geometry,
    pub material: Material,
}

impl Object {
    pub fn new(geometry: Geometry, material: Material) -> (object: Self)
        ensures
            object == (Object { geometry, material }),
    {
        Object { geometry, material }
    }

    /// An analytic sphere.
    pub fn sphere(center: Vec3, radius: u32, material: Material) -> (object: Self)
        ensures
            object == (Object { geometry: Geometry::Sphere { center, radius }, material }),
    {
        Object { geometry: Geometry::Sphere { center, radius }, material }
    }

    /// A triangle mesh.
    pub fn mesh(mesh: Mesh, material: Material) -> (object: Self)
        ensures
            object == (Object { geometry: Geometry::Mesh(mesh), material }),
    {
        Object { geometry: Geometry::Mesh(mesh), material }
    }
}

/// A light source.
#[derive(Clone, Copy, Debug)]
pub enum Light {
    Point { position: Vec3, color: Vec3, intensity: u32 },
    /// A rectangle with half-extents `u` and `v`.
    Rect { center: Vec3, u: Vec3, v: Vec3, color: Vec3, intensity: u32, two_sided: bool },
    Sphere { center: Vec3, radius: u32, color: Vec3, intensity: u32 },
    /// An oriented box.
    Box {
        center: Vec3,
        half_extents: Vec3,
        rotation: [u32; 4],
        color: Vec3,
        intensity: u32,
    },
    /// The scene's environment map.
    Env { intensity: u32 },
}

impl Light {
    /// A white point light of unit intensity.
    pub fn point(position: Vec3) -> (light: Self)
        ensures
            light == (Light::Point {
                position,
                color: Vec3 { x: ONE, y: ONE, z: ONE },
                intensity: ONE,
            }),
    {
        Light::Point { position, color: Vec3::new(ONE, ONE, ONE), intensity: ONE }
    }

    /// Where the light stands: its position or centre. The environment
    /// surrounds the scene and stands nowhere.
    pub open spec fn anchor(self) -> Option<Vec3> {
        match self {
            Light::Point { position, .. } => Some(position),
            Light::Rect { center, .. } => Some(center),
            Light::Sphere { center, .. } => Some(center),
            Light::Box { center, .. } => Some(center),
            Light::Env { .. } => None,
        }
    }

    /// Where the light stands.
    pub fn position(&self) -> (p: Option<Vec3>)
        ensures
            p == self.anchor(),
    {
        match self {
            Light::Point { position, .. } => Some(*position),
            Light::Rect { center, .. } => Some(*center),
            Light::Sphere { center, .. } => Some(*center),
            Light::Box { center, .. } => Some(*center),
            Light::Env { .. } => None,
        }
    }
}

/// The box face that `pick` falls on: the first of faces `0..5` whose upper
/// bound in `cdf` exceeds it, else the last face.
pub open spec fn face_from(pick: u32, cdf: Seq<u32>, face: int) -> int
    decreases 5 - face,
{
    if face >= 5 || !le(cdf[face + 1], pick) {
        face
    } else {
        face_from(pick, cdf, face + 1)
    }
}

/// Selects a face of a box light. `cdf` holds the seven boundaries of the
/// cumulated face areas.
pub fn select_face(pick: u32, cdf: &[u32; 7]) -> (face: usize)
    ensures
        face == face_from(pick, cdf@, 0),
        face < 6,
{
    let mut face: usize = 0;
    while face < 5 && less_or_equal(cdf[face + 1], pick)
        invariant
            face <= 5,
            face_from(pick, cdf@, 0) == face_from(pick, cdf@, face as int),
        decreases 5 - face,
    {
        face = face + 1;
    }
    face
}

/// Axis and side of a box face: faces come in pairs per axis, the positive
/// side first.
pub fn face_axis(face: usize) -> (axis: (usize, bool))
    requires
        face < 6,
    ensures
        axis.0 == face as int / 2,
        axis.1 == (face % 2 == 0),
{
    (face / 2, face % 2 == 0)
}

/// Everything there is to render.
pub struct Scene {
    pub objects: Vec<Object>,
    pub lights: Vec<Light>,
    pub environment: Option<EnvironmentMap>,
    /// Whether to add the checkerboard plane.
    pub checkerboard_enabled: bool,
}

impl Scene {
    /// An empty scene with the checkerboard plane.
    pub fn new() -> (scene: Self)
        ensures
            scene.objects.len() == 0,
            scene.lights.len() == 0,
            scene.environment is None,
            scene.checkerboard_enabled,
    {
        Scene {
            objects: Vec::new(),
            lights: Vec::new(),
            environment: None,
            checkerboard_enabled: true,
        }
    }

    pub fn set_environment(&mut self, environment: EnvironmentMap)
        ensures
            final(self).environment == Some(environment),
            final(self).objects == old(self).objects,
            final(self).lights == old(self).lights,
            final(self).checkerboard_enabled == old(self).checkerboard_enabled,
    {
        self.environment = Some(environment);
    }

    pub fn add_object(&mut self, object: Object)
        ensures
            final(self).objects@ == old(self).objects@.push(object),
            final(self).lights == old(self).lights,
            final(self).environment == old(self).environment,
            final(self).checkerboard_enabled == old(self).checkerboard_enabled,
    {
        self.objects.push(object);
    }

    pub fn add_light(&mut self, light: Light)
        ensures
            final(self).lights@ == old(self).lights@.push(light),
            final(self).objects == old(self).objects,
            final(self).environment == old(self).environment,
            final(self).checkerboard_enabled == old(self).checkerboard_enabled,
    {
        self.lights.push(light);
    }

    /// Whether any light is the environment.
    pub fn has_env_light(&self) -> (has: bool)
        ensures
            has == exists|i: int| 0 <= i < self.lights.len() && #[trigger] self.lights@[i] is Env,
    {
        let mut i: usize = 0;
        while i < self.lights.len()
            invariant
                i <= self.lights.len(),
                forall|k: int| 0 <= k < i ==> !(#[trigger] self.lights@[k] is Env),
            decreases self.lights.len() - i,
        {
            if let Light::Env { .. } = self.lights[i] {
                assert(self.lights@[i as int] is Env);
                return true;
            }
            i = i + 1;
        }
        false
    }
}

impl Default for Scene {
    fn default() -> (scene: Self)
        ensures
            scene.objects.len() == 0,
            scene.lights.len() == 0,
            scene.environment is None,
            scene.checkerboard_enabled,
    {
        Scene::new()
    }
}

/// The face that a pick falls on is the first whose upper bound is not at most
/// the pick, and the last face where every bound before it is.
pub proof fn law_face_of_a_pick(pick: u32, cdf: Seq<u32>, from: int)
    requires
        0 <= from <= 5,
    ensures
        from <= face_from(pick, cdf, from) <= 5,
        forall|k: int| from <= k < face_from(pick, cdf, from) ==> le(#[trigger] cdf[k + 1], pick),
        face_from(pick, cdf, from) < 5 ==> !le(cdf[face_from(pick, cdf, from) + 1], pick),
    decreases 5 - from,
{
    if from < 5 && le(cdf[from + 1], pick) {
        law_face_of_a_pick(pick, cdf, from + 1);
    }
}

/// A point light stands at its position and an area light at its centre; only
/// the environment stands nowhere.
pub proof fn law_where_a_light_stands(light: Light)
    ensures
        light.anchor() is None <==> light is Env,
        light matches Light::Point { position, .. } ==> light.anchor() == Some(position),
        light matches Light::Rect { center, .. } ==> light.anchor() == Some(center),
        light matches Light::Sphere { center, .. } ==> light.anchor() == Some(center),
        light matches Light::Box { center, .. } ==> light.anchor() == Some(center),
{
}

} // verus!
