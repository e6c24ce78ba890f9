//! Assembly of one mesh from the triangle primitives of a glTF document.
use vstd::prelude::*;

use crate::float_bits::{Vec3, ZERO};
#[allow(unused_imports)]
use crate::mesh::indices_below;
use crate::mesh::Mesh;

verus! {

/// A mesh under construction.
pub struct MeshBuilder {
    pub vertices: Vec<Vec3>,
    pub normals: Vec<Vec3>,
    pub indices: Vec<[u32; 3]>,
    /// Whether every primitive so far came with normals.
    pub all_normals: bool,
}

/// Why no mesh comes of a document.
#[derive(Clone, Copy, Debug, PartialEq, Eq, Structural)]
pub enum GltfError {
    /// There is no vertex or no triangle.
    NoTriangles,
}

/// A finished mesh.
pub enum LoadedMesh {
    /// Every primitive had normals.
    Complete(Mesh),
    /// Normals are missing and have to be derived from the faces.
    NeedsNormals { vertices: Vec<Vec3>, indices: Vec<[u32; 3]> },
}

/// The normals that a primitive adds: its own, or zero vectors.
pub open spec fn primitive_normals(count: nat, normals: Option<Vec<Vec3>>) -> Seq<Vec3> {
    Seq::new(
        count,
        |i: int|
            match normals {
                Some(list) => list@[i],
                None => Vec3::zero(),
            },
    )
}

/// The triangles that a primitive adds: its whole index triples, or without
/// indices its whole vertex triples, over vertices that start at `base`.
pub open spec fn primitive_triangles(
    count: nat,
    indices: Option<Vec<u32>>,
    base: int,
) -> Seq<[u32; 3]> {
    match indices {
        Some(list) => Seq::new(
            list@.len() / 3,
            |t: int|
                [
                    (base + list@[3 * t]) as u32,
                    (base + list@[3 * t + 1]) as u32,
                    (base + list@[3 * t + 2]) as u32,
                ],
        ),
        None => Seq::new(
            count / 3,
            |t: int| [(base + 3 * t) as u32, (base + 3 * t + 1) as u32, (base + 3 * t + 2) as u32],
        ),
    }
}

/// The indices of a primitive name only its own `count` vertices.
pub open spec fn indices_name_own(count: nat, indices: Option<Vec<u32>>) -> bool {
    match indices {
        Some(list) => forall|k: int| 0 <= k < list.len() ==> #[trigger] list@[k] < count,
        None => true,
    }
}

impl MeshBuilder {
    /// Every vertex has a normal.
    pub open spec fn wf(self) -> bool {
        self.normals.len() == self.vertices.len()
    }

    /// Every triangle names vertices of the mesh.
    pub open spec fn in_range(self) -> bool {
        indices_below(self.indices@, self.vertices.len() as int)
    }

    pub fn new() -> (b: Self)
        ensures
            b.wf(),
            b.in_range(),
            b.vertices.len() == 0,
            b.normals.len() == 0,
            b.indices.len() == 0,
            b.all_normals,
    {
        MeshBuilder {
            vertices: Vec::new(),
            normals: Vec::new(),
            indices: Vec::new(),
            all_normals: true,
        }
    }

    /// Adds a triangle primitive with transformed positions and normals.
    pub fn add_primitive(
        &mut self,
        positions: &[Vec3],
        normals: &Option<Vec<Vec3>>,
        indices: &Option<Vec<u32>>,
    )
        requires
            old(self).vertices.len() + positions.len() <= u32::MAX,
            match *normals {
                Some(list) => list.len() >= positions.len(),
                None => true,
            },
            match *indices {
                Some(list) => forall|k: int|
                    0 <= k < list.len() ==> old(self).vertices.len() + #[trigger] list@[k]
                        <= u32::MAX,
                None => true,
            },
        ensures
            final(self).vertices@ == old(self).vertices@ + positions@,
            final(self).normals@ == old(self).normals@ + primitive_normals(
                positions@.len(),
                *normals,
            ),
            final(self).indices@ == old(self).indices@ + primitive_triangles(
                positions@.len(),
                *indices,
                old(self).vertices.len() as int,
            ),
            final(self).all_normals == (old(self).all_normals && *normals is Some),
            old(self).wf() ==> final(self).wf(),
            old(self).in_range() && indices_name_own(positions@.len(), *indices)
                ==> final(self).in_range(),
    {
        let ghost before = *self;
        let base: u32 = self.vertices.len() as u32;
        if normals.is_none() {
            self.all_normals = false;
        }
        let ghost added = primitive_normals(positions@.len(), *normals);
        let mut i: usize = 0;
        while i < positions.len()
            invariant
                i <= positions.len(),
                match *normals {
                    Some(list) => list.len() >= positions.len(),
                    None => true,
                },
                added == primitive_normals(positions@.len(), *normals),
                self.vertices@ == before.vertices@ + positions@.take(i as int),
                self.normals@ == before.normals@ + added.take(i as int),
                self.indices == before.indices,
                self.all_normals == (before.all_normals && *normals is Some),
            decreases positions.len() - i,
        {
            let n: Vec3 = match normals {
                Some(list) => list[i],
                None => Vec3::new(ZERO, ZERO, ZERO),
            };
            self.vertices.push(positions[i]);
            self.normals.push(n);
            proof {
                assert(added[i as int] == n);
                assert(self.vertices@ =~= before.vertices@ + positions@.take(i + 1));
                assert(self.normals@ =~= before.normals@ + added.take(i + 1));
            }
            i = i + 1;
        }
        assert(positions@.take(i as int) =~= positions@);
        assert(added.take(i as int) =~= added);
        let ghost tris = primitive_triangles(positions@.len(), *indices, base as int);
        match indices {
            Some(list) => {
                let triples: usize = list.len() / 3;
                let mut t: usize = 0;
                while t < triples
                    invariant
                        t <= triples,
                        triples == list.len() / 3,
                        base == before.vertices.len(),
                        *indices == Some(*list),
                        tris == primitive_triangles(positions@.len(), *indices, base as int),
                        forall|k: int|
                            0 <= k < list.len() ==> base + #[trigger] list@[k] <= u32::MAX,
                        self.vertices@ == before.vertices@ + positions@,
                        self.normals@ == before.normals@ + added,
                        self.indices@ == before.indices@ + tris.take(t as int),
                        self.all_normals == (before.all_normals && *normals is Some),
                    decreases triples - t,
                {
                    let a: u32 = base + list[3 * t];
                    let b: u32 = base + list[3 * t + 1];
                    let c: u32 = base + list[3 * t + 2];
                    self.indices.push([a, b, c]);
                    proof {
                        assert(tris[t as int] == [a, b, c]);
                        assert(self.indices@ =~= before.indices@ + tris.take(t + 1));
                    }
                    t = t + 1;
                }
                assert(tris.take(triples as int) =~= tris);
            },
            None => {
                let triples: usize = positions.len() / 3;
                let mut t: usize = 0;
                while t < triples
                    invariant
                        t <= triples,
                        triples == positions.len() / 3,
                        base == before.vertices.len(),
                        base + positions.len() <= u32::MAX,
                        *indices is None,
                        tris == primitive_triangles(positions@.len(), *indices, base as int),
                        self.vertices@ == before.vertices@ + positions@,
                        self.normals@ == before.normals@ + added,
                        self.indices@ == before.indices@ + tris.take(t as int),
                        self.all_normals == (before.all_normals && *normals is Some),
                    decreases triples - t,
                {
                    let first: u32 = base + 3 * (t as u32);
                    self.indices.push([first, first + 1, first + 2]);
                    proof {
                        assert(tris[t as int] == [first, (first + 1) as u32, (first + 2) as u32]);
                        assert(self.indices@ =~= before.indices@ + tris.take(t + 1));
                    }
                    t = t + 1;
                }
                assert(tris.take(triples as int) =~= tris);
            },
        }
        proof {
            if before.in_range() && indices_name_own(positions@.len(), *indices) {
                law_primitive_in_range(positions@.len(), *indices, base as int);
                assert forall|t: int| 0 <= t < self.indices.len() implies (
                #[trigger] self.indices@[t])[0] < self.vertices.len() && self.indices@[t][1]
                    < self.vertices.len() && self.indices@[t][2] < self.vertices.len() by {
                    if t < before.indices.len() {
                        assert(self.indices@[t] == before.indices@[t]);
                    } else {
                        assert(self.indices@[t] == tris[t - before.indices.len()]);
                    }
                }
            }
        }
    }

    /// The mesh of all primitives. Refused when there is no vertex or no
    /// triangle; without normals on every primitive none are kept.
    pub fn finish(self) -> (r: Result<LoadedMesh, GltfError>)
        ensures
            match r {
                Err(e) => e == GltfError::NoTriangles && (self.vertices.len() == 0
                    || self.indices.len() == 0),
                Ok(LoadedMesh::Complete(mesh)) => self.vertices.len() > 0 && self.indices.len() > 0
                    && self.all_normals && mesh.vertices == self.vertices && mesh.indices
                    == self.indices && mesh.normals == self.normals,
                Ok(LoadedMesh::NeedsNormals { vertices, indices }) => self.vertices.len() > 0
                    && self.indices.len() > 0 && !self.all_normals && vertices == self.vertices
                    && indices == self.indices,
            },
            self.wf() ==> (r matches Ok(LoadedMesh::Complete(mesh)) ==> mesh@.has_normals()),
            self.in_range() ==> (r matches Ok(LoadedMesh::Complete(mesh)) ==> mesh@.wf()),
    {
        if self.vertices.len() == 0 || self.indices.len() == 0 {
            return Err(GltfError::NoTriangles);
        }
        if self.all_normals {
            Ok(
                LoadedMesh::Complete(
                    Mesh::with_normals(self.vertices, self.indices, self.normals),
                ),
            )
        } else {
            Ok(LoadedMesh::NeedsNormals { vertices: self.vertices, indices: self.indices })
        }
    }
}

/// A primitive whose indices name its own vertices adds triangles that name
/// only those; one without indices always does.
pub proof fn law_primitive_in_range(count: nat, indices: Option<Vec<u32>>, base: int)
    requires
        0 <= base,
        base + count <= u32::MAX,
        indices_name_own(count, indices),
    ensures
        forall|t: int|
            0 <= t < primitive_triangles(count, indices, base).len() ==> {
                let tri = #[trigger] primitive_triangles(count, indices, base)[t];
                base <= tri[0] < base + count && base <= tri[1] < base + count && base <= tri[2]
                    < base + count
            },
{
}

/// Laid end to end, the corners of the triangles that a primitive adds are its
/// index list, or without one its vertices, each once and in order, shifted by
/// the `base` vertices before it. At most two are left over at the end.
pub proof fn law_corners_are_the_index_list(count: nat, indices: Option<Vec<u32>>, base: int)
    requires
        0 <= base,
        base + count <= u32::MAX,
        indices matches Some(list) ==> forall|k: int|
            0 <= k < list.len() ==> base + #[trigger] list@[k] <= u32::MAX,
    ensures
        ({
            let n: int = match indices {
                Some(list) => list.len() as int,
                None => count as int,
            };
            let tris = primitive_triangles(count, indices, base);
            &&& n - 2 <= 3 * tris.len() <= n
            &&& forall|p: int|
                0 <= p < 3 * tris.len() ==> #[trigger] tris[p / 3][p % 3] == base + match indices {
                    Some(list) => list@[p] as int,
                    None => p,
                }
        }),
{
    let tris = primitive_triangles(count, indices, base);
    assert forall|p: int| 0 <= p < 3 * tris.len() implies #[trigger] tris[p / 3][p % 3] == base
        + match indices {
        Some(list) => list@[p] as int,
        None => p,
    } by {
        let t = p / 3;
        let tri = tris[t];
        assert(p == 3 * t + p % 3);
        match indices {
            Some(list) => {
                assert(base + list@[3 * t] <= u32::MAX);
                assert(base + list@[3 * t + 1] <= u32::MAX);
                assert(base + list@[3 * t + 2] <= u32::MAX);
            },
            None => {},
        }
    }
}

/// Every vertex of a primitive gets a normal, in step with the positions: its
/// own, or a zero vector where the primitive has none.
pub proof fn law_primitive_normals(count: nat, normals: Option<Vec<Vec3>>, i: int)
    requires
        0 <= i < count,
    ensures
        primitive_normals(count, normals).len() == count,
        normals matches Some(list) ==> primitive_normals(count, normals)[i] == list@[i],
        normals is None ==> primitive_normals(count, normals)[i].x == 0 && primitive_normals(
            count,
            normals,
        )[i].y == 0 && primitive_normals(count, normals)[i].z == 0,
{
}

} // verus!
