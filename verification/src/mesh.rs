//! Triangle meshes and the topology of the primitive shapes.
use vstd::prelude::*;

use crate::float_bits::Vec3;

verus! {

/// A triangle mesh.
pub struct Mesh {
    pub vertices: Vec<Vec3>,
    pub indices: Vec<[u32; 3]>,
    /// One normal per vertex; with any other number, face normals stand in
    /// for them.
    pub normals: Vec<Vec3>,
}

/// Every triangle names vertices below `n`.
pub open spec fn indices_below(indices: Seq<[u32; 3]>, n: int) -> bool {
    forall|t: int|
        0 <= t < indices.len() ==> (#[trigger] indices[t])[0] < n && indices[t][1] < n
            && indices[t][2] < n
}

/// A mesh as sequences.
#[verifier::ext_equal]
pub struct MeshModel {
    pub vertices: Seq<Vec3>,
    pub indices: Seq<[u32; 3]>,
    pub normals: Seq<Vec3>,
}

impl MeshModel {
    /// Every triangle names vertices of the mesh.
    pub open spec fn wf(self) -> bool {
        indices_below(self.indices, self.vertices.len() as int)
    }

    /// Every vertex has a normal.
    pub open spec fn has_normals(self) -> bool {
        self.normals.len() == self.vertices.len()
    }

    /// The mesh with its own normals, or with the given face normals where it
    /// does not have one per vertex.
    pub open spec fn shaded(self, face_normals: Seq<Vec3>) -> MeshModel {
        if self.has_normals() {
            self
        } else {
            MeshModel { normals: face_normals, ..self }
        }
    }
}

impl View for Mesh {
    type V = MeshModel;

    open spec fn view(&self) -> MeshModel {
        MeshModel {
            vertices: self.vertices@,
            indices: self.indices@,
            normals: self.normals@,
        }
    }
}

impl Mesh {
    /// A mesh with given normals, one per vertex; given any other number of
    /// them, flattening the mesh falls back to face normals.
    pub fn with_normals(
        vertices: Vec<Vec3>,
        indices: Vec<[u32; 3]>,
        normals: Vec<Vec3>,
    ) -> (mesh: Self)
        ensures
            mesh.vertices == vertices,
            mesh.indices == indices,
            mesh.normals == normals,
    {
        Mesh { vertices, indices, normals }
    }
}

/// The vertex at row `i` and column `j` of a grid that wraps after `rows` rows
/// and `columns` columns.
pub open spec fn grid_vertex(i: int, j: int, rows: int, columns: int) -> u32 {
    ((i % rows) * columns + j % columns) as u32
}

/// Triangle `t` of a grid of quads, `across` quads per row. The two triangles
/// of a quad share the diagonal from its own corner to the opposite one.
pub open spec fn grid_triangle(t: int, across: int, rows: int, columns: int) -> [u32; 3] {
    let i = (t / 2) / across;
    let j = (t / 2) % across;
    let a = grid_vertex(i, j, rows, columns);
    let b = grid_vertex(i + 1, j, rows, columns);
    let c = grid_vertex(i + 1, j + 1, rows, columns);
    let d = grid_vertex(i, j + 1, rows, columns);
    if t % 2 == 0 {
        [a, b, c]
    } else {
        [a, c, d]
    }
}

/// The triangles of `down` rows of `across` quads over a wrapping grid of
/// vertices.
pub open spec fn grid_triangles(down: int, across: int, rows: int, columns: int) -> Seq<[u32; 3]> {
    Seq::new((down * across * 2) as nat, |t: int| grid_triangle(t, across, rows, columns))
}

proof fn lemma_grid_vertex(i: int, j: int, rows: int, columns: int)
    requires
        rows > 0,
        columns > 0,
        rows * columns <= u32::MAX,
    ensures
        0 <= (i % rows) * columns + j % columns < rows * columns,
        grid_vertex(i, j, rows, columns) == (i % rows) * columns + j % columns,
{
    let r = i % rows;
    let c = j % columns;
    vstd::arithmetic::div_mod::lemma_mod_bound(i, rows);
    vstd::arithmetic::div_mod::lemma_mod_bound(j, columns);
    assert(0 <= r * columns + c < rows * columns) by (nonlinear_arith)
        requires
            0 <= r < rows,
            0 <= c < columns,
    ;
}

/// Every triangle of a grid names one of its vertices.
pub proof fn law_grid_in_range(down: int, across: int, rows: int, columns: int)
    requires
        rows > 0,
        columns > 0,
        rows * columns <= u32::MAX,
    ensures
        indices_below(grid_triangles(down, across, rows, columns), rows * columns),
{
    let s = grid_triangles(down, across, rows, columns);
    assert forall|t: int| 0 <= t < s.len() implies (#[trigger] s[t])[0] < rows * columns && s[t][1]
        < rows * columns && s[t][2] < rows * columns by {
        let i = (t / 2) / across;
        let j = (t / 2) % across;
        lemma_grid_vertex(i, j, rows, columns);
        lemma_grid_vertex(i + 1, j, rows, columns);
        lemma_grid_vertex(i + 1, j + 1, rows, columns);
        lemma_grid_vertex(i, j + 1, rows, columns);
    }
}

fn vertex_at(i: u32, j: u32, rows: u32, columns: u32) -> (v: u32)
    requires
        rows > 0,
        columns > 0,
        rows * columns <= u32::MAX,
    ensures
        v == grid_vertex(i as int, j as int, rows as int, columns as int),
{
    proof {
        lemma_grid_vertex(i as int, j as int, rows as int, columns as int);
        let r = i as int % rows as int;
        assert(0 <= r * columns <= r * columns + j as int % columns as int) by (nonlinear_arith)
            requires
                0 <= r,
                0 < columns,
                0 <= j as int % columns as int,
        ;
    }
    (i % rows) * columns + j % columns
}

/// The triangles of `down` rows of `across` quads over a grid of vertices that
/// wraps after `rows` rows and `columns` columns.
pub fn grid_indices(down: u32, across: u32, rows: u32, columns: u32) -> (indices: Vec<[u32; 3]>)
    requires
        rows > 0,
        columns > 0,
        rows * columns <= u32::MAX,
        down < u32::MAX,
        across < u32::MAX,
    ensures
        indices@ == grid_triangles(down as int, across as int, rows as int, columns as int),
        indices_below(indices@, rows * columns),
{
    let mut indices: Vec<[u32; 3]> = Vec::new();
    let ghost want = grid_triangles(down as int, across as int, rows as int, columns as int);
    let mut i: u32 = 0;
    while i < down
        invariant
            i <= down,
            rows > 0,
            columns > 0,
            rows * columns <= u32::MAX,
            down < u32::MAX,
            across < u32::MAX,
            indices.len() == i * across * 2,
            forall|t: int|
                0 <= t < indices.len() ==> #[trigger] indices@[t] == grid_triangle(
                    t,
                    across as int,
                    rows as int,
                    columns as int,
                ),
        decreases down - i,
    {
        let mut j: u32 = 0;
        while j < across
            invariant
                i < down,
                j <= across,
                rows > 0,
                columns > 0,
                rows * columns <= u32::MAX,
                down < u32::MAX,
                across < u32::MAX,
                indices.len() == (i * across + j) * 2,
                forall|t: int|
                    0 <= t < indices.len() ==> #[trigger] indices@[t] == grid_triangle(
                        t,
                        across as int,
                        rows as int,
                        columns as int,
                    ),
            decreases across - j,
        {
            let a: u32 = vertex_at(i, j, rows, columns);
            let b: u32 = vertex_at(i + 1, j, rows, columns);
            let c: u32 = vertex_at(i + 1, j + 1, rows, columns);
            let d: u32 = vertex_at(i, j + 1, rows, columns);
            proof {
                let q = i * across + j;
                assert(q == across * i + j) by (nonlinear_arith)
                    requires
                        q == i * across + j,
                ;
                vstd::arithmetic::div_mod::lemma_fundamental_div_mod_converse(
                    q,
                    across as int,
                    i as int,
                    j as int,
                );
                assert((q * 2) / 2 == q && (q * 2 + 1) / 2 == q);
                assert((q * 2) % 2 == 0 && (q * 2 + 1) % 2 == 1);
            }
            indices.push([a, b, c]);
            indices.push([a, c, d]);
            j = j + 1;
        }
        proof {
            assert((i + 1) * across == i * across + across) by (nonlinear_arith);
        }
        i = i + 1;
    }
    proof {
        assert(indices@ =~= want);
        law_grid_in_range(down as int, across as int, rows as int, columns as int);
    }
    indices
}

/// The triangles of a torus of `seg` ring segments with `sides` vertices each.
pub open spec fn torus_triangles(seg: int, sides: int) -> Seq<[u32; 3]> {
    grid_triangles(seg, sides, seg, sides)
}

/// The triangles of a sphere of `stacks` rows of `slices` quads.
pub open spec fn sphere_triangles(slices: int, stacks: int) -> Seq<[u32; 3]> {
    grid_triangles(stacks, slices, stacks + 1, slices + 1)
}

/// The triangles of a torus of `seg` ring segments with `sides` vertices each;
/// both directions close up.
pub fn torus_indices(seg: u32, sides: u32) -> (indices: Vec<[u32; 3]>)
    requires
        seg * sides <= u32::MAX,
        seg < u32::MAX,
        sides < u32::MAX,
    ensures
        seg == 0 || sides == 0 ==> indices.len() == 0,
        seg > 0 && sides > 0 ==> indices@ == grid_triangles(
            seg as int,
            sides as int,
            seg as int,
            sides as int,
        ),
        seg > 0 && sides > 0 ==> indices@ == torus_triangles(seg as int, sides as int),
        indices_below(indices@, seg * sides),
{
    if seg == 0 || sides == 0 {
        return Vec::new();
    }
    grid_indices(seg, sides, seg, sides)
}

/// The triangles of a sphere cut into `stacks` rows of `slices` quads; the
/// seam column and both poles have vertices of their own.
pub fn sphere_indices(slices: u32, stacks: u32) -> (indices: Vec<[u32; 3]>)
    requires
        (slices + 1) * (stacks + 1) <= u32::MAX,
        slices < u32::MAX,
        stacks < u32::MAX,
    ensures
        indices@ == grid_triangles(stacks as int, slices as int, stacks + 1, slices + 1),
        indices@ == sphere_triangles(slices as int, stacks as int),
        indices_below(indices@, (stacks + 1) * (slices + 1)),
{
    assert((stacks + 1) * (slices + 1) == (slices + 1) * (stacks + 1)) by (nonlinear_arith);
    grid_indices(stacks, slices, stacks + 1, slices + 1)
}

/// On a sphere no index wraps: the corner at row `i` and column `j` is vertex
/// `i * (slices + 1) + j`.
pub proof fn law_sphere_corner(i: int, j: int, slices: int, stacks: int)
    requires
        0 <= i <= stacks,
        0 <= j <= slices,
        (stacks + 1) * (slices + 1) <= u32::MAX,
    ensures
        grid_vertex(i, j, stacks + 1, slices + 1) == i * (slices + 1) + j,
{
    lemma_grid_vertex(i, j, stacks + 1, slices + 1);
    vstd::arithmetic::div_mod::lemma_small_mod(i as nat, (stacks + 1) as nat);
    vstd::arithmetic::div_mod::lemma_small_mod(j as nat, (slices + 1) as nat);
}

/// The triangles of a cube, two per face.
pub open spec fn cube_triangles() -> Seq<[u32; 3]> {
    seq![
        [0u32, 2u32, 1u32],
        [0u32, 3u32, 2u32],
        [4u32, 5u32, 6u32],
        [4u32, 6u32, 7u32],
        [0u32, 1u32, 5u32],
        [0u32, 5u32, 4u32],
        [3u32, 6u32, 2u32],
        [3u32, 7u32, 6u32],
        [1u32, 2u32, 6u32],
        [1u32, 6u32, 5u32],
        [0u32, 4u32, 7u32],
        [0u32, 7u32, 3u32],
    ]
}

/// The triangles of a square pyramid: two of its base, then one per side.
pub open spec fn pyramid_triangles() -> Seq<[u32; 3]> {
    seq![
        [0u32, 2u32, 1u32],
        [0u32, 3u32, 2u32],
        [0u32, 1u32, 4u32],
        [1u32, 2u32, 4u32],
        [2u32, 3u32, 4u32],
        [3u32, 0u32, 4u32],
    ]
}

/// The twelve triangles of a cube with eight vertices.
pub fn cube_indices() -> (indices: Vec<[u32; 3]>)
    ensures
        indices@ == seq![
            [0u32, 2u32, 1u32],
            [0u32, 3u32, 2u32],
            [4u32, 5u32, 6u32],
            [4u32, 6u32, 7u32],
            [0u32, 1u32, 5u32],
            [0u32, 5u32, 4u32],
            [3u32, 6u32, 2u32],
            [3u32, 7u32, 6u32],
            [1u32, 2u32, 6u32],
            [1u32, 6u32, 5u32],
            [0u32, 4u32, 7u32],
            [0u32, 7u32, 3u32],
        ],
        indices@ == cube_triangles(),
        indices_below(indices@, 8),
{
    let mut indices: Vec<[u32; 3]> = Vec::new();
    indices.push([0u32, 2u32, 1u32]);
    indices.push([0u32, 3u32, 2u32]);
    indices.push([4u32, 5u32, 6u32]);
    indices.push([4u32, 6u32, 7u32]);
    indices.push([0u32, 1u32, 5u32]);
    indices.push([0u32, 5u32, 4u32]);
    indices.push([3u32, 6u32, 2u32]);
    indices.push([3u32, 7u32, 6u32]);
    indices.push([1u32, 2u32, 6u32]);
    indices.push([1u32, 6u32, 5u32]);
    indices.push([0u32, 4u32, 7u32]);
    indices.push([0u32, 7u32, 3u32]);
    indices
}

/// The six triangles of a square pyramid whose apex is vertex 4.
pub fn pyramid_indices() -> (indices: Vec<[u32; 3]>)
    ensures
        indices@ == seq![
            [0u32, 2u32, 1u32],
            [0u32, 3u32, 2u32],
            [0u32, 1u32, 4u32],
            [1u32, 2u32, 4u32],
            [2u32, 3u32, 4u32],
            [3u32, 0u32, 4u32],
        ],
        indices@ == pyramid_triangles(),
        indices_below(indices@, 5),
{
    let mut indices: Vec<[u32; 3]> = Vec::new();
    indices.push([0u32, 2u32, 1u32]);
    indices.push([0u32, 3u32, 2u32]);
    indices.push([0u32, 1u32, 4u32]);
    indices.push([1u32, 2u32, 4u32]);
    indices.push([2u32, 3u32, 4u32]);
    indices.push([3u32, 0u32, 4u32]);
    indices
}

/// Vertices of a grid count row by row. A row or column past the last is the
/// first again.
pub proof fn law_grid_wraps(i: int, j: int, rows: int, columns: int)
    requires
        0 <= i < rows,
        0 <= j < columns,
        rows * columns <= u32::MAX,
    ensures
        grid_vertex(i, j, rows, columns) == i * columns + j,
        grid_vertex(rows, j, rows, columns) == j,
        grid_vertex(i, columns, rows, columns) == i * columns,
        grid_vertex(rows, columns, rows, columns) == 0,
{
    lemma_grid_vertex(i, j, rows, columns);
    lemma_grid_vertex(rows, j, rows, columns);
    lemma_grid_vertex(i, columns, rows, columns);
    lemma_grid_vertex(rows, columns, rows, columns);
    vstd::arithmetic::div_mod::lemma_small_mod(i as nat, rows as nat);
    vstd::arithmetic::div_mod::lemma_small_mod(j as nat, columns as nat);
    vstd::arithmetic::div_mod::lemma_mod_self_0(rows);
    vstd::arithmetic::div_mod::lemma_mod_self_0(columns);
    assert(0 * columns == 0) by (nonlinear_arith);
}

/// The quad in row `i` and column `j` of a grid has two triangles. Both start
/// in the quad's own corner and hold the opposite one; the first goes on to
/// the corner below, the second ends in the corner beside.
pub proof fn law_grid_quad(down: int, across: int, rows: int, columns: int, i: int, j: int)
    requires
        0 <= i < down,
        0 <= j < across,
    ensures
        ({
            let tris = grid_triangles(down, across, rows, columns);
            let own = grid_vertex(i, j, rows, columns);
            let below = grid_vertex(i + 1, j, rows, columns);
            let opposite = grid_vertex(i + 1, j + 1, rows, columns);
            let beside = grid_vertex(i, j + 1, rows, columns);
            let t = 2 * (i * across + j);
            &&& tris.len() == 2 * (down * across)
            &&& 0 <= t < tris.len() - 1
            &&& tris[t]@ == seq![own, below, opposite]
            &&& tris[t + 1]@ == seq![own, opposite, beside]
        }),
{
    let q = i * across + j;
    let t = 2 * q;
    assert(0 <= q < down * across) by (nonlinear_arith)
        requires
            0 <= i < down,
            0 <= j < across,
            q == i * across + j,
    ;
    assert(down * across * 2 == 2 * (down * across)) by (nonlinear_arith);
    vstd::arithmetic::div_mod::lemma_fundamental_div_mod_converse(q, across, i, j);
    assert(t / 2 == q && t % 2 == 0);
    assert((t + 1) / 2 == q && (t + 1) % 2 == 1);
    let tris = grid_triangles(down, across, rows, columns);
    let own = grid_vertex(i, j, rows, columns);
    let below = grid_vertex(i + 1, j, rows, columns);
    let opposite = grid_vertex(i + 1, j + 1, rows, columns);
    let beside = grid_vertex(i, j + 1, rows, columns);
    assert(tris[t] == grid_triangle(t, across, rows, columns));
    assert(tris[t + 1] == grid_triangle(t + 1, across, rows, columns));
    assert(tris[t]@ =~= seq![own, below, opposite]);
    assert(tris[t + 1]@ =~= seq![own, opposite, beside]);
}

/// A mesh is shaded with its own normals where it has one per vertex, and with
/// the given ones otherwise; its vertices and triangles stay.
pub proof fn law_shading(mesh: Mesh, face_normals: Seq<Vec3>)
    ensures
        mesh@.vertices == mesh.vertices@,
        mesh@.indices == mesh.indices@,
        mesh@.normals == mesh.normals@,
        mesh@.shaded(face_normals).vertices == mesh.vertices@,
        mesh@.shaded(face_normals).indices == mesh.indices@,
        mesh.normals.len() == mesh.vertices.len() ==> mesh@.shaded(face_normals).normals
            == mesh.normals@,
        mesh.normals.len() != mesh.vertices.len() ==> mesh@.shaded(face_normals).normals
            == face_normals,
{
}

/// Side `e` of a triangle, from corner to corner.
pub open spec fn tri_edge(tris: Seq<[u32; 3]>, t: int, e: int) -> (u32, u32) {
    (tris[t][e], tris[t][(e + 1) % 3])
}

/// Vertex `k` of a cube around the origin: the corners of its lower face go
/// round, and those of its upper face lie above them.
pub open spec fn cube_corner(k: u32) -> (int, int, int) {
    (
        if k % 4 == 1 || k % 4 == 2 { 1 } else { -1 },
        if k % 4 >= 2 { 1 } else { -1 },
        if k >= 4 { 1 } else { -1 },
    )
}

/// Vertex `k` of a pyramid around the origin: the corners of its base go
/// round, and the apex is the last.
pub open spec fn pyramid_corner(k: u32) -> (int, int, int) {
    if k == 4 {
        (0, 1, 0)
    } else {
        (if k == 1 || k == 2 { 1 } else { -1 }, -1, if k >= 2 { 1 } else { -1 })
    }
}

/// Six times the signed volume between the origin and a triangle.
pub open spec fn signed_volume(a: (int, int, int), b: (int, int, int), c: (int, int, int)) -> int {
    a.0 * (b.1 * c.2 - b.2 * c.1) - a.1 * (b.0 * c.2 - b.2 * c.0) + a.2 * (b.0 * c.1 - b.1 * c.0)
}

/// A cube is closed: along every side of a triangle another triangle lies, which
/// runs along it the other way. Each triangle is half of a face and faces
/// outwards.
pub proof fn law_cube_is_closed(t: int, e: int)
    requires
        0 <= t < 12,
        0 <= e < 3,
    ensures
        cube_triangles().len() == 12,
        exists|u: int, f: int|
            0 <= u < 12 && 0 <= f < 3 && #[trigger] tri_edge(cube_triangles(), u, f) == (
                tri_edge(cube_triangles(), t, e).1,
                tri_edge(cube_triangles(), t, e).0,
            ),
        signed_volume(
            cube_corner(cube_triangles()[t][0]),
            cube_corner(cube_triangles()[t][1]),
            cube_corner(cube_triangles()[t][2]),
        ) == 4,
{
    let tris = cube_triangles();
    assert(tri_edge(tris, 1, 2) == (tri_edge(tris, 0, 0).1, tri_edge(tris, 0, 0).0));
    assert(tri_edge(tris, 8, 0) == (tri_edge(tris, 0, 1).1, tri_edge(tris, 0, 1).0));
    assert(tri_edge(tris, 4, 0) == (tri_edge(tris, 0, 2).1, tri_edge(tris, 0, 2).0));
    assert(tri_edge(tris, 11, 2) == (tri_edge(tris, 1, 0).1, tri_edge(tris, 1, 0).0));
    assert(tri_edge(tris, 6, 2) == (tri_edge(tris, 1, 1).1, tri_edge(tris, 1, 1).0));
    assert(tri_edge(tris, 0, 0) == (tri_edge(tris, 1, 2).1, tri_edge(tris, 1, 2).0));
    assert(tri_edge(tris, 5, 1) == (tri_edge(tris, 2, 0).1, tri_edge(tris, 2, 0).0));
    assert(tri_edge(tris, 9, 1) == (tri_edge(tris, 2, 1).1, tri_edge(tris, 2, 1).0));
    assert(tri_edge(tris, 3, 0) == (tri_edge(tris, 2, 2).1, tri_edge(tris, 2, 2).0));
    assert(tri_edge(tris, 2, 2) == (tri_edge(tris, 3, 0).1, tri_edge(tris, 3, 0).0));
    assert(tri_edge(tris, 7, 1) == (tri_edge(tris, 3, 1).1, tri_edge(tris, 3, 1).0));
    assert(tri_edge(tris, 10, 1) == (tri_edge(tris, 3, 2).1, tri_edge(tris, 3, 2).0));
    assert(tri_edge(tris, 0, 2) == (tri_edge(tris, 4, 0).1, tri_edge(tris, 4, 0).0));
    assert(tri_edge(tris, 9, 2) == (tri_edge(tris, 4, 1).1, tri_edge(tris, 4, 1).0));
    assert(tri_edge(tris, 5, 0) == (tri_edge(tris, 4, 2).1, tri_edge(tris, 4, 2).0));
    assert(tri_edge(tris, 4, 2) == (tri_edge(tris, 5, 0).1, tri_edge(tris, 5, 0).0));
    assert(tri_edge(tris, 2, 0) == (tri_edge(tris, 5, 1).1, tri_edge(tris, 5, 1).0));
    assert(tri_edge(tris, 10, 0) == (tri_edge(tris, 5, 2).1, tri_edge(tris, 5, 2).0));
    assert(tri_edge(tris, 7, 2) == (tri_edge(tris, 6, 0).1, tri_edge(tris, 6, 0).0));
    assert(tri_edge(tris, 8, 1) == (tri_edge(tris, 6, 1).1, tri_edge(tris, 6, 1).0));
    assert(tri_edge(tris, 1, 1) == (tri_edge(tris, 6, 2).1, tri_edge(tris, 6, 2).0));
    assert(tri_edge(tris, 11, 1) == (tri_edge(tris, 7, 0).1, tri_edge(tris, 7, 0).0));
    assert(tri_edge(tris, 3, 1) == (tri_edge(tris, 7, 1).1, tri_edge(tris, 7, 1).0));
    assert(tri_edge(tris, 6, 0) == (tri_edge(tris, 7, 2).1, tri_edge(tris, 7, 2).0));
    assert(tri_edge(tris, 0, 1) == (tri_edge(tris, 8, 0).1, tri_edge(tris, 8, 0).0));
    assert(tri_edge(tris, 6, 1) == (tri_edge(tris, 8, 1).1, tri_edge(tris, 8, 1).0));
    assert(tri_edge(tris, 9, 0) == (tri_edge(tris, 8, 2).1, tri_edge(tris, 8, 2).0));
    assert(tri_edge(tris, 8, 2) == (tri_edge(tris, 9, 0).1, tri_edge(tris, 9, 0).0));
    assert(tri_edge(tris, 2, 1) == (tri_edge(tris, 9, 1).1, tri_edge(tris, 9, 1).0));
    assert(tri_edge(tris, 4, 1) == (tri_edge(tris, 9, 2).1, tri_edge(tris, 9, 2).0));
    assert(tri_edge(tris, 5, 2) == (tri_edge(tris, 10, 0).1, tri_edge(tris, 10, 0).0));
    assert(tri_edge(tris, 3, 2) == (tri_edge(tris, 10, 1).1, tri_edge(tris, 10, 1).0));
    assert(tri_edge(tris, 11, 0) == (tri_edge(tris, 10, 2).1, tri_edge(tris, 10, 2).0));
    assert(tri_edge(tris, 10, 2) == (tri_edge(tris, 11, 0).1, tri_edge(tris, 11, 0).0));
    assert(tri_edge(tris, 7, 0) == (tri_edge(tris, 11, 1).1, tri_edge(tris, 11, 1).0));
    assert(tri_edge(tris, 1, 0) == (tri_edge(tris, 11, 2).1, tri_edge(tris, 11, 2).0));
    if t == 0 {
        assert(cube_corner(0) == (-1int, -1int, -1int));
        assert(cube_corner(2) == (1int, 1int, -1int));
        assert(cube_corner(1) == (1int, -1int, -1int));
        assert(signed_volume((-1int, -1int, -1int), (1int, 1int, -1int), (1int, -1int, -1int)) == 4) by (nonlinear_arith);
    }
    if t == 1 {
        assert(cube_corner(0) == (-1int, -1int, -1int));
        assert(cube_corner(3) == (-1int, 1int, -1int));
        assert(cube_corner(2) == (1int, 1int, -1int));
        assert(signed_volume((-1int, -1int, -1int), (-1int, 1int, -1int), (1int, 1int, -1int)) == 4) by (nonlinear_arith);
    }
    if t == 2 {
        assert(cube_corner(4) == (-1int, -1int, 1int));
        assert(cube_corner(5) == (1int, -1int, 1int));
        assert(cube_corner(6) == (1int, 1int, 1int));
        assert(signed_volume((-1int, -1int, 1int), (1int, -1int, 1int), (1int, 1int, 1int)) == 4) by (nonlinear_arith);
    }
    if t == 3 {
        assert(cube_corner(4) == (-1int, -1int, 1int));
        assert(cube_corner(6) == (1int, 1int, 1int));
        assert(cube_corner(7) == (-1int, 1int, 1int));
        assert(signed_volume((-1int, -1int, 1int), (1int, 1int, 1int), (-1int, 1int, 1int)) == 4) by (nonlinear_arith);
    }
    if t == 4 {
        assert(cube_corner(0) == (-1int, -1int, -1int));
        assert(cube_corner(1) == (1int, -1int, -1int));
        assert(cube_corner(5) == (1int, -1int, 1int));
        assert(signed_volume((-1int, -1int, -1int), (1int, -1int, -1int), (1int, -1int, 1int)) == 4) by (nonlinear_arith);
    }
    if t == 5 {
        assert(cube_corner(0) == (-1int, -1int, -1int));
        assert(cube_corner(5) == (1int, -1int, 1int));
        assert(cube_corner(4) == (-1int, -1int, 1int));
        assert(signed_volume((-1int, -1int, -1int), (1int, -1int, 1int), (-1int, -1int, 1int)) == 4) by (nonlinear_arith);
    }
    if t == 6 {
        assert(cube_corner(3) == (-1int, 1int, -1int));
        assert(cube_corner(6) == (1int, 1int, 1int));
        assert(cube_corner(2) == (1int, 1int, -1int));
        assert(signed_volume((-1int, 1int, -1int), (1int, 1int, 1int), (1int, 1int, -1int)) == 4) by (nonlinear_arith);
    }
    if t == 7 {
        assert(cube_corner(3) == (-1int, 1int, -1int));
        assert(cube_corner(7) == (-1int, 1int, 1int));
        assert(cube_corner(6) == (1int, 1int, 1int));
        assert(signed_volume((-1int, 1int, -1int), (-1int, 1int, 1int), (1int, 1int, 1int)) == 4) by (nonlinear_arith);
    }
    if t == 8 {
        assert(cube_corner(1) == (1int, -1int, -1int));
        assert(cube_corner(2) == (1int, 1int, -1int));
        assert(cube_corner(6) == (1int, 1int, 1int));
        assert(signed_volume((1int, -1int, -1int), (1int, 1int, -1int), (1int, 1int, 1int)) == 4) by (nonlinear_arith);
    }
    if t == 9 {
        assert(cube_corner(1) == (1int, -1int, -1int));
        assert(cube_corner(6) == (1int, 1int, 1int));
        assert(cube_corner(5) == (1int, -1int, 1int));
        assert(signed_volume((1int, -1int, -1int), (1int, 1int, 1int), (1int, -1int, 1int)) == 4) by (nonlinear_arith);
    }
    if t == 10 {
        assert(cube_corner(0) == (-1int, -1int, -1int));
        assert(cube_corner(4) == (-1int, -1int, 1int));
        assert(cube_corner(7) == (-1int, 1int, 1int));
        assert(signed_volume((-1int, -1int, -1int), (-1int, -1int, 1int), (-1int, 1int, 1int)) == 4) by (nonlinear_arith);
    }
    if t == 11 {
        assert(cube_corner(0) == (-1int, -1int, -1int));
        assert(cube_corner(7) == (-1int, 1int, 1int));
        assert(cube_corner(3) == (-1int, 1int, -1int));
        assert(signed_volume((-1int, -1int, -1int), (-1int, 1int, 1int), (-1int, 1int, -1int)) == 4) by (nonlinear_arith);
    }
}

/// A pyramid is closed: along every side of a triangle another triangle lies,
/// which runs along it the other way. Each triangle faces inwards.
pub proof fn law_pyramid_is_closed(t: int, e: int)
    requires
        0 <= t < 6,
        0 <= e < 3,
    ensures
        pyramid_triangles().len() == 6,
        exists|u: int, f: int|
            0 <= u < 6 && 0 <= f < 3 && #[trigger] tri_edge(pyramid_triangles(), u, f) == (
                tri_edge(pyramid_triangles(), t, e).1,
                tri_edge(pyramid_triangles(), t, e).0,
            ),
        signed_volume(
            pyramid_corner(pyramid_triangles()[t][0]),
            pyramid_corner(pyramid_triangles()[t][1]),
            pyramid_corner(pyramid_triangles()[t][2]),
        ) < 0,
{
    let tris = pyramid_triangles();
    assert(tri_edge(tris, 1, 2) == (tri_edge(tris, 0, 0).1, tri_edge(tris, 0, 0).0));
    assert(tri_edge(tris, 3, 0) == (tri_edge(tris, 0, 1).1, tri_edge(tris, 0, 1).0));
    assert(tri_edge(tris, 2, 0) == (tri_edge(tris, 0, 2).1, tri_edge(tris, 0, 2).0));
    assert(tri_edge(tris, 5, 0) == (tri_edge(tris, 1, 0).1, tri_edge(tris, 1, 0).0));
    assert(tri_edge(tris, 4, 0) == (tri_edge(tris, 1, 1).1, tri_edge(tris, 1, 1).0));
    assert(tri_edge(tris, 0, 0) == (tri_edge(tris, 1, 2).1, tri_edge(tris, 1, 2).0));
    assert(tri_edge(tris, 0, 2) == (tri_edge(tris, 2, 0).1, tri_edge(tris, 2, 0).0));
    assert(tri_edge(tris, 3, 2) == (tri_edge(tris, 2, 1).1, tri_edge(tris, 2, 1).0));
    assert(tri_edge(tris, 5, 1) == (tri_edge(tris, 2, 2).1, tri_edge(tris, 2, 2).0));
    assert(tri_edge(tris, 0, 1) == (tri_edge(tris, 3, 0).1, tri_edge(tris, 3, 0).0));
    assert(tri_edge(tris, 4, 2) == (tri_edge(tris, 3, 1).1, tri_edge(tris, 3, 1).0));
    assert(tri_edge(tris, 2, 1) == (tri_edge(tris, 3, 2).1, tri_edge(tris, 3, 2).0));
    assert(tri_edge(tris, 1, 1) == (tri_edge(tris, 4, 0).1, tri_edge(tris, 4, 0).0));
    assert(tri_edge(tris, 5, 2) == (tri_edge(tris, 4, 1).1, tri_edge(tris, 4, 1).0));
    assert(tri_edge(tris, 3, 1) == (tri_edge(tris, 4, 2).1, tri_edge(tris, 4, 2).0));
    assert(tri_edge(tris, 1, 0) == (tri_edge(tris, 5, 0).1, tri_edge(tris, 5, 0).0));
    assert(tri_edge(tris, 2, 2) == (tri_edge(tris, 5, 1).1, tri_edge(tris, 5, 1).0));
    assert(tri_edge(tris, 4, 1) == (tri_edge(tris, 5, 2).1, tri_edge(tris, 5, 2).0));
    if t == 0 {
        assert(pyramid_corner(0) == (-1int, -1int, -1int));
        assert(pyramid_corner(2) == (1int, -1int, 1int));
        assert(pyramid_corner(1) == (1int, -1int, -1int));
        assert(signed_volume((-1int, -1int, -1int), (1int, -1int, 1int), (1int, -1int, -1int)) == -4) by (nonlinear_arith);
    }
    if t == 1 {
        assert(pyramid_corner(0) == (-1int, -1int, -1int));
        assert(pyramid_corner(3) == (-1int, -1int, 1int));
        assert(pyramid_corner(2) == (1int, -1int, 1int));
        assert(signed_volume((-1int, -1int, -1int), (-1int, -1int, 1int), (1int, -1int, 1int)) == -4) by (nonlinear_arith);
    }
    if t == 2 {
        assert(pyramid_corner(0) == (-1int, -1int, -1int));
        assert(pyramid_corner(1) == (1int, -1int, -1int));
        assert(pyramid_corner(4) == (0int, 1int, 0int));
        assert(signed_volume((-1int, -1int, -1int), (1int, -1int, -1int), (0int, 1int, 0int)) == -2) by (nonlinear_arith);
    }
    if t == 3 {
        assert(pyramid_corner(1) == (1int, -1int, -1int));
        assert(pyramid_corner(2) == (1int, -1int, 1int));
        assert(pyramid_corner(4) == (0int, 1int, 0int));
        assert(signed_volume((1int, -1int, -1int), (1int, -1int, 1int), (0int, 1int, 0int)) == -2) by (nonlinear_arith);
    }
    if t == 4 {
        assert(pyramid_corner(2) == (1int, -1int, 1int));
        assert(pyramid_corner(3) == (-1int, -1int, 1int));
        assert(pyramid_corner(4) == (0int, 1int, 0int));
        assert(signed_volume((1int, -1int, 1int), (-1int, -1int, 1int), (0int, 1int, 0int)) == -2) by (nonlinear_arith);
    }
    if t == 5 {
        assert(pyramid_corner(3) == (-1int, -1int, 1int));
        assert(pyramid_corner(0) == (-1int, -1int, -1int));
        assert(pyramid_corner(4) == (0int, 1int, 0int));
        assert(signed_volume((-1int, -1int, 1int), (-1int, -1int, -1int), (0int, 1int, 0int)) == -2) by (nonlinear_arith);
    }
}

/// Between ring `i` and the next, and between side `j` and the next, a torus has
/// two triangles, `sides` such quads to a ring. Vertices count ring by ring;
/// behind the last ring comes the first again, and likewise for the sides.
pub proof fn law_torus_quad(seg: int, sides: int, i: int, j: int)
    requires
        0 <= i < seg,
        0 <= j < sides,
        seg * sides <= u32::MAX,
    ensures
        ({
            let tris = torus_triangles(seg, sides);
            let t = 2 * (i * sides + j);
            let ring: int = if i + 1 == seg { 0 } else { i + 1 };
            let side: int = if j + 1 == sides { 0 } else { j + 1 };
            &&& tris.len() == 2 * (seg * sides)
            &&& 0 <= t < tris.len() - 1
            &&& tris[t][0] == i * sides + j
            &&& tris[t][1] == ring * sides + j
            &&& tris[t][2] == ring * sides + side
            &&& tris[t + 1][0] == i * sides + j
            &&& tris[t + 1][1] == ring * sides + side
            &&& tris[t + 1][2] == i * sides + side
        }),
{
    law_grid_quad(seg, sides, seg, sides, i, j);
    let ring: int = if i + 1 == seg { 0 } else { i + 1 };
    let side: int = if j + 1 == sides { 0 } else { j + 1 };
    assert(0 * sides == 0) by (nonlinear_arith);
    law_grid_wraps(i, j, seg, sides);
    law_grid_wraps(ring, j, seg, sides);
    law_grid_wraps(ring, side, seg, sides);
    law_grid_wraps(i, side, seg, sides);
    let tris = torus_triangles(seg, sides);
    let t = 2 * (i * sides + j);
    assert(tris[t][0] == tris[t]@[0] && tris[t][1] == tris[t]@[1] && tris[t][2] == tris[t]@[2]);
    assert(tris[t + 1][0] == tris[t + 1]@[0] && tris[t + 1][1] == tris[t + 1]@[1] && tris[t + 1][2]
        == tris[t + 1]@[2]);
}

/// Between row `i` and the next, and between column `j` and the next, a sphere
/// has two triangles, `slices` such quads to a row. A row has one vertex more
/// than quads, so nothing wraps.
pub proof fn law_sphere_quad(slices: int, stacks: int, i: int, j: int)
    requires
        0 <= i < stacks,
        0 <= j < slices,
        (stacks + 1) * (slices + 1) <= u32::MAX,
    ensures
        ({
            let tris = sphere_triangles(slices, stacks);
            let t = 2 * (i * slices + j);
            let row = i * (slices + 1);
            let next = (i + 1) * (slices + 1);
            &&& tris.len() == 2 * (stacks * slices)
            &&& 0 <= t < tris.len() - 1
            &&& tris[t][0] == row + j
            &&& tris[t][1] == next + j
            &&& tris[t][2] == next + j + 1
            &&& tris[t + 1][0] == row + j
            &&& tris[t + 1][1] == next + j + 1
            &&& tris[t + 1][2] == row + j + 1
        }),
{
    law_grid_quad(stacks, slices, stacks + 1, slices + 1, i, j);
    law_sphere_corner(i, j, slices, stacks);
    law_sphere_corner(i + 1, j, slices, stacks);
    law_sphere_corner(i + 1, j + 1, slices, stacks);
    law_sphere_corner(i, j + 1, slices, stacks);
    let tris = sphere_triangles(slices, stacks);
    let t = 2 * (i * slices + j);
    assert(tris[t][0] == tris[t]@[0] && tris[t][1] == tris[t]@[1] && tris[t][2] == tris[t]@[2]);
    assert(tris[t + 1][0] == tris[t + 1]@[0] && tris[t + 1][1] == tris[t + 1]@[1] && tris[t + 1][2]
        == tris[t + 1]@[2]);
}

} // verus!
