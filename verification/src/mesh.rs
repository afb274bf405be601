//! Triangle meshes: vertex positions, a flat list of vertex indices with
//! three entries per triangle, and one texture coordinate per entry of that
//! list.

use vstd::prelude::*;

verus! {

/// A mesh over any kind of position `V` and texture coordinate `U`.
pub struct Mesh<V, U> {
    pub verts: Vec<V>,
    pub tris: Vec<usize>,
    pub uvs: Vec<U>,
}

/// Whether the three parts fit together: the index list holds whole
/// triangles, each index names a vertex, and there is one texture coordinate
/// per index.
pub open spec fn valid_mesh(n_verts: nat, tris: Seq<usize>, n_uvs: nat) -> bool {
    &&& tris.len() % 3 == 0
    &&& n_uvs == tris.len()
    &&& forall|i: int| 0 <= i < tris.len() ==> (#[trigger] tris[i]) < n_verts
}

/// Tests whether the three parts of a mesh fit together.
pub fn check_mesh(n_verts: usize, tris: &Vec<usize>, n_uvs: usize) -> (ok: bool)
    ensures
        ok == valid_mesh(n_verts as nat, tris@, n_uvs as nat),
{
    if tris.len() % 3 != 0 || n_uvs != tris.len() {
        return false;
    }
    let mut i: usize = 0;
    while i < tris.len()
        invariant
            i <= tris@.len(),
            forall|k: int| 0 <= k < i ==> (#[trigger] tris@[k]) < n_verts,
        decreases tris@.len() - i,
    {
        if tris[i] >= n_verts {
            return false;
        }
        i += 1;
    }
    true
}

impl<V, U> Mesh<V, U> {
    /// The invariant of a mesh.
    pub open spec fn wf(&self) -> bool {
        valid_mesh(self.verts@.len(), self.tris@, self.uvs@.len())
    }

    /// The number of triangles.
    pub open spec fn triangles(&self) -> int {
        self.tris@.len() as int / 3
    }

    /// Makes a mesh of parts that fit together.
    pub fn new(verts: Vec<V>, tris: Vec<usize>, uvs: Vec<U>) -> (mesh: Mesh<V, U>)
        requires
            valid_mesh(verts@.len(), tris@, uvs@.len()),
        ensures
            mesh.wf(),
            mesh.verts == verts,
            mesh.tris == tris,
            mesh.uvs == uvs,
    {
        Mesh { verts: verts, tris: tris, uvs: uvs }
    }

    /// Makes a mesh if the parts fit together.
    pub fn try_new(verts: Vec<V>, tris: Vec<usize>, uvs: Vec<U>) -> (mesh: Option<Mesh<V, U>>)
        ensures
            mesh is Some <==> valid_mesh(verts@.len(), tris@, uvs@.len()),
            mesh matches Some(m) ==> m.wf() && m.verts == verts && m.tris == tris && m.uvs == uvs,
    {
        if check_mesh(verts.len(), &tris, uvs.len()) {
            Some(Mesh { verts: verts, tris: tris, uvs: uvs })
        } else {
            None
        }
    }

    /// The number of triangles.
    pub fn triangle_count(&self) -> (n: usize)
        ensures
            n == self.triangles(),
    {
        self.tris.len() / 3
    }

    /// The position and the texture coordinate of corner `corner` (0, 1 or
    /// 2) of triangle `triangle`.
    pub fn corner(&self, triangle: usize, corner: usize) -> (at: (&V, &U))
        requires
            self.wf(),
            triangle < self.triangles(),
            corner < 3,
        ensures
            *at.0 == self.verts@[self.tris@[triangle * 3 + corner] as int],
            *at.1 == self.uvs@[triangle * 3 + corner],
    {
        let entries: usize = self.tris.len();
        let k: usize = triangle * 3 + corner;
        assert(k < entries);
        (&self.verts[self.tris[k]], &self.uvs[k])
    }
}

/// The coordinate of the cube's faces on the negative side of an axis.
pub const NEG: i32 = -1;

/// The coordinate of the cube's faces on the positive side of an axis, and
/// the `w` of every position.
pub const POS: i32 = 1;

/// A position on the whole-number grid, as `[x, y, z, w]`.
pub type GridPoint = [i32; 4];

/// A texture coordinate on the whole-number grid, as `[u, v]`.
pub type GridUv = [i32; 2];

/// A mesh of one triangle, the upper left half of the cube's front face.
pub fn create_test_triangle() -> (mesh: Mesh<GridPoint, GridUv>)
    ensures
        mesh.wf(),
        mesh.verts@ == seq![[NEG, NEG, NEG, POS], [NEG, POS, NEG, POS], [POS, POS, NEG, POS]],
        mesh.tris@ == seq![0usize, 1, 2],
        mesh.uvs@ == seq![[0i32, 0], [0i32, 1], [1i32, 1]],
{
    let verts: Vec<GridPoint> = vec![[-1, -1, -1, 1], [-1, 1, -1, 1], [1, 1, -1, 1]];
    let tris: Vec<usize> = vec![0, 1, 2];
    let uvs: Vec<GridUv> = vec![[0, 0], [0, 1], [1, 1]];
    Mesh::new(verts, tris, uvs)
}

/// The index list of the cube: two triangles for each of the faces front,
/// back, left, right, top and bottom.
pub open spec fn cube_indices() -> Seq<usize> {
    seq![
        0usize, 1, 2, 0, 2, 3,
        6, 5, 4, 7, 6, 4,
        4, 5, 1, 4, 1, 0,
        3, 2, 6, 3, 6, 7,
        1, 5, 6, 1, 6, 2,
        7, 4, 0, 3, 7, 0,
    ]
}

/// The corners of the cube: the front face counter-clockwise from the lower
/// left, then the back face in the same order.
pub open spec fn cube_corners() -> Seq<GridPoint> {
    seq![
        [NEG, NEG, NEG, POS],
        [NEG, POS, NEG, POS],
        [POS, POS, NEG, POS],
        [POS, NEG, NEG, POS],
        [NEG, NEG, POS, POS],
        [NEG, POS, POS, POS],
        [POS, POS, POS, POS],
        [POS, NEG, POS, POS],
    ]
}

/// The texture coordinates of the two triangles of a face.
pub open spec fn face_uvs() -> Seq<GridUv> {
    seq![[0i32, 0], [0i32, 1], [1i32, 1], [0i32, 0], [1i32, 1], [1i32, 0]]
}

/// The texture coordinates of the bottom face, whose second triangle starts
/// at another corner.
pub open spec fn bottom_uvs() -> Seq<GridUv> {
    seq![[0i32, 0], [0i32, 1], [1i32, 1], [1i32, 0], [1i32, 1], [0i32, 0]]
}

/// The cube of edge 2 round the origin: 8 corners, 12 triangles, and the
/// whole texture on each face.
pub fn create_cube() -> (mesh: Mesh<GridPoint, GridUv>)
    ensures
        mesh.wf(),
        mesh.verts@ == cube_corners(),
        mesh.tris@ == cube_indices(),
        mesh.uvs@ == face_uvs() + face_uvs() + face_uvs() + face_uvs() + face_uvs() + bottom_uvs(),
        mesh.triangles() == 12,
{
    let verts: Vec<GridPoint> = vec![
        [-1, -1, -1, 1],
        [-1, 1, -1, 1],
        [1, 1, -1, 1],
        [1, -1, -1, 1],
        [-1, -1, 1, 1],
        [-1, 1, 1, 1],
        [1, 1, 1, 1],
        [1, -1, 1, 1],
    ];
    let tris: Vec<usize> = vec![
        0, 1, 2, 0, 2, 3,
        6, 5, 4, 7, 6, 4,
        4, 5, 1, 4, 1, 0,
        3, 2, 6, 3, 6, 7,
        1, 5, 6, 1, 6, 2,
        7, 4, 0, 3, 7, 0,
    ];
    let uvs: Vec<GridUv> = vec![
        [0, 0], [0, 1], [1, 1], [0, 0], [1, 1], [1, 0],
        [0, 0], [0, 1], [1, 1], [0, 0], [1, 1], [1, 0],
        [0, 0], [0, 1], [1, 1], [0, 0], [1, 1], [1, 0],
        [0, 0], [0, 1], [1, 1], [0, 0], [1, 1], [1, 0],
        [0, 0], [0, 1], [1, 1], [0, 0], [1, 1], [1, 0],
        [0, 0], [0, 1], [1, 1], [1, 0], [1, 1], [0, 0],
    ];
    proof {
        assert(verts@ =~= cube_corners());
        assert(tris@ =~= cube_indices());
        assert(uvs@ =~= face_uvs() + face_uvs() + face_uvs() + face_uvs() + face_uvs()
            + bottom_uvs());
    }
    Mesh::new(verts, tris, uvs)
}

} // verus!
