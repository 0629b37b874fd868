//! Unit meshes used to draw every collider: which mesh a shape is drawn
//! with, and the triangle index buffers of the unit cube, sphere and
//! cylinder.

use vstd::prelude::*;

verus! {

/// Number of drawable unit meshes (cube, sphere, cylinder).
pub const MESH_COUNT: usize = 3;

/// Identifies which unit mesh a scene object is drawn with. Objects scale
/// the unit mesh via their model matrix, so a single mesh serves every
/// box, ball or cylinder. `MeshCount` marks the number of drawable meshes
/// and `NotSupported` a shape without a mesh.
#[derive(Clone, Copy, PartialEq, Eq, Structural, Hash, Debug)]
pub enum MeshId {
    /// Unit cube spanning -1..1 on each axis (half-extents of 1).
    Cube,
    /// Unit sphere of radius 1.
    Sphere,
    /// Cylinder of radius 1 and height 1.
    Cylinder,
    MeshCount,
    NotSupported,
}

impl MeshId {
    /// Position of the id in declaration order.
    pub open spec fn slot(self) -> nat {
        match self {
            MeshId::Cube => 0,
            MeshId::Sphere => 1,
            MeshId::Cylinder => 2,
            MeshId::MeshCount => 3,
            MeshId::NotSupported => 4,
        }
    }

    /// A drawable mesh has a unit mesh of its own.
    pub open spec fn is_drawable(self) -> bool {
        self.slot() < MESH_COUNT
    }

    /// Position of the id in declaration order, used to index per-mesh tables.
    pub fn index(self) -> (i: usize)
        ensures
            i == self.slot(),
    {
        match self {
            MeshId::Cube => 0,
            MeshId::Sphere => 1,
            MeshId::Cylinder => 2,
            MeshId::MeshCount => 3,
            MeshId::NotSupported => 4,
        }
    }

    fn from_index(i: usize) -> (id: MeshId)
        requires
            i < MESH_COUNT,
        ensures
            id.slot() == i,
            id.is_drawable(),
    {
        if i == 0 {
            MeshId::Cube
        } else if i == 1 {
            MeshId::Sphere
        } else {
            MeshId::Cylinder
        }
    }

    /// Every drawable mesh id, in declaration order.
    pub fn all_mesh_ids() -> (ids: Vec<MeshId>)
        ensures
            ids@ == drawable_meshes(),
    {
        let mut ids: Vec<MeshId> = Vec::new();
        let mut i: usize = 0;
        while i < MESH_COUNT
            invariant
                i <= MESH_COUNT,
                ids@.len() == i,
                forall|k: int| 0 <= k < i ==> (#[trigger] ids@[k]).slot() == k,
            decreases MESH_COUNT - i,
        {
            ids.push(MeshId::from_index(i));
            i = i + 1;
        }
        assert(ids@ =~= drawable_meshes());
        ids
    }
}

/// The drawable meshes in declaration order.
pub open spec fn drawable_meshes() -> Seq<MeshId> {
    seq![MeshId::Cube, MeshId::Sphere, MeshId::Cylinder]
}


/// The kind of a collider's shape, as far as drawing is concerned.
#[derive(Clone, Copy, PartialEq, Eq, Structural, Debug)]
pub enum ShapeKind {
    Ball,
    Cuboid,
    Cylinder,
    /// Any other shape the physics engine supports.
    Other,
}

impl MeshId {
    /// The unit mesh a shape is drawn with: balls with the sphere, cuboids
    /// with the cube, cylinders with the cylinder; other shapes have none.
    pub fn try_from_shape(kind: ShapeKind) -> (r: Result<MeshId, ()>)
        ensures
            r == match kind {
                ShapeKind::Ball => Ok(MeshId::Sphere),
                ShapeKind::Cuboid => Ok(MeshId::Cube),
                ShapeKind::Cylinder => Ok(MeshId::Cylinder),
                ShapeKind::Other => Err::<MeshId, ()>(()),
            },
            r matches Ok(id) ==> id.is_drawable(),
    {
        match kind {
            ShapeKind::Ball => Ok(MeshId::Sphere),
            ShapeKind::Cuboid => Ok(MeshId::Cube),
            ShapeKind::Cylinder => Ok(MeshId::Cylinder),
            ShapeKind::Other => Err(()),
        }
    }
}

// ---------------------------------------------------------------------------
// Unit cube
// ---------------------------------------------------------------------------

/// Number of vertices of the unit cube: four per face, six faces.
pub const CUBE_VERTEX_COUNT: u32 = 24;

/// Offsets of the two triangles of a face, relative to its first vertex.
pub open spec fn face_corner(k: int) -> int {
    if k == 0 {
        0
    } else if k == 1 {
        1
    } else if k == 2 {
        2
    } else if k == 3 {
        0
    } else if k == 4 {
        2
    } else {
        3
    }
}

/// The `k`-th entry of the cube's index buffer: face `k / 6`, whose four
/// corners are vertices `4 * face .. 4 * face + 4`, split into the triangles
/// (0, 1, 2) and (0, 2, 3).
pub open spec fn cube_index(k: int) -> int {
    4 * (k / 6) + face_corner(k % 6)
}

proof fn lemma_face_offsets(f: int)
    ensures
        (6 * f) / 6 == f && (6 * f) % 6 == 0,
        (6 * f + 1) / 6 == f && (6 * f + 1) % 6 == 1,
        (6 * f + 2) / 6 == f && (6 * f + 2) % 6 == 2,
        (6 * f + 3) / 6 == f && (6 * f + 3) % 6 == 3,
        (6 * f + 4) / 6 == f && (6 * f + 4) % 6 == 4,
        (6 * f + 5) / 6 == f && (6 * f + 5) % 6 == 5,
{
}

proof fn lemma_cube_faces(indices: Seq<u32>)
    requires
        indices.len() == 36,
        forall|k: int| 0 <= k < 36 ==> indices[k] == cube_index(k),
    ensures
        forall|f: int|
            0 <= f < 6 ==> {
                &&& #[trigger] indices[6 * f] == 4 * f
                &&& indices[6 * f + 1] == 4 * f + 1
                &&& indices[6 * f + 2] == 4 * f + 2
                &&& indices[6 * f + 3] == 4 * f
                &&& indices[6 * f + 4] == 4 * f + 2
                &&& indices[6 * f + 5] == 4 * f + 3
            },
{
    assert forall|f: int| 0 <= f < 6 implies {
        &&& #[trigger] indices[6 * f] == 4 * f
        &&& indices[6 * f + 1] == 4 * f + 1
        &&& indices[6 * f + 2] == 4 * f + 2
        &&& indices[6 * f + 3] == 4 * f
        &&& indices[6 * f + 4] == 4 * f + 2
        &&& indices[6 * f + 5] == 4 * f + 3
    } by {
        lemma_face_offsets(f);
        assert(cube_index(6 * f) == 4 * f);
        assert(cube_index(6 * f + 1) == 4 * f + 1);
        assert(cube_index(6 * f + 2) == 4 * f + 2);
        assert(cube_index(6 * f + 3) == 4 * f);
        assert(cube_index(6 * f + 4) == 4 * f + 2);
        assert(cube_index(6 * f + 5) == 4 * f + 3);
    }
}

/// Every face of the unit cube is split into the triangles (0, 1, 2) and
/// (0, 2, 3) of its own four corners, which are vertices `4 * f .. 4 * f + 4`.
pub proof fn lemma_cube_faces_are_two_triangles()
    ensures
        forall|f: int, c: int|
            0 <= f < 6 && 0 <= c < 6 ==> 4 * f <= #[trigger] cube_index(6 * f + c) < 4 * f + 4,
        forall|f: int|
            0 <= f < 6 ==> cube_index(6 * f) == 4 * f && cube_index(6 * f + 1) == 4 * f + 1
                && cube_index(6 * f + 2) == 4 * f + 2 && cube_index(6 * f + 3) == 4 * f
                && #[trigger] cube_index(6 * f + 4) == 4 * f + 2 && cube_index(6 * f + 5) == 4 * f + 3,
{
    assert forall|f: int, c: int|
        0 <= f < 6 && 0 <= c < 6 implies 4 * f <= #[trigger] cube_index(6 * f + c) < 4 * f + 4 by {
        assert((6 * f + c) / 6 == f && (6 * f + c) % 6 == c);
    }
    assert forall|f: int|
        0 <= f < 6 implies cube_index(6 * f) == 4 * f && cube_index(6 * f + 1) == 4 * f + 1
            && cube_index(6 * f + 2) == 4 * f + 2 && cube_index(6 * f + 3) == 4 * f
            && #[trigger] cube_index(6 * f + 4) == 4 * f + 2 && cube_index(6 * f + 5) == 4 * f + 3 by {
        lemma_face_offsets(f);
    }
}

/// Triangle indices of the unit cube, whose vertices are stored four per
/// face, face after face.
pub fn cube_indices() -> (indices: Vec<u32>)
    ensures
        indices@.len() == 36,
        forall|k: int| 0 <= k < 36 ==> indices@[k] == cube_index(k),
        forall|k: int| 0 <= k < 36 ==> indices@[k] < CUBE_VERTEX_COUNT,
        forall|f: int|
            0 <= f < 6 ==> {
                &&& #[trigger] indices@[6 * f] == 4 * f
                &&& indices@[6 * f + 1] == 4 * f + 1
                &&& indices@[6 * f + 2] == 4 * f + 2
                &&& indices@[6 * f + 3] == 4 * f
                &&& indices@[6 * f + 4] == 4 * f + 2
                &&& indices@[6 * f + 5] == 4 * f + 3
            },
{
    let mut indices: Vec<u32> = Vec::with_capacity(36);
    let mut face: u32 = 0;
    while face < 6
        invariant
            face <= 6,
            indices@.len() == 6 * face,
            forall|k: int| 0 <= k < 6 * face ==> indices@[k] == cube_index(k),
        decreases 6 - face,
    {
        let base: u32 = 4 * face;
        let ghost start = indices@.len() as int;
        indices.push(base);
        indices.push(base + 1);
        indices.push(base + 2);
        indices.push(base);
        indices.push(base + 2);
        indices.push(base + 3);
        assert forall|k: int| 0 <= k < 6 * (face + 1) implies indices@[k] == cube_index(k) by {
            if k >= start {
                assert(k / 6 == face as int);
                assert(k % 6 == k - start);
            }
        }
        face = face + 1;
    }
    assert forall|k: int| 0 <= k < 36 implies indices@[k] < CUBE_VERTEX_COUNT by {
        assert(indices@[k] == cube_index(k));
    }
    proof {
        lemma_cube_faces(indices@);
    }
    indices
}


// ---------------------------------------------------------------------------
// Unit sphere
// ---------------------------------------------------------------------------

/// Number of vertices of a UV sphere: `stacks + 1` rings of `sectors + 1`
/// vertices each (the seam vertex is repeated).
pub open spec fn sphere_vertex_count(sectors: int, stacks: int) -> int {
    (stacks + 1) * (sectors + 1)
}

/// Indices emitted for quad `j` of stack `i`: vertex `a` sits on ring `i`
/// and `b` right below it on ring `i + 1`. The upper triangle is left out
/// on the top stack and the lower one on the bottom stack, where they would
/// be degenerate at the poles.
pub open spec fn sphere_quad(sectors: int, stacks: int, i: int, j: int) -> Seq<int> {
    let ring: int = sectors + 1;
    let a: int = i * ring + j;
    let b: int = a + ring;
    (if i != 0 {
        seq![a + 1, b, a]
    } else {
        Seq::<int>::empty()
    }) + (if i != stacks - 1 {
        seq![a + 1, b + 1, b]
    } else {
        Seq::<int>::empty()
    })
}

/// Indices of the first `n` quads of stack `i`.
pub open spec fn sphere_row(sectors: int, stacks: int, i: int, n: nat) -> Seq<int>
    decreases n,
{
    if n == 0 {
        Seq::empty()
    } else {
        sphere_row(sectors, stacks, i, (n - 1) as nat) + sphere_quad(sectors, stacks, i, n - 1)
    }
}

/// Indices of the first `m` stacks.
pub open spec fn sphere_rows(sectors: int, stacks: int, m: nat) -> Seq<int>
    decreases m,
{
    if m == 0 {
        Seq::empty()
    } else {
        sphere_rows(sectors, stacks, (m - 1) as nat) + sphere_row(sectors, stacks, m - 1, sectors as nat)
    }
}

/// The whole index buffer of a UV sphere.
pub open spec fn sphere_index_buffer(sectors: int, stacks: int) -> Seq<int> {
    sphere_rows(sectors, stacks, stacks as nat)
}

proof fn lemma_sphere_quad_bound(sectors: int, stacks: int, i: int, j: int)
    requires
        0 <= i < stacks,
        0 <= j < sectors,
    ensures
        forall|k: int|
            0 <= k < sphere_quad(sectors, stacks, i, j).len() ==> 0 <= #[trigger] sphere_quad(
                sectors,
                stacks,
                i,
                j,
            )[k] < sphere_vertex_count(sectors, stacks),
        sphere_quad(sectors, stacks, i, j).len() == (if i != 0 { 3int } else { 0int }) + (if i
            != stacks - 1 {
            3int
        } else {
            0int
        }),
{
    let ring: int = sectors + 1;
    assert((i + 1) * ring + j + 1 < (stacks + 1) * ring) by (nonlinear_arith)
        requires
            0 <= i < stacks,
            0 <= j < sectors,
            ring == sectors + 1,
    ;
    assert(0 <= i * ring) by (nonlinear_arith)
        requires
            0 <= i,
            0 <= ring,
    ;
    assert((i + 1) * ring == i * ring + ring) by (nonlinear_arith);
}

proof fn lemma_sphere_row(sectors: int, stacks: int, i: int, n: nat)
    requires
        0 <= i < stacks,
        n <= sectors,
    ensures
        forall|k: int|
            0 <= k < sphere_row(sectors, stacks, i, n).len() ==> 0 <= #[trigger] sphere_row(
                sectors,
                stacks,
                i,
                n,
            )[k] < sphere_vertex_count(sectors, stacks),
        sphere_row(sectors, stacks, i, n).len() == n * ((if i != 0 { 3int } else { 0int }) + (
        if i != stacks - 1 {
            3int
        } else {
            0int
        })),
    decreases n,
{
    if n > 0 {
        lemma_sphere_row(sectors, stacks, i, (n - 1) as nat);
        lemma_sphere_quad_bound(sectors, stacks, i, n - 1);
        let r = sphere_row(sectors, stacks, i, (n - 1) as nat);
        let q = sphere_quad(sectors, stacks, i, n - 1);
        assert forall|k: int|
            0 <= k < sphere_row(sectors, stacks, i, n).len() implies 0 <= #[trigger] sphere_row(
            sectors,
            stacks,
            i,
            n,
        )[k] < sphere_vertex_count(sectors, stacks) by {
            if k < r.len() {
                assert(sphere_row(sectors, stacks, i, n)[k] == r[k]);
            } else {
                assert(sphere_row(sectors, stacks, i, n)[k] == q[k - r.len()]);
            }
        }
        let c: int = (if i != 0 { 3int } else { 0int }) + (if i != stacks - 1 { 3int } else { 0int });
        assert(n * c == (n - 1) * c + c) by (nonlinear_arith);
    }
}

proof fn lemma_sphere_rows(sectors: int, stacks: int, m: nat)
    requires
        m <= stacks,
        0 <= sectors,
    ensures
        forall|k: int|
            0 <= k < sphere_rows(sectors, stacks, m).len() ==> 0 <= #[trigger] sphere_rows(
                sectors,
                stacks,
                m,
            )[k] < sphere_vertex_count(sectors, stacks),
    decreases m,
{
    if m > 0 {
        lemma_sphere_rows(sectors, stacks, (m - 1) as nat);
        lemma_sphere_row(sectors, stacks, m - 1, sectors as nat);
        let r = sphere_rows(sectors, stacks, (m - 1) as nat);
        let q = sphere_row(sectors, stacks, m - 1, sectors as nat);
        assert forall|k: int|
            0 <= k < sphere_rows(sectors, stacks, m).len() implies 0 <= #[trigger] sphere_rows(
            sectors,
            stacks,
            m,
        )[k] < sphere_vertex_count(sectors, stacks) by {
            if k < r.len() {
                assert(sphere_rows(sectors, stacks, m)[k] == r[k]);
            } else {
                assert(sphere_rows(sectors, stacks, m)[k] == q[k - r.len()]);
            }
        }
    }
}

/// Every index of a sphere's index buffer names one of its vertices.
pub proof fn lemma_sphere_indices_in_range(sectors: int, stacks: int)
    requires
        0 <= sectors,
        0 <= stacks,
    ensures
        forall|k: int|
            0 <= k < sphere_index_buffer(sectors, stacks).len() ==> 0
                <= #[trigger] sphere_index_buffer(sectors, stacks)[k] < sphere_vertex_count(
                sectors,
                stacks,
            ),
{
    lemma_sphere_rows(sectors, stacks, stacks as nat);
}

proof fn lemma_sphere_rows_len(sectors: int, stacks: int, m: nat)
    requires
        m <= stacks,
        0 <= sectors,
    ensures
        m == 0 ==> sphere_rows(sectors, stacks, m).len() == 0,
        m > 0 ==> sphere_rows(sectors, stacks, m).len() == 3 * sectors * ((m - 1) + (if m == stacks {
            m - 1
        } else {
            m as int
        })),
    decreases m,
{
    if m > 0 {
        lemma_sphere_rows_len(sectors, stacks, (m - 1) as nat);
        lemma_sphere_row(sectors, stacks, m - 1, sectors as nat);
        let i: int = m - 1;
        let c: int = (if i != 0 { 3int } else { 0int }) + (if i != stacks - 1 { 3int } else { 0int });
        let prev: int = if m - 1 == 0 {
            0
        } else {
            3 * sectors * ((m - 2) + (m - 1))
        };
        assert(sphere_rows(sectors, stacks, m).len() == prev + sectors * c);
        let goal: int = 3 * sectors * ((m - 1) + (if m == stacks {
            m - 1
        } else {
            m as int
        }));
        if m == 1 {
            if m == stacks {
                assert(prev + sectors * c == goal) by (nonlinear_arith)
                    requires
                        c == 0,
                        prev == 0,
                        m == 1,
                        m == stacks,
                        goal == 3 * sectors * ((m - 1) + (m - 1)),
                ;
            } else {
                assert(prev + sectors * c == goal) by (nonlinear_arith)
                    requires
                        c == 3,
                        prev == 0,
                        m == 1,
                        goal == 3 * sectors * ((m - 1) + m),
                ;
            }
        } else if m == stacks {
            assert(prev + sectors * c == goal) by (nonlinear_arith)
                requires
                    prev == 3 * sectors * ((m - 2) + (m - 1)),
                    c == 3,
                    goal == 3 * sectors * ((m - 1) + (m - 1)),
            ;
        } else {
            assert(prev + sectors * c == goal) by (nonlinear_arith)
                requires
                    prev == 3 * sectors * ((m - 2) + (m - 1)),
                    c == 6,
                    goal == 3 * sectors * ((m - 1) + m),
            ;
        }
    }
}

/// A sphere with at least one stack has `2 * (stacks - 1)` triangles per
/// sector: the top and bottom stacks contribute one triangle per quad and
/// every other stack two.
pub proof fn lemma_sphere_index_count(sectors: int, stacks: int)
    requires
        0 <= sectors,
        0 <= stacks,
    ensures
        stacks == 0 ==> sphere_index_buffer(sectors, stacks).len() == 0,
        stacks > 0 ==> sphere_index_buffer(sectors, stacks).len() == 6 * sectors * (stacks - 1),
{
    lemma_sphere_rows_len(sectors, stacks, stacks as nat);
    if stacks > 0 {
        assert(3 * sectors * ((stacks - 1) + (stacks - 1)) == 6 * sectors * (stacks - 1))
            by (nonlinear_arith);
    }
}

/// Index of vertex `j` of ring `i` of a UV sphere: rings run from the top
/// pole down, `sectors + 1` vertices each.
pub open spec fn sphere_vertex_index(sectors: int, i: int, j: int) -> int {
    i * (sectors + 1) + j
}

/// Position in the index buffer of the first index of quad `j` of stack
/// `i`: the quads come stack after stack, sector after sector; each stack
/// but the top and the bottom one gives two triangles per quad, those two
/// one (a single stack gives none).
pub open spec fn sphere_quad_start(sectors: int, stacks: int, i: int, j: int) -> int {
    let per_quad: int = (if i != 0 { 3int } else { 0int }) + (if i != stacks - 1 { 3int } else { 0int });
    (if i == 0 { 0 } else { 3 * sectors * (2 * i - 1) }) + j * per_quad
}

proof fn lemma_sphere_row_prefix(sectors: int, stacks: int, i: int, n: nat, big: nat)
    requires
        n <= big,
    ensures
        sphere_row(sectors, stacks, i, n).len() <= sphere_row(sectors, stacks, i, big).len(),
        forall|k: int|
            0 <= k < sphere_row(sectors, stacks, i, n).len() ==> #[trigger] sphere_row(
                sectors,
                stacks,
                i,
                big,
            )[k] == sphere_row(sectors, stacks, i, n)[k],
    decreases big,
{
    if big > n {
        lemma_sphere_row_prefix(sectors, stacks, i, n, (big - 1) as nat);
        let prev = sphere_row(sectors, stacks, i, (big - 1) as nat);
        assert(sphere_row(sectors, stacks, i, big) == prev + sphere_quad(sectors, stacks, i, big - 1));
        assert forall|k: int|
            0 <= k < sphere_row(sectors, stacks, i, n).len() implies #[trigger] sphere_row(
            sectors,
            stacks,
            i,
            big,
        )[k] == sphere_row(sectors, stacks, i, n)[k] by {
            assert(sphere_row(sectors, stacks, i, big)[k] == prev[k]);
        }
    }
}

proof fn lemma_sphere_rows_prefix(sectors: int, stacks: int, m: nat, big: nat)
    requires
        m <= big,
    ensures
        sphere_rows(sectors, stacks, m).len() <= sphere_rows(sectors, stacks, big).len(),
        forall|k: int|
            0 <= k < sphere_rows(sectors, stacks, m).len() ==> #[trigger] sphere_rows(
                sectors,
                stacks,
                big,
            )[k] == sphere_rows(sectors, stacks, m)[k],
    decreases big,
{
    if big > m {
        lemma_sphere_rows_prefix(sectors, stacks, m, (big - 1) as nat);
        let prev = sphere_rows(sectors, stacks, (big - 1) as nat);
        assert(sphere_rows(sectors, stacks, big) == prev + sphere_row(
            sectors,
            stacks,
            big - 1,
            sectors as nat,
        ));
        assert forall|k: int|
            0 <= k < sphere_rows(sectors, stacks, m).len() implies #[trigger] sphere_rows(
            sectors,
            stacks,
            big,
        )[k] == sphere_rows(sectors, stacks, m)[k] by {
            assert(sphere_rows(sectors, stacks, big)[k] == prev[k]);
        }
    }
}

proof fn lemma_sphere_row_whole_triangles(sectors: int, stacks: int, i: int, n: nat)
    ensures
        sphere_row(sectors, stacks, i, n).len() % 3 == 0,
    decreases n,
{
    if n > 0 {
        lemma_sphere_row_whole_triangles(sectors, stacks, i, (n - 1) as nat);
    }
}

proof fn lemma_sphere_rows_whole_triangles(sectors: int, stacks: int, m: nat)
    ensures
        sphere_rows(sectors, stacks, m).len() % 3 == 0,
    decreases m,
{
    if m > 0 {
        lemma_sphere_rows_whole_triangles(sectors, stacks, (m - 1) as nat);
        lemma_sphere_row_whole_triangles(sectors, stacks, m - 1, sectors as nat);
    }
}

/// Where quad `(i, j)` lands in the whole buffer.
proof fn lemma_sphere_quad_offset(sectors: int, stacks: int, i: int, j: int)
    requires
        0 <= i < stacks,
        0 <= j < sectors,
    ensures
        ({
            let off: int = sphere_rows(sectors, stacks, i as nat).len() as int + sphere_row(
                sectors,
                stacks,
                i,
                j as nat,
            ).len() as int;
            let q = sphere_quad(sectors, stacks, i, j);
            let buf = sphere_index_buffer(sectors, stacks);
            &&& off % 3 == 0
            &&& off + q.len() <= buf.len()
            &&& forall|t: int| 0 <= t < q.len() ==> buf[off + t] == #[trigger] q[t]
        }),
{
    let rows_i = sphere_rows(sectors, stacks, i as nat);
    let row_j = sphere_row(sectors, stacks, i, j as nat);
    let row_next = sphere_row(sectors, stacks, i, (j + 1) as nat);
    let row_all = sphere_row(sectors, stacks, i, sectors as nat);
    let rows_next = sphere_rows(sectors, stacks, (i + 1) as nat);
    let buf = sphere_index_buffer(sectors, stacks);
    let q = sphere_quad(sectors, stacks, i, j);
    let off: int = rows_i.len() as int + row_j.len() as int;
    assert(row_next == row_j + q);
    assert(rows_next == rows_i + row_all);
    lemma_sphere_row_prefix(sectors, stacks, i, (j + 1) as nat, sectors as nat);
    lemma_sphere_rows_prefix(sectors, stacks, (i + 1) as nat, stacks as nat);
    lemma_sphere_row_whole_triangles(sectors, stacks, i, j as nat);
    lemma_sphere_rows_whole_triangles(sectors, stacks, i as nat);
    assert forall|t: int| 0 <= t < q.len() implies buf[off + t] == #[trigger] q[t] by {
        assert(row_next[row_j.len() + t] == q[t]);
        assert(row_all[row_j.len() + t] == row_next[row_j.len() + t]);
        assert(rows_next[off + t] == row_all[row_j.len() + t]);
        assert(buf[off + t] == rows_next[off + t]);
    }
}

proof fn lemma_sphere_quad_in_place(sectors: int, stacks: int, indices: Seq<u32>, i: int, j: int)
    requires
        0 <= sectors,
        0 <= i < stacks,
        0 <= j < sectors,
        indices.len() == sphere_index_buffer(sectors, stacks).len(),
        forall|k: int|
            0 <= k < indices.len() ==> indices[k] == sphere_index_buffer(sectors, stacks)[k],
    ensures
        ({
            let p: int = sphere_quad_start(sectors, stacks, i, j);
            let s: int = if i != 0 { 3 } else { 0 };
            &&& 0 <= p
            &&& i != 0 ==> p + 2 < indices.len() && indices[p] == sphere_vertex_index(sectors, i, j + 1)
                && indices[p + 1] == sphere_vertex_index(sectors, i + 1, j) && indices[p + 2]
                == sphere_vertex_index(sectors, i, j)
            &&& i != stacks - 1 ==> p + s + 2 < indices.len() && indices[p + s]
                == sphere_vertex_index(sectors, i, j + 1) && indices[p + s + 1]
                == sphere_vertex_index(sectors, i + 1, j + 1) && indices[p + s + 2]
                == sphere_vertex_index(sectors, i + 1, j)
        }),
{
    lemma_sphere_quad_offset(sectors, stacks, i, j);
    lemma_sphere_row(sectors, stacks, i, j as nat);
    lemma_sphere_rows_len(sectors, stacks, i as nat);
    let rows_len: int = sphere_rows(sectors, stacks, i as nat).len() as int;
    let row_len: int = sphere_row(sectors, stacks, i, j as nat).len() as int;
    let off: int = rows_len + row_len;
    let p: int = sphere_quad_start(sectors, stacks, i, j);
    let c: int = (if i != 0 { 3int } else { 0int }) + (if i != stacks - 1 { 3int } else { 0int });
    assert(row_len == j * c);
    if i > 0 {
        assert(rows_len == 3 * sectors * ((i - 1) + i));
        assert(3 * sectors * ((i - 1) + i) == 3 * sectors * (2 * i - 1)) by (nonlinear_arith);
        assert(0 <= 3 * sectors * (2 * i - 1)) by (nonlinear_arith)
            requires
                0 <= sectors,
                0 < i,
        ;
    }
    assert(off == p);
    assert(0 <= j * c) by (nonlinear_arith)
        requires
            0 <= j,
            0 <= c,
    ;
    let q = sphere_quad(sectors, stacks, i, j);
    let a: int = i * (sectors + 1) + j;
    let b: int = a + (sectors + 1);
    assert((i + 1) * (sectors + 1) + j == b) by (nonlinear_arith)
        requires
            a == i * (sectors + 1) + j,
            b == a + (sectors + 1),
    ;
    assert(sphere_vertex_index(sectors, i + 1, j) == b);
    assert(sphere_vertex_index(sectors, i + 1, j + 1) == b + 1);
    if i != 0 {
        assert(q[0] == a + 1 && q[1] == b && q[2] == a);
        assert(indices[off] == q[0]);
        assert(indices[off + 1] == q[1]);
        assert(indices[off + 2] == q[2]);
    }
    if i != stacks - 1 {
        let s: int = if i != 0 { 3 } else { 0 };
        assert(q[s] == a + 1 && q[s + 1] == b + 1 && q[s + 2] == b);
        assert(indices[off + s] == q[s]);
        assert(indices[off + s + 1] == q[s + 1]);
        assert(indices[off + s + 2] == q[s + 2]);
    }
}

/// Every quad `(i, j)` of a UV sphere is drawn at its place in the buffer:
/// its upper triangle on every stack but the top one, then its lower
/// triangle on every stack but the bottom one.
proof fn lemma_sphere_quads_in_place(sectors: int, stacks: int, indices: Seq<u32>)
    requires
        0 <= sectors,
        0 <= stacks,
        indices.len() == sphere_index_buffer(sectors, stacks).len(),
        forall|k: int|
            0 <= k < indices.len() ==> indices[k] == sphere_index_buffer(sectors, stacks)[k],
    ensures
        forall|i: int, j: int|
            #![trigger sphere_quad_start(sectors, stacks, i, j)]
            0 <= i < stacks && 0 <= j < sectors ==> {
                let p: int = sphere_quad_start(sectors, stacks, i, j);
                let s: int = if i != 0 { 3 } else { 0 };
                &&& 0 <= p
                &&& i != 0 ==> p + 2 < indices.len() && indices[p] == sphere_vertex_index(
                    sectors,
                    i,
                    j + 1,
                ) && indices[p + 1] == sphere_vertex_index(sectors, i + 1, j)
                    && indices[p + 2] == sphere_vertex_index(sectors, i, j)
                &&& i != stacks - 1 ==> p + s + 2 < indices.len() && indices[p + s]
                    == sphere_vertex_index(sectors, i, j + 1) && indices[p + s + 1]
                    == sphere_vertex_index(sectors, i + 1, j + 1) && indices[p + s + 2]
                    == sphere_vertex_index(sectors, i + 1, j)
            },
{
    assert forall|i: int, j: int|
        #![trigger sphere_quad_start(sectors, stacks, i, j)]
        0 <= i < stacks && 0 <= j < sectors implies {
                let p: int = sphere_quad_start(sectors, stacks, i, j);
                let s: int = if i != 0 { 3 } else { 0 };
                &&& 0 <= p
                &&& i != 0 ==> p + 2 < indices.len() && indices[p] == sphere_vertex_index(
                    sectors,
                    i,
                    j + 1,
                ) && indices[p + 1] == sphere_vertex_index(sectors, i + 1, j)
                    && indices[p + 2] == sphere_vertex_index(sectors, i, j)
                &&& i != stacks - 1 ==> p + s + 2 < indices.len() && indices[p + s]
                    == sphere_vertex_index(sectors, i, j + 1) && indices[p + s + 1]
                    == sphere_vertex_index(sectors, i + 1, j + 1) && indices[p + s + 2]
                    == sphere_vertex_index(sectors, i + 1, j)
            } by {
        lemma_sphere_quad_in_place(sectors, stacks, indices, i, j);
    }
}

/// Triangle indices of a UV sphere with the given number of sectors
/// (around) and stacks (top to bottom). Vertices are laid out ring by ring,
/// from the top pole down, `sectors + 1` per ring.
pub fn sphere_indices(sectors: u32, stacks: u32) -> (indices: Vec<u32>)
    requires
        sectors < u32::MAX,
        sphere_vertex_count(sectors as int, stacks as int) <= u32::MAX + 1,
    ensures
        indices@.len() == sphere_index_buffer(sectors as int, stacks as int).len(),
        forall|k: int|
            0 <= k < indices@.len() ==> indices@[k] == sphere_index_buffer(
                sectors as int,
                stacks as int,
            )[k],
        forall|k: int|
            0 <= k < indices@.len() ==> indices@[k] < sphere_vertex_count(
                sectors as int,
                stacks as int,
            ),
        stacks > 0 ==> indices@.len() == 6 * sectors * (stacks - 1),
        stacks == 0 ==> indices@.len() == 0,
        forall|i: int, j: int|
            #![trigger sphere_quad_start(sectors as int, stacks as int, i, j)]
            0 <= i < stacks && 0 <= j < sectors ==> {
                let p: int = sphere_quad_start(sectors as int, stacks as int, i, j);
                let s: int = if i != 0 { 3 } else { 0 };
                &&& 0 <= p
                &&& i != 0 ==> p + 2 < indices@.len() && indices@[p] == sphere_vertex_index(
                    sectors as int,
                    i,
                    j + 1,
                ) && indices@[p + 1] == sphere_vertex_index(sectors as int, i + 1, j)
                    && indices@[p + 2] == sphere_vertex_index(sectors as int, i, j)
                &&& i != stacks - 1 ==> p + s + 2 < indices@.len() && indices@[p + s]
                    == sphere_vertex_index(sectors as int, i, j + 1) && indices@[p + s + 1]
                    == sphere_vertex_index(sectors as int, i + 1, j + 1) && indices@[p + s + 2]
                    == sphere_vertex_index(sectors as int, i + 1, j)
            },
{
    let ghost sec = sectors as int;
    let ghost st = stacks as int;
    let mut indices: Vec<u32> = Vec::new();
    let ring: u32 = sectors + 1;
    let mut i: u32 = 0;
    while i < stacks
        invariant
            i <= stacks,
            ring == sectors + 1,
            sectors < u32::MAX,
            sphere_vertex_count(sec, st) <= u32::MAX + 1,
            sec == sectors,
            st == stacks,
            indices@.len() == sphere_rows(sec, st, i as nat).len(),
            forall|k: int|
                0 <= k < indices@.len() ==> indices@[k] == #[trigger] sphere_rows(
                    sec,
                    st,
                    i as nat,
                )[k],
        decreases stacks - i,
    {
        let ghost before = indices@;
        let mut j: u32 = 0;
        while j < sectors
            invariant
                i < stacks,
                j <= sectors,
                ring == sectors + 1,
                sectors < u32::MAX,
                sphere_vertex_count(sec, st) <= u32::MAX + 1,
                sec == sectors,
                st == stacks,
                before.len() == sphere_rows(sec, st, i as nat).len(),
                forall|k: int| 0 <= k < before.len() ==> before[k] == #[trigger] sphere_rows(sec, st, i as nat)[k],
                indices@.len() == before.len() + sphere_row(sec, st, i as int, j as nat).len(),
                forall|k: int| 0 <= k < before.len() ==> indices@[k] == before[k],
                forall|k: int|
                    0 <= k < sphere_row(sec, st, i as int, j as nat).len() ==> indices@[before.len()
                        + k] == #[trigger] sphere_row(sec, st, i as int, j as nat)[k],
            decreases sectors - j,
        {
            proof {
                assert((i as int + 1) * (ring as int) + j as int + 1 < (st + 1) * (ring as int)) by (nonlinear_arith)
                    requires
                        0 <= i < st,
                        0 <= j < sec,
                        ring == sec + 1,
                ;
                assert((i as int + 1) * (ring as int) == i as int * ring as int + ring as int) by (nonlinear_arith);
                assert(0 <= i as int * ring as int) by (nonlinear_arith)
                    requires 0 <= i, 0 <= ring;
            }
            let a: u32 = i * ring + j;
            let b: u32 = a + ring;
            let ghost mid = indices@;
            let ghost row_before = sphere_row(sec, st, i as int, j as nat);
            if i != 0 {
                indices.push(a + 1);
                indices.push(b);
                indices.push(a);
            }
            if i != stacks - 1 {
                indices.push(a + 1);
                indices.push(b + 1);
                indices.push(b);
            }
            proof {
                let q = sphere_quad(sec, st, i as int, j as int);
                let row_after = sphere_row(sec, st, i as int, (j + 1) as nat);
                assert(row_after == row_before + q);
                assert(indices@ =~= mid + q.map_values(|x: int| x as u32));
                assert forall|k: int| 0 <= k < row_after.len() implies indices@[before.len() + k] == #[trigger] row_after[k] by {
                    if k < row_before.len() {
                        assert(row_after[k] == row_before[k]);
                    } else {
                        assert(row_after[k] == q[k - row_before.len()]);
                    }
                }
            }
            j = j + 1;
        }
        proof {
            let rows_after = sphere_rows(sec, st, (i + 1) as nat);
            let r = sphere_rows(sec, st, i as nat);
            let row = sphere_row(sec, st, i as int, sec as nat);
            assert(rows_after == r + row);
            assert forall|k: int| 0 <= k < indices@.len() implies indices@[k] == #[trigger] rows_after[k] by {
                if k < r.len() {
                    assert(rows_after[k] == r[k]);
                } else {
                    assert(rows_after[k] == row[k - r.len()]);
                    assert(indices@[before.len() + (k - r.len())] == row[k - r.len()]);
                }
            }
        }
        i = i + 1;
    }
    proof {
        lemma_sphere_index_count(sec, st);
        lemma_sphere_indices_in_range(sec, st);
        lemma_sphere_quads_in_place(sec, st, indices@);
        assert forall|k: int| 0 <= k < indices@.len() implies indices@[k] < sphere_vertex_count(
            sec,
            st,
        ) by {
            assert(indices@[k] == sphere_index_buffer(sec, st)[k]);
        }
    }
    indices
}


// ---------------------------------------------------------------------------
// Unit cylinder
// ---------------------------------------------------------------------------

/// Number of vertices of the unit cylinder: four per sector (two on the
/// side, one on each cap) plus the two cap centres.
pub open spec fn cylinder_vertex_count(sectors: int) -> int {
    4 * sectors + 2
}

/// The twelve indices of sector `i`: two side triangles between the edge
/// of sector `i` and the edge of the next sector (wrapping around), one
/// triangle of the top cap and one of the bottom cap. Vertex `4 * i` is the
/// top side vertex of edge `i`, `4 * i + 1` the bottom side vertex,
/// `4 * i + 2` and `4 * i + 3` the top and bottom cap vertices; the cap
/// centres come after all sectors.
pub open spec fn cylinder_sector(sectors: int, i: int) -> Seq<int> {
    let ta: int = 4 * i;
    let tb: int = ((i + 1) % sectors) * 4;
    let top: int = 4 * sectors;
    let bottom: int = top + 1;
    seq![ta, tb, ta + 1, ta + 1, tb, tb + 1, ta + 2, top, tb + 2, tb + 3, bottom, ta + 3]
}

/// The `k`-th entry of the cylinder's index buffer.
pub open spec fn cylinder_index(sectors: int, k: int) -> int {
    cylinder_sector(sectors, k / 12)[k % 12]
}

/// Triangle indices of the unit cylinder with the given number of sectors.
pub fn cylinder_indices(sectors: u32) -> (indices: Vec<u32>)
    requires
        4 * sectors + 1 <= u32::MAX,
    ensures
        indices@.len() == 12 * sectors,
        forall|k: int| 0 <= k < indices@.len() ==> indices@[k] == cylinder_index(sectors as int, k),
        forall|k: int|
            0 <= k < indices@.len() ==> indices@[k] < cylinder_vertex_count(sectors as int),
        forall|i: int|
            0 <= i < sectors ==> {
                let tb: int = 4 * ((i + 1) % (sectors as int));
                &&& #[trigger] indices@[12 * i] == 4 * i
                &&& indices@[12 * i + 1] == tb
                &&& indices@[12 * i + 2] == 4 * i + 1
                &&& indices@[12 * i + 3] == 4 * i + 1
                &&& indices@[12 * i + 4] == tb
                &&& indices@[12 * i + 5] == tb + 1
                &&& indices@[12 * i + 6] == 4 * i + 2
                &&& indices@[12 * i + 7] == 4 * sectors
                &&& indices@[12 * i + 8] == tb + 2
                &&& indices@[12 * i + 9] == tb + 3
                &&& indices@[12 * i + 10] == 4 * sectors + 1
                &&& indices@[12 * i + 11] == 4 * i + 3
            },
{
    let top_center: u32 = sectors * 4;
    let bottom_center: u32 = top_center + 1;
    let mut indices: Vec<u32> = Vec::new();
    let mut i: u32 = 0;
    while i < sectors
        invariant
            i <= sectors,
            4 * sectors + 1 <= u32::MAX,
            top_center == 4 * sectors,
            bottom_center == top_center + 1,
            indices@.len() == 12 * i,
            forall|k: int|
                0 <= k < indices@.len() ==> indices@[k] == cylinder_index(sectors as int, k),
            forall|k: int|
                0 <= k < indices@.len() ==> indices@[k] < cylinder_vertex_count(sectors as int),
        decreases sectors - i,
    {
        let a: u32 = i * 4;
        let b: u32 = ((i + 1) % sectors) * 4;
        let ghost start = indices@.len() as int;
        indices.push(a);
        indices.push(b);
        indices.push(a + 1);
        indices.push(a + 1);
        indices.push(b);
        indices.push(b + 1);
        indices.push(a + 2);
        indices.push(top_center);
        indices.push(b + 2);
        indices.push(b + 3);
        indices.push(bottom_center);
        indices.push(a + 3);
        assert forall|k: int|
            0 <= k < indices@.len() implies indices@[k] == cylinder_index(sectors as int, k) by {
            if k >= start {
                assert(k / 12 == i as int);
                assert(k % 12 == k - start);
            }
        }
        i = i + 1;
    }
    proof {
        lemma_cylinder_sectors(sectors as int, indices@);
    }
    indices
}

proof fn lemma_sector_offsets(i: int)
    ensures
        forall|c: int| 0 <= c < 12 ==> (#[trigger] (12 * i + c)) / 12 == i && (12 * i + c) % 12 == c,
{
    assert forall|c: int| 0 <= c < 12 implies (#[trigger] (12 * i + c)) / 12 == i && (12 * i + c) % 12 == c by {
        assert((12 * i + c) == 12 * i + c);
    }
}

proof fn lemma_cylinder_sectors(sectors: int, indices: Seq<u32>)
    requires
        sectors >= 0,
        indices.len() == 12 * sectors,
        forall|k: int| 0 <= k < indices.len() ==> indices[k] == cylinder_index(sectors, k),
    ensures
        forall|i: int|
            0 <= i < sectors ==> {
                let tb: int = 4 * ((i + 1) % sectors);
                &&& #[trigger] indices[12 * i] == 4 * i
                &&& indices[12 * i + 1] == tb
                &&& indices[12 * i + 2] == 4 * i + 1
                &&& indices[12 * i + 3] == 4 * i + 1
                &&& indices[12 * i + 4] == tb
                &&& indices[12 * i + 5] == tb + 1
                &&& indices[12 * i + 6] == 4 * i + 2
                &&& indices[12 * i + 7] == 4 * sectors
                &&& indices[12 * i + 8] == tb + 2
                &&& indices[12 * i + 9] == tb + 3
                &&& indices[12 * i + 10] == 4 * sectors + 1
                &&& indices[12 * i + 11] == 4 * i + 3
            },
{
    assert forall|i: int| 0 <= i < sectors implies {
        let tb: int = 4 * ((i + 1) % sectors);
        &&& #[trigger] indices[12 * i] == 4 * i
        &&& indices[12 * i + 1] == tb
        &&& indices[12 * i + 2] == 4 * i + 1
        &&& indices[12 * i + 3] == 4 * i + 1
        &&& indices[12 * i + 4] == tb
        &&& indices[12 * i + 5] == tb + 1
        &&& indices[12 * i + 6] == 4 * i + 2
        &&& indices[12 * i + 7] == 4 * sectors
        &&& indices[12 * i + 8] == tb + 2
        &&& indices[12 * i + 9] == tb + 3
        &&& indices[12 * i + 10] == 4 * sectors + 1
        &&& indices[12 * i + 11] == 4 * i + 3
    } by {
        lemma_sector_offsets(i);
        let sec = cylinder_sector(sectors, i);
        assert(indices[12 * i] == sec[0]);
        assert(indices[12 * i + 1] == sec[1]);
        assert(indices[12 * i + 2] == sec[2]);
        assert(indices[12 * i + 3] == sec[3]);
        assert(indices[12 * i + 4] == sec[4]);
        assert(indices[12 * i + 5] == sec[5]);
        assert(indices[12 * i + 6] == sec[6]);
        assert(indices[12 * i + 7] == sec[7]);
        assert(indices[12 * i + 8] == sec[8]);
        assert(indices[12 * i + 9] == sec[9]);
        assert(indices[12 * i + 10] == sec[10]);
        assert(indices[12 * i + 11] == sec[11]);
    }
}

} // verus!
