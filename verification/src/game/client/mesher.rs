use crate::game::world::BlockId;
use crate::util::side::Side;
use vstd::prelude::*;

verus! {

/// One corner of a block face. The position is in blocks, relative to the
/// chunk's origin. `u_far` and `v_far` say on which edge of the block's
/// texture rectangle the corner lies, along each texture axis: the near edge
/// (the rectangle's origin) or the far one.
#[derive(Clone, Copy, PartialEq, Eq, Structural, Debug)]
pub struct Vertex {
    pub x: isize,
    pub y: isize,
    pub z: isize,
    pub u_far: bool,
    pub v_far: bool,
    pub block: BlockId,
}

/// Whether `(x, y, z)` names a cell of a cube of edge `n`.
pub open spec fn in_cube(n: int, x: int, y: int, z: int) -> bool {
    0 <= x < n && 0 <= y < n && 0 <= z < n
}

/// Position of the cell `(x, y, z)` in the linear block array of a cube of
/// edge `n`, and `n`³ for every `(x, y, z)` outside the cube.
pub open spec fn spec_index(n: int, x: int, y: int, z: int) -> int {
    if in_cube(n, x, y, z) {
        z * n * n + y * n + x
    } else {
        n * n * n
    }
}

/// The corner of the block at `(x, y, z)` that is `(dx, dy, dz)` away from
/// the block's origin.
pub open spec fn corner(
    x: int,
    y: int,
    z: int,
    block: BlockId,
    d: (int, int, int),
    u_far: bool,
    v_far: bool,
) -> Vertex {
    Vertex {
        x: (x + d.0) as isize,
        y: (y + d.1) as isize,
        z: (z + d.2) as isize,
        u_far,
        v_far,
        block,
    }
}

/// The four corners of a face, in the order in which its two triangles walk
/// them, each with its texture corner.
pub open spec fn face_quad(side: Side) -> Seq<((int, int, int), bool, bool)> {
    match side {
        Side::Top => seq![
            ((0, 1, 0), false, false),
            ((0, 1, 1), true, false),
            ((1, 1, 1), true, true),
            ((1, 1, 0), false, true),
        ],
        Side::Bottom => seq![
            ((0, 0, 0), false, false),
            ((1, 0, 0), false, true),
            ((1, 0, 1), true, true),
            ((0, 0, 1), true, false),
        ],
        Side::Right => seq![
            ((0, 0, 1), false, false),
            ((1, 0, 1), true, false),
            ((1, 1, 1), true, true),
            ((0, 1, 1), false, true),
        ],
        Side::Left => seq![
            ((0, 0, 0), true, false),
            ((0, 1, 0), true, true),
            ((1, 1, 0), false, true),
            ((1, 0, 0), false, false),
        ],
        Side::Front => seq![
            ((1, 0, 0), true, false),
            ((1, 1, 0), true, true),
            ((1, 1, 1), false, true),
            ((1, 0, 1), false, false),
        ],
        Side::Back => seq![
            ((0, 0, 0), false, false),
            ((0, 0, 1), true, false),
            ((0, 1, 1), true, true),
            ((0, 1, 0), false, true),
        ],
    }
}

/// The six vertices of one face of the block at `(x, y, z)`: the triangle
/// over corners 0, 1, 2 of the face, then the one over corners 2, 3, 0.
pub open spec fn face_vertices(side: Side, x: int, y: int, z: int, block: BlockId) -> Seq<Vertex> {
    let q = face_quad(side);
    let c = |n: int| corner(x, y, z, block, q[n].0, q[n].1, q[n].2);
    seq![c(0), c(1), c(2), c(2), c(3), c(0)]
}

/// The sides of a block in the order in which a mesh lists their faces.
pub open spec fn side_order() -> Seq<Side> {
    seq![Side::Top, Side::Bottom, Side::Right, Side::Left, Side::Front, Side::Back]
}

/// Whether the face of the cell `(x, y, z)` on `side` can be seen: the cell
/// across it lies outside the cube or holds air.
pub open spec fn face_visible(data: Seq<BlockId>, n: int, x: int, y: int, z: int, side: Side) -> bool {
    let d = side.normal();
    !in_cube(n, x + d.0, y + d.1, z + d.2) || data[spec_index(n, x + d.0, y + d.1, z + d.2)]
        == BlockId::air()
}

/// The faces that the first `count` sides, in mesh order, give the cell
/// `(x, y, z)`: every face where `culled` is false, the visible ones where
/// it is true.
pub open spec fn cell_faces(
    data: Seq<BlockId>,
    n: int,
    x: int,
    y: int,
    z: int,
    culled: bool,
    count: int,
) -> Seq<Vertex>
    decreases count,
{
    if count <= 0 {
        Seq::empty()
    } else {
        let side = side_order()[count - 1];
        let before = cell_faces(data, n, x, y, z, culled, count - 1);
        if !culled || face_visible(data, n, x, y, z, side) {
            before + face_vertices(side, x, y, z, data[spec_index(n, x, y, z)])
        } else {
            before
        }
    }
}

/// The vertices of one cell: none for air, else its faces.
pub open spec fn cell_mesh(data: Seq<BlockId>, n: int, x: int, y: int, z: int, culled: bool) -> Seq<
    Vertex,
> {
    if data[spec_index(n, x, y, z)] == BlockId::air() {
        Seq::empty()
    } else {
        cell_faces(data, n, x, y, z, culled, 6)
    }
}

/// The vertices of the cells `(x, y, 0)` to `(x, y, count - 1)`.
pub open spec fn row_mesh(data: Seq<BlockId>, n: int, x: int, y: int, culled: bool, count: int) -> Seq<
    Vertex,
>
    decreases count,
{
    if count <= 0 {
        Seq::empty()
    } else {
        row_mesh(data, n, x, y, culled, count - 1) + cell_mesh(data, n, x, y, count - 1, culled)
    }
}

/// The vertices of the rows `(x, 0)` to `(x, count - 1)`.
pub open spec fn slice_mesh(data: Seq<BlockId>, n: int, x: int, culled: bool, count: int) -> Seq<
    Vertex,
>
    decreases count,
{
    if count <= 0 {
        Seq::empty()
    } else {
        slice_mesh(data, n, x, culled, count - 1) + row_mesh(data, n, x, count - 1, culled, n)
    }
}

/// The vertices of the slices `0` to `count - 1` along x.
pub open spec fn cube_mesh(data: Seq<BlockId>, n: int, culled: bool, count: int) -> Seq<Vertex>
    decreases count,
{
    if count <= 0 {
        Seq::empty()
    } else {
        cube_mesh(data, n, culled, count - 1) + slice_mesh(data, n, count - 1, culled, n)
    }
}

/// The mesh of a cube of edge `n`: cell by cell, x outermost and z innermost,
/// with every face of every block that is not air.
pub open spec fn simple_mesh(data: Seq<BlockId>, n: int) -> Seq<Vertex> {
    cube_mesh(data, n, false, n)
}

/// The mesh of a cube of edge `n`, in the same order, with only those faces
/// whose neighbouring cell is air or lies outside the cube.
pub open spec fn culled_mesh(data: Seq<BlockId>, n: int) -> Seq<Vertex> {
    cube_mesh(data, n, true, n)
}

/// Cells of a cube have positions inside its block array.
pub proof fn lemma_cube_index_in_range(n: int, x: int, y: int, z: int)
    requires
        in_cube(n, x, y, z),
    ensures
        0 <= spec_index(n, x, y, z) < n * n * n,
{
    assert(z * n * n + y * n + x < n * n * n) by (nonlinear_arith)
        requires
            0 <= x < n,
            0 <= y < n,
            0 <= z < n,
    ;
    assert(0 <= z * n * n + y * n + x) by (nonlinear_arith)
        requires
            0 <= x < n,
            0 <= y < n,
            0 <= z < n,
    ;
}

/// The edge of a cube whose volume fits a `usize` fits an `isize`.
proof fn lemma_edge_fits(n: int)
    requires
        0 <= n,
        n * n * n <= usize::MAX,
    ensures
        n < 0x4000_0000,
        n <= isize::MAX,
{
    if n >= 0x40_0000 {
        assert(n * n * n >= 0x40_0000 * 0x40_0000 * 0x40_0000) by (nonlinear_arith)
            requires
                n >= 0x40_0000,
        ;
    }
}

/// Position of a cell in the block array, and the array's length for a
/// coordinate outside the cube.
pub fn index<const CHUNK_SIZE: usize>(x: isize, y: isize, z: isize) -> (v: usize)
    requires
        CHUNK_SIZE * CHUNK_SIZE * CHUNK_SIZE <= usize::MAX,
    ensures
        v == spec_index(CHUNK_SIZE as int, x as int, y as int, z as int),
        v <= CHUNK_SIZE * CHUNK_SIZE * CHUNK_SIZE,
        v < CHUNK_SIZE * CHUNK_SIZE * CHUNK_SIZE <==> in_cube(
            CHUNK_SIZE as int,
            x as int,
            y as int,
            z as int,
        ),
{
    proof {
        lemma_edge_fits(CHUNK_SIZE as int);
        assert(CHUNK_SIZE * CHUNK_SIZE <= CHUNK_SIZE * CHUNK_SIZE * CHUNK_SIZE || CHUNK_SIZE == 0)
            by (nonlinear_arith);
    }
    if CHUNK_SIZE == 0 {
        return 0;
    }
    let area: usize = CHUNK_SIZE * CHUNK_SIZE;
    if x < 0 || y < 0 || z < 0 || x >= CHUNK_SIZE as isize || y >= CHUNK_SIZE as isize || z
        >= CHUNK_SIZE as isize {
        area * CHUNK_SIZE
    } else {
        proof {
            lemma_cube_index_in_range(CHUNK_SIZE as int, x as int, y as int, z as int);
            assert(z * CHUNK_SIZE * CHUNK_SIZE == z * (CHUNK_SIZE * CHUNK_SIZE)) by (nonlinear_arith);
            assert(0 <= z * (CHUNK_SIZE * CHUNK_SIZE) <= z * CHUNK_SIZE * CHUNK_SIZE + y * CHUNK_SIZE)
                by (nonlinear_arith)
                requires
                    0 <= y,
                    0 <= z,
            ;
            assert(0 <= y * CHUNK_SIZE <= z * CHUNK_SIZE * CHUNK_SIZE + y * CHUNK_SIZE)
                by (nonlinear_arith)
                requires
                    0 <= y,
                    0 <= z,
            ;
        }
        (z as usize) * area + (y as usize) * CHUNK_SIZE + (x as usize)
    }
}

/// The six vertices of the face of the block at `(i, j, k)` on `side`.
pub fn block_face(side: Side, i: isize, j: isize, k: isize, block: BlockId) -> (face: [Vertex; 6])
    requires
        i < isize::MAX,
        j < isize::MAX,
        k < isize::MAX,
    ensures
        face@ == face_vertices(side, i as int, j as int, k as int, block),
{
    let i1: isize = i + 1;
    let j1: isize = j + 1;
    let k1: isize = k + 1;
    let face = match side {
        Side::Top => [
            Vertex { x: i, y: j1, z: k, u_far: false, v_far: false, block },
            Vertex { x: i, y: j1, z: k1, u_far: true, v_far: false, block },
            Vertex { x: i1, y: j1, z: k1, u_far: true, v_far: true, block },
            Vertex { x: i1, y: j1, z: k1, u_far: true, v_far: true, block },
            Vertex { x: i1, y: j1, z: k, u_far: false, v_far: true, block },
            Vertex { x: i, y: j1, z: k, u_far: false, v_far: false, block },
        ],
        Side::Bottom => [
            Vertex { x: i, y: j, z: k, u_far: false, v_far: false, block },
            Vertex { x: i1, y: j, z: k, u_far: false, v_far: true, block },
            Vertex { x: i1, y: j, z: k1, u_far: true, v_far: true, block },
            Vertex { x: i1, y: j, z: k1, u_far: true, v_far: true, block },
            Vertex { x: i, y: j, z: k1, u_far: true, v_far: false, block },
            Vertex { x: i, y: j, z: k, u_far: false, v_far: false, block },
        ],
        Side::Right => [
            Vertex { x: i, y: j, z: k1, u_far: false, v_far: false, block },
            Vertex { x: i1, y: j, z: k1, u_far: true, v_far: false, block },
            Vertex { x: i1, y: j1, z: k1, u_far: true, v_far: true, block },
            Vertex { x: i1, y: j1, z: k1, u_far: true, v_far: true, block },
            Vertex { x: i, y: j1, z: k1, u_far: false, v_far: true, block },
            Vertex { x: i, y: j, z: k1, u_far: false, v_far: false, block },
        ],
        Side::Left => [
            Vertex { x: i, y: j, z: k, u_far: true, v_far: false, block },
            Vertex { x: i, y: j1, z: k, u_far: true, v_far: true, block },
            Vertex { x: i1, y: j1, z: k, u_far: false, v_far: true, block },
            Vertex { x: i1, y: j1, z: k, u_far: false, v_far: true, block },
            Vertex { x: i1, y: j, z: k, u_far: false, v_far: false, block },
            Vertex { x: i, y: j, z: k, u_far: true, v_far: false, block },
        ],
        Side::Front => [
            Vertex { x: i1, y: j, z: k, u_far: true, v_far: false, block },
            Vertex { x: i1, y: j1, z: k, u_far: true, v_far: true, block },
            Vertex { x: i1, y: j1, z: k1, u_far: false, v_far: true, block },
            Vertex { x: i1, y: j1, z: k1, u_far: false, v_far: true, block },
            Vertex { x: i1, y: j, z: k1, u_far: false, v_far: false, block },
            Vertex { x: i1, y: j, z: k, u_far: true, v_far: false, block },
        ],
        Side::Back => [
            Vertex { x: i, y: j, z: k, u_far: false, v_far: false, block },
            Vertex { x: i, y: j, z: k1, u_far: true, v_far: false, block },
            Vertex { x: i, y: j1, z: k1, u_far: true, v_far: true, block },
            Vertex { x: i, y: j1, z: k1, u_far: true, v_far: true, block },
            Vertex { x: i, y: j1, z: k, u_far: false, v_far: true, block },
            Vertex { x: i, y: j, z: k, u_far: false, v_far: false, block },
        ],
    };
    assert(face@ =~= face_vertices(side, i as int, j as int, k as int, block));
    face
}

/// Position of a cell of the cube in the block array. The meshers look up
/// blocks through this function alone, so they never ask for the position
/// of a cell outside the cube.
fn cell_index<const CHUNK_SIZE: usize>(x: isize, y: isize, z: isize) -> (v: usize)
    requires
        CHUNK_SIZE * CHUNK_SIZE * CHUNK_SIZE <= usize::MAX,
        in_cube(CHUNK_SIZE as int, x as int, y as int, z as int),
    ensures
        v == spec_index(CHUNK_SIZE as int, x as int, y as int, z as int),
        v < CHUNK_SIZE * CHUNK_SIZE * CHUNK_SIZE,
{
    index::<CHUNK_SIZE>(x, y, z)
}

/// Appends a face to a mesh.
fn push_face(vertices: &mut Vec<Vertex>, face: [Vertex; 6])
    ensures
        final(vertices)@ == old(vertices)@ + face@,
{
    let mut n: usize = 0;
    while n < 6
        invariant
            n <= 6,
            vertices@ == old(vertices)@ + face@.take(n as int),
        decreases 6 - n,
    {
        vertices.push(face[n]);
        assert(face@.take(n as int + 1) =~= face@.take(n as int).push(face@[n as int]));
        assert(vertices@ =~= old(vertices)@ + face@.take(n as int + 1));
        n += 1;
    }
    assert(face@.take(6) =~= face@);
}

/// Whether the cell across `side` from `(x, y, z)` is air or outside the
/// cube. A cell outside the cube is never looked up.
fn neighbor_open<const CHUNK_SIZE: usize>(
    data: &[BlockId],
    x: isize,
    y: isize,
    z: isize,
    side: Side,
) -> (open: bool)
    requires
        data@.len() == CHUNK_SIZE * CHUNK_SIZE * CHUNK_SIZE,
        CHUNK_SIZE * CHUNK_SIZE * CHUNK_SIZE <= usize::MAX,
        in_cube(CHUNK_SIZE as int, x as int, y as int, z as int),
    ensures
        open == face_visible(data@, CHUNK_SIZE as int, x as int, y as int, z as int, side),
{
    proof {
        lemma_edge_fits(CHUNK_SIZE as int);
    }
    let (nx, ny, nz) = match side {
        Side::Top => (x, y + 1, z),
        Side::Bottom => (x, y - 1, z),
        Side::Right => (x, y, z + 1),
        Side::Left => (x, y, z - 1),
        Side::Front => (x + 1, y, z),
        Side::Back => (x - 1, y, z),
    };
    let edge = CHUNK_SIZE as isize;
    if nx < 0 || ny < 0 || nz < 0 || nx >= edge || ny >= edge || nz >= edge {
        true
    } else {
        data[cell_index::<CHUNK_SIZE>(nx, ny, nz)].is_air()
    }
}

/// Appends the faces of the cell `(x, y, z)` to a mesh.
fn push_cell<const CHUNK_SIZE: usize>(
    vertices: &mut Vec<Vertex>,
    data: &[BlockId],
    x: isize,
    y: isize,
    z: isize,
    culled: bool,
)
    requires
        data@.len() == CHUNK_SIZE * CHUNK_SIZE * CHUNK_SIZE,
        CHUNK_SIZE * CHUNK_SIZE * CHUNK_SIZE <= usize::MAX,
        in_cube(CHUNK_SIZE as int, x as int, y as int, z as int),
    ensures
        final(vertices)@ == old(vertices)@ + cell_mesh(
            data@,
            CHUNK_SIZE as int,
            x as int,
            y as int,
            z as int,
            culled,
        ),
{
    proof {
        lemma_edge_fits(CHUNK_SIZE as int);
    }
    let block = data[cell_index::<CHUNK_SIZE>(x, y, z)];
    if block.is_air() {
        assert(vertices@ =~= old(vertices)@ + Seq::<Vertex>::empty());
        return ;
    }
    let sides = [Side::Top, Side::Bottom, Side::Right, Side::Left, Side::Front, Side::Back];
    assert(sides@ =~= side_order());
    let mut s: usize = 0;
    while s < 6
        invariant
            s <= 6,
            sides@ == side_order(),
            data@.len() == CHUNK_SIZE * CHUNK_SIZE * CHUNK_SIZE,
            CHUNK_SIZE * CHUNK_SIZE * CHUNK_SIZE <= usize::MAX,
            in_cube(CHUNK_SIZE as int, x as int, y as int, z as int),
            CHUNK_SIZE <= isize::MAX,
            block == data@[spec_index(CHUNK_SIZE as int, x as int, y as int, z as int)],
            vertices@ == old(vertices)@ + cell_faces(
                data@,
                CHUNK_SIZE as int,
                x as int,
                y as int,
                z as int,
                culled,
                s as int,
            ),
        decreases 6 - s,
    {
        let side = sides[s];
        if !culled || neighbor_open::<CHUNK_SIZE>(data, x, y, z, side) {
            push_face(vertices, block_face(side, x, y, z, block));
            assert(vertices@ =~= old(vertices)@ + cell_faces(
                data@,
                CHUNK_SIZE as int,
                x as int,
                y as int,
                z as int,
                culled,
                s as int + 1,
            ));
        }
        s += 1;
    }
}

/// Builds the mesh of a cube, with or without culling.
fn mesh<const CHUNK_SIZE: usize>(data: &[BlockId], culled: bool) -> (vertices: Vec<Vertex>)
    requires
        data@.len() == CHUNK_SIZE * CHUNK_SIZE * CHUNK_SIZE,
    ensures
        vertices@ == cube_mesh(data@, CHUNK_SIZE as int, culled, CHUNK_SIZE as int),
{
    let total = data.len();
    proof {
        lemma_edge_fits(CHUNK_SIZE as int);
    }
    let ghost n = CHUNK_SIZE as int;
    let mut vertices: Vec<Vertex> = Vec::new();
    let mut i: usize = 0;
    while i < CHUNK_SIZE
        invariant
            i <= CHUNK_SIZE,
            n == CHUNK_SIZE,
            CHUNK_SIZE <= isize::MAX,
            CHUNK_SIZE * CHUNK_SIZE * CHUNK_SIZE <= usize::MAX,
            data@.len() == CHUNK_SIZE * CHUNK_SIZE * CHUNK_SIZE,
            vertices@ == cube_mesh(data@, n, culled, i as int),
        decreases CHUNK_SIZE - i,
    {
        let mut j: usize = 0;
        while j < CHUNK_SIZE
            invariant
                i < CHUNK_SIZE,
                j <= CHUNK_SIZE,
                n == CHUNK_SIZE,
                CHUNK_SIZE <= isize::MAX,
                CHUNK_SIZE * CHUNK_SIZE * CHUNK_SIZE <= usize::MAX,
                data@.len() == CHUNK_SIZE * CHUNK_SIZE * CHUNK_SIZE,
                vertices@ == cube_mesh(data@, n, culled, i as int) + slice_mesh(
                    data@,
                    n,
                    i as int,
                    culled,
                    j as int,
                ),
            decreases CHUNK_SIZE - j,
        {
            let mut k: usize = 0;
            while k < CHUNK_SIZE
                invariant
                    i < CHUNK_SIZE,
                    j < CHUNK_SIZE,
                    k <= CHUNK_SIZE,
                    n == CHUNK_SIZE,
                    CHUNK_SIZE <= isize::MAX,
                    CHUNK_SIZE * CHUNK_SIZE * CHUNK_SIZE <= usize::MAX,
                    data@.len() == CHUNK_SIZE * CHUNK_SIZE * CHUNK_SIZE,
                    vertices@ == cube_mesh(data@, n, culled, i as int) + slice_mesh(
                        data@,
                        n,
                        i as int,
                        culled,
                        j as int,
                    ) + row_mesh(data@, n, i as int, j as int, culled, k as int),
                decreases CHUNK_SIZE - k,
            {
                push_cell::<CHUNK_SIZE>(
                    &mut vertices,
                    data,
                    i as isize,
                    j as isize,
                    k as isize,
                    culled,
                );
                assert(vertices@ =~= cube_mesh(data@, n, culled, i as int) + slice_mesh(
                    data@,
                    n,
                    i as int,
                    culled,
                    j as int,
                ) + row_mesh(data@, n, i as int, j as int, culled, k as int + 1));
                k += 1;
            }
            assert(vertices@ =~= cube_mesh(data@, n, culled, i as int) + slice_mesh(
                data@,
                n,
                i as int,
                culled,
                j as int + 1,
            ));
            j += 1;
        }
        assert(vertices@ =~= cube_mesh(data@, n, culled, i as int + 1));
        i += 1;
    }
    vertices
}

/// The mesh with all six faces of every block that is not air.
pub fn simple<const CHUNK_SIZE: usize>(data: &[BlockId]) -> (vertices: Vec<Vertex>)
    requires
        data@.len() == CHUNK_SIZE * CHUNK_SIZE * CHUNK_SIZE,
    ensures
        vertices@ == simple_mesh(data@, CHUNK_SIZE as int),
{
    mesh::<CHUNK_SIZE>(data, false)
}

/// The mesh with only the faces that can be seen from outside their block:
/// those whose neighbouring cell is air or lies outside the cube.
pub fn culled<const CHUNK_SIZE: usize>(data: &[BlockId]) -> (vertices: Vec<Vertex>)
    requires
        data@.len() == CHUNK_SIZE * CHUNK_SIZE * CHUNK_SIZE,
    ensures
        vertices@ == culled_mesh(data@, CHUNK_SIZE as int),
{
    mesh::<CHUNK_SIZE>(data, true)
}

proof fn lemma_cell_faces_len(data: Seq<BlockId>, n: int, x: int, y: int, z: int, count: int)
    requires
        0 <= count <= 6,
    ensures
        cell_faces(data, n, x, y, z, true, count).len() <= cell_faces(
            data,
            n,
            x,
            y,
            z,
            false,
            count,
        ).len(),
        cell_faces(data, n, x, y, z, false, count).len() == 6 * count,
    decreases count,
{
    if count > 0 {
        lemma_cell_faces_len(data, n, x, y, z, count - 1);
    }
}

proof fn lemma_row_len(data: Seq<BlockId>, n: int, x: int, y: int, count: int)
    ensures
        row_mesh(data, n, x, y, true, count).len() <= row_mesh(data, n, x, y, false, count).len(),
    decreases count,
{
    if count > 0 {
        lemma_row_len(data, n, x, y, count - 1);
        lemma_cell_faces_len(data, n, x, y, count - 1, 6);
    }
}

proof fn lemma_slice_len(data: Seq<BlockId>, n: int, x: int, count: int)
    ensures
        slice_mesh(data, n, x, true, count).len() <= slice_mesh(data, n, x, false, count).len(),
    decreases count,
{
    if count > 0 {
        lemma_slice_len(data, n, x, count - 1);
        lemma_row_len(data, n, x, count - 1, n);
    }
}

proof fn lemma_cube_len(data: Seq<BlockId>, n: int, count: int)
    ensures
        cube_mesh(data, n, true, count).len() <= cube_mesh(data, n, false, count).len(),
    decreases count,
{
    if count > 0 {
        lemma_cube_len(data, n, count - 1);
        lemma_slice_len(data, n, count - 1, n);
    }
}

/// Culling never adds a vertex: the culled mesh of a cube is at most as long
/// as its mesh with every face.
pub proof fn lemma_culled_no_longer_than_simple(data: Seq<BlockId>, n: int)
    ensures
        culled_mesh(data, n).len() <= simple_mesh(data, n).len(),
{
    lemma_cube_len(data, n, n);
}

/// Whether every cell of a cube of edge `n` holds air.
pub open spec fn all_air(data: Seq<BlockId>, n: int) -> bool {
    forall|i: int| 0 <= i < n * n * n ==> data[i] == BlockId::air()
}

proof fn lemma_air_row(data: Seq<BlockId>, n: int, x: int, y: int, culled: bool, count: int)
    requires
        all_air(data, n),
        0 <= x < n,
        0 <= y < n,
        count <= n,
    ensures
        row_mesh(data, n, x, y, culled, count) == Seq::<Vertex>::empty(),
    decreases count,
{
    if count > 0 {
        lemma_air_row(data, n, x, y, culled, count - 1);
        lemma_cube_index_in_range(n, x, y, count - 1);
    }
}

proof fn lemma_air_slice(data: Seq<BlockId>, n: int, x: int, culled: bool, count: int)
    requires
        all_air(data, n),
        0 <= x < n,
        count <= n,
    ensures
        slice_mesh(data, n, x, culled, count) == Seq::<Vertex>::empty(),
    decreases count,
{
    if count > 0 {
        lemma_air_slice(data, n, x, culled, count - 1);
        lemma_air_row(data, n, x, count - 1, culled, n);
    }
}

proof fn lemma_air_cube(data: Seq<BlockId>, n: int, culled: bool, count: int)
    requires
        all_air(data, n),
        count <= n,
    ensures
        cube_mesh(data, n, culled, count) == Seq::<Vertex>::empty(),
    decreases count,
{
    if count > 0 {
        lemma_air_cube(data, n, culled, count - 1);
        lemma_air_slice(data, n, count - 1, culled, n);
    }
}

/// A cube of air has no mesh, culled or not.
pub proof fn lemma_air_has_no_mesh(data: Seq<BlockId>, n: int)
    requires
        all_air(data, n),
    ensures
        culled_mesh(data, n).len() == 0,
        simple_mesh(data, n).len() == 0,
{
    lemma_air_cube(data, n, true, n);
    lemma_air_cube(data, n, false, n);
}

/// A block that is not air and has air all around it contributes all of its
/// six faces to the culled mesh too.
pub proof fn lemma_open_block_keeps_all_faces(data: Seq<BlockId>, n: int, x: int, y: int, z: int)
    requires
        forall|s: int| 0 <= s < 6 ==> face_visible(data, n, x, y, z, #[trigger] side_order()[s]),
    ensures
        cell_mesh(data, n, x, y, z, true) == cell_mesh(data, n, x, y, z, false),
{
    lemma_open_cell_faces(data, n, x, y, z, 6);
}

proof fn lemma_open_cell_faces(data: Seq<BlockId>, n: int, x: int, y: int, z: int, count: int)
    requires
        0 <= count <= 6,
        forall|s: int| 0 <= s < 6 ==> face_visible(data, n, x, y, z, #[trigger] side_order()[s]),
    ensures
        cell_faces(data, n, x, y, z, true, count) == cell_faces(data, n, x, y, z, false, count),
    decreases count,
{
    if count > 0 {
        lemma_open_cell_faces(data, n, x, y, z, count - 1);
    }
}

/// The coordinate of a point along the axis that `side` faces: x for front
/// and back, y for top and bottom, z for right and left.
pub open spec fn along(side: Side, p: (int, int, int)) -> int {
    match side {
        Side::Top | Side::Bottom => p.1,
        Side::Right | Side::Left => p.2,
        Side::Front | Side::Back => p.0,
    }
}

/// The face of a block on `side` is a unit square in the plane of that
/// side: its four corners are four different corners of the block, all on
/// the side of the block that `side` names, and its two triangles share the
/// diagonal from corner 0 to corner 2.
pub proof fn lemma_face_is_a_square(side: Side, x: int, y: int, z: int, block: BlockId)
    ensures
        face_vertices(side, x, y, z, block).len() == 6,
        face_vertices(side, x, y, z, block)[0] == face_vertices(side, x, y, z, block)[5],
        face_vertices(side, x, y, z, block)[2] == face_vertices(side, x, y, z, block)[3],
        forall|n: int|
            0 <= n < 4 ==> {
                let d = (#[trigger] face_quad(side)[n]).0;
                &&& 0 <= d.0 <= 1 && 0 <= d.1 <= 1 && 0 <= d.2 <= 1
                &&& along(side, d) == if along(side, side.normal()) > 0 {
                    1int
                } else {
                    0int
                }
            },
        forall|n: int, m: int|
            0 <= n < m < 4 ==> (#[trigger] face_quad(side)[n]).0 != (#[trigger] face_quad(side)[m]).0,
        forall|n: int, m: int|
            0 <= n < m < 4 ==> ((#[trigger] face_quad(side)[n]).1, face_quad(side)[n].2) != (
                (#[trigger] face_quad(side)[m]).1,
                face_quad(side)[m].2,
            ),
{
}

} // verus!
