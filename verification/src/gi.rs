use vstd::prelude::*;

verus! {

/// Coefficients of a third-order spherical harmonics expansion.
pub const SH_BASIS_COUNT: usize = 9;

/// Three vertex indices in ascending order.
pub open spec fn is_sorted_three(t: (i32, i32, i32)) -> bool {
    t.0 <= t.1 <= t.2
}

/// `a`, `b`, `c` in ascending order.
pub open spec fn sorted3(a: i32, b: i32, c: i32) -> (i32, i32, i32) {
    let (x, y) = if a < b {
        (a, b)
    } else {
        (b, a)
    };
    if c < x {
        (c, x, y)
    } else if c < y {
        (x, c, y)
    } else {
        (x, y, c)
    }
}

/// The three indices in ascending order.
pub fn sort_three(v0: i32, v1: i32, v2: i32) -> (r: (i32, i32, i32))
    ensures
        r == sorted3(v0, v1, v2),
        is_sorted_three(r),
        r == (v0, v1, v2) || r == (v0, v2, v1) || r == (v1, v0, v2) || r == (v1, v2, v0) || r == (
            v2,
            v0,
            v1,
        ) || r == (v2, v1, v0),
{
    let (a, b) = if v0 < v1 {
        (v0, v1)
    } else {
        (v1, v0)
    };
    let r = if v2 < a {
        (v2, a, b)
    } else if v2 < b {
        (a, v2, b)
    } else {
        (a, b, v2)
    };
    r
}

/// Each of `a`, `b`, `c` is one of the three sorted values, and each sorted
/// value is one of them.
proof fn lemma_sorted3(a: i32, b: i32, c: i32)
    ensures
        is_sorted_three(sorted3(a, b, c)),
        has_corner3(sorted3(a, b, c), a),
        has_corner3(sorted3(a, b, c), b),
        has_corner3(sorted3(a, b, c), c),
        forall|v: i32| has_corner3(sorted3(a, b, c), v) ==> v == a || v == b || v == c,
{
}

/// Corner `k` of a triangle.
pub open spec fn corner3(t: (i32, i32, i32), k: int) -> i32 {
    if k == 0 {
        t.0
    } else if k == 1 {
        t.1
    } else {
        t.2
    }
}

/// Whether `v` is a corner of triangle `t`.
pub open spec fn has_corner3(t: (i32, i32, i32), v: i32) -> bool {
    t.0 == v || t.1 == v || t.2 == v
}

/// Corner `k` of a tetrahedron.
pub open spec fn corner4(t: (i32, i32, i32, i32), k: int) -> i32 {
    if k == 0 {
        t.0
    } else if k == 1 {
        t.1
    } else if k == 2 {
        t.2
    } else {
        t.3
    }
}

/// Whether `v` is a corner of tetrahedron `t`.
pub open spec fn has_corner4(t: (i32, i32, i32, i32), v: i32) -> bool {
    t.0 == v || t.1 == v || t.2 == v || t.3 == v
}

/// Whether `v` is a corner of tetrahedron `t` other than its corner `j`.
pub open spec fn has_other_corner4(t: (i32, i32, i32, i32), j: int, v: i32) -> bool {
    (j != 0 && t.0 == v) || (j != 1 && t.1 == v) || (j != 2 && t.2 == v) || (j != 3 && t.3 == v)
}

/// Whether the corners of a tetrahedron are four different vertices.
pub open spec fn distinct4(t: (i32, i32, i32, i32)) -> bool {
    t.0 != t.1 && t.0 != t.2 && t.0 != t.3 && t.1 != t.2 && t.1 != t.3 && t.2 != t.3
}

/// How light probes are placed.
#[derive(Debug, Clone, Copy, PartialEq, Eq, Structural)]
pub enum PlaceMethod {
    Uniform,
    Adaptive,
}

/// The cells `(x, y, z)` with `z < nz`, for a fixed `x` and `y`.
pub open spec fn grid_row(x: u32, y: u32, nz: u32) -> Seq<(u32, u32, u32)> {
    Seq::new(nz as nat, |z: int| (x, y, z as u32))
}

/// The rows `y < k` of plane `x`, in order.
pub open spec fn grid_plane(x: u32, k: u32, nz: u32) -> Seq<(u32, u32, u32)>
    decreases k,
{
    if k == 0 {
        Seq::empty()
    } else {
        grid_plane(x, (k - 1) as u32, nz) + grid_row(x, (k - 1) as u32, nz)
    }
}

/// The planes `x < k` of an `_ x ny x nz` grid, in order.
pub open spec fn grid_cells(k: u32, ny: u32, nz: u32) -> Seq<(u32, u32, u32)>
    decreases k,
{
    if k == 0 {
        Seq::empty()
    } else {
        grid_cells((k - 1) as u32, ny, nz) + grid_plane((k - 1) as u32, ny, nz)
    }
}

/// The cells of a uniform probe grid: none when an axis has fewer than two
/// probes, else every `(x, y, z)` with `x` slowest and `z` fastest.
pub open spec fn uniform_cells(nx: u32, ny: u32, nz: u32) -> Seq<(u32, u32, u32)> {
    if nx < 2 || ny < 2 || nz < 2 {
        Seq::empty()
    } else {
        grid_cells(nx, ny, nz)
    }
}

proof fn lemma_plane_len(x: u32, k: u32, nz: u32)
    ensures
        grid_plane(x, k, nz).len() == k * nz,
    decreases k,
{
    if k > 0 {
        let p = (k - 1) as u32;
        lemma_plane_len(x, p, nz);
        assert(k * nz == p * nz + nz) by (nonlinear_arith)
            requires
                p == k - 1,
        ;
    }
}

/// A grid of `nx` planes holds `nx * ny * nz` cells.
pub proof fn lemma_grid_len(nx: u32, ny: u32, nz: u32)
    ensures
        grid_cells(nx, ny, nz).len() == nx * ny * nz,
    decreases nx,
{
    if nx > 0 {
        let p = (nx - 1) as u32;
        lemma_grid_len(p, ny, nz);
        lemma_plane_len(p, ny, nz);
        assert(grid_cells(nx, ny, nz).len() == grid_cells(p, ny, nz).len() + grid_plane(p, ny, nz).len());
        assert(nx * ny * nz == p * ny * nz + ny * nz) by (nonlinear_arith)
            requires
                p == nx - 1,
        ;
    } else {
        assert(0 * ny * nz == 0) by (nonlinear_arith);
    }
}

/// The position of cell `c` in an `_ x ny x nz` grid taken with `x`
/// slowest and `z` fastest.
pub open spec fn grid_index(ny: u32, nz: u32, c: (u32, u32, u32)) -> int {
    (c.0 * ny + c.1) * nz + c.2
}

proof fn lemma_plane_shape(x: u32, k: u32, nz: u32)
    ensures
        forall|i: int|
            0 <= i < grid_plane(x, k, nz).len() ==> (#[trigger] grid_plane(x, k, nz)[i]).0 == x
                && grid_plane(x, k, nz)[i].1 < k && grid_plane(x, k, nz)[i].2 < nz && i == grid_plane(x, k, nz)[i].1
                * nz + grid_plane(x, k, nz)[i].2,
    decreases k,
{
    if k > 0 {
        let p = (k - 1) as u32;
        lemma_plane_shape(x, p, nz);
        lemma_plane_len(x, p, nz);
        let a = grid_plane(x, p, nz);
        let b = grid_row(x, p, nz);
        assert forall|i: int| 0 <= i < grid_plane(x, k, nz).len() implies (#[trigger] grid_plane(x, k, nz)[i]).0 == x
            && grid_plane(x, k, nz)[i].1 < k && grid_plane(x, k, nz)[i].2 < nz && i == grid_plane(x, k, nz)[i].1 * nz
            + grid_plane(x, k, nz)[i].2 by {
            if i < a.len() {
                assert(grid_plane(x, k, nz)[i] == a[i]);
            } else {
                let j = i - a.len();
                assert(grid_plane(x, k, nz)[i] == b[j]);
                assert(b[j] == (x, p, j as u32));
            }
        }
    }
}

proof fn lemma_cells_shape(k: u32, ny: u32, nz: u32)
    ensures
        forall|i: int|
            0 <= i < grid_cells(k, ny, nz).len() ==> (#[trigger] grid_cells(k, ny, nz)[i]).0 < k
                && grid_cells(k, ny, nz)[i].1 < ny && grid_cells(k, ny, nz)[i].2 < nz && i == grid_index(
                ny,
                nz,
                grid_cells(k, ny, nz)[i],
            ),
    decreases k,
{
    if k > 0 {
        let p = (k - 1) as u32;
        lemma_cells_shape(p, ny, nz);
        lemma_grid_len(p, ny, nz);
        lemma_plane_shape(p, ny, nz);
        lemma_plane_len(p, ny, nz);
        let a = grid_cells(p, ny, nz);
        let b = grid_plane(p, ny, nz);
        assert forall|i: int| 0 <= i < grid_cells(k, ny, nz).len() implies (#[trigger] grid_cells(k, ny, nz)[i]).0 < k
            && grid_cells(k, ny, nz)[i].1 < ny && grid_cells(k, ny, nz)[i].2 < nz && i == grid_index(
            ny,
            nz,
            grid_cells(k, ny, nz)[i],
        ) by {
            if i < a.len() {
                assert(grid_cells(k, ny, nz)[i] == a[i]);
            } else {
                let j = i - a.len();
                assert(grid_cells(k, ny, nz)[i] == b[j]);
                let y = b[j].1;
                let z = b[j].2;
                assert(j == y * nz + z);
                assert(a.len() == p * ny * nz);
                assert((p * ny + y) * nz + z == p * ny * nz + (y * nz + z)) by (nonlinear_arith);
            }
        }
    }
}

/// Uniform placement, as a law over the axis counts: no cell at all when
/// an axis has fewer than two probes; otherwise exactly `nx * ny * nz`
/// cells, each `(x, y, z)` within the grid and at position
/// `(x * ny + y) * nz + z`, so no cell comes twice.
pub proof fn lemma_uniform_grid_exact(nx: u32, ny: u32, nz: u32)
    ensures
        nx < 2 || ny < 2 || nz < 2 ==> uniform_cells(nx, ny, nz).len() == 0,
        !(nx < 2 || ny < 2 || nz < 2) ==> uniform_cells(nx, ny, nz).len() == nx * ny * nz,
        forall|i: int|
            0 <= i < uniform_cells(nx, ny, nz).len() ==> (#[trigger] uniform_cells(nx, ny, nz)[i]).0 < nx
                && uniform_cells(nx, ny, nz)[i].1 < ny && uniform_cells(nx, ny, nz)[i].2 < nz && i == grid_index(
                ny,
                nz,
                uniform_cells(nx, ny, nz)[i],
            ),
        forall|i: int, j: int|
            0 <= i < j < uniform_cells(nx, ny, nz).len() ==> #[trigger] uniform_cells(nx, ny, nz)[i]
                != #[trigger] uniform_cells(nx, ny, nz)[j],
{
    lemma_grid_len(nx, ny, nz);
    lemma_cells_shape(nx, ny, nz);
}

/// The grid cells of a uniform probe placement, in placement order.
pub fn uniform_grid(nx: u32, ny: u32, nz: u32) -> (r: Vec<(u32, u32, u32)>)
    ensures
        r@ == uniform_cells(nx, ny, nz),
        nx < 2 || ny < 2 || nz < 2 ==> r@.len() == 0,
        !(nx < 2 || ny < 2 || nz < 2) ==> r@.len() == nx * ny * nz,
        forall|i: int|
            0 <= i < r@.len() ==> (#[trigger] r@[i]).0 < nx && r@[i].1 < ny && r@[i].2 < nz && i == grid_index(ny, nz, r@[i]),
{
    proof {
        lemma_uniform_grid_exact(nx, ny, nz);
    }
    let mut r: Vec<(u32, u32, u32)> = Vec::new();
    if nx < 2 || ny < 2 || nz < 2 {
        return r;
    }
    let mut x: u32 = 0;
    while x < nx
        invariant
            x <= nx,
            r@ == grid_cells(x, ny, nz),
        decreases nx - x,
    {
        let ghost before_plane = r@;
        let mut y: u32 = 0;
        while y < ny
            invariant
                x < nx,
                y <= ny,
                r@ == before_plane + grid_plane(x, y, nz),
                before_plane == grid_cells(x, ny, nz),
            decreases ny - y,
        {
            let ghost before_row = r@;
            let mut z: u32 = 0;
            while z < nz
                invariant
                    x < nx,
                    y < ny,
                    z <= nz,
                    r@ == before_row + grid_row(x, y, nz).take(z as int),
                decreases nz - z,
            {
                r.push((x, y, z));
                z = z + 1;
                assert(r@ =~= before_row + grid_row(x, y, nz).take(z as int));
            }
            y = y + 1;
            assert(grid_row(x, (y - 1) as u32, nz).take(nz as int) =~= grid_row(x, (y - 1) as u32, nz));
            assert(r@ =~= before_plane + grid_plane(x, y, nz));
        }
        x = x + 1;
        assert(r@ =~= grid_cells(x, ny, nz));
    }
    r
}

/// Face `index` of tetrahedron `tetrahedron`: its three vertices in
/// ascending order and the vertex opposite to it.
#[derive(Debug, Clone, Copy, PartialEq, Eq)]
pub struct TetFace {
    pub tetrahedron: usize,
    pub index: usize,
    pub vertices: (i32, i32, i32),
    pub opposite: i32,
}

/// The four faces of tetrahedron `i` with vertices `t`; face `j` is the one
/// opposite vertex `j`.
pub open spec fn four_faces(i: usize, t: (i32, i32, i32, i32)) -> Seq<TetFace> {
    seq![
        TetFace { tetrahedron: i, index: 0, vertices: sorted3(t.1, t.3, t.2), opposite: t.0 },
        TetFace { tetrahedron: i, index: 1, vertices: sorted3(t.0, t.2, t.3), opposite: t.1 },
        TetFace { tetrahedron: i, index: 2, vertices: sorted3(t.0, t.3, t.1), opposite: t.2 },
        TetFace { tetrahedron: i, index: 3, vertices: sorted3(t.0, t.1, t.2), opposite: t.3 },
    ]
}

/// The faces of every tetrahedron, four by four in tetrahedron order.
pub open spec fn faces_of(tets: Seq<(i32, i32, i32, i32)>) -> Seq<TetFace>
    decreases tets.len(),
{
    if tets.len() == 0 {
        Seq::empty()
    } else {
        faces_of(tets.drop_last()) + four_faces((tets.len() - 1) as usize, tets.last())
    }
}

proof fn lemma_faces_len(tets: Seq<(i32, i32, i32, i32)>)
    ensures
        faces_of(tets).len() == 4 * tets.len(),
    decreases tets.len(),
{
    if tets.len() > 0 {
        lemma_faces_len(tets.drop_last());
    }
}

/// The first face at or after `k` with the vertices of face `i`, or -1.
pub open spec fn next_same_face(faces: Seq<TetFace>, i: int, k: int) -> int
    decreases faces.len() - k,
{
    if k < 0 || k >= faces.len() {
        -1
    } else if faces[k].vertices == faces[i].vertices {
        k
    } else {
        next_same_face(faces, i, k + 1)
    }
}

proof fn lemma_next_same_face(faces: Seq<TetFace>, i: int, k: int)
    requires
        0 <= k,
    ensures
        next_same_face(faces, i, k) == -1 || (k <= next_same_face(faces, i, k) < faces.len()
            && faces[next_same_face(faces, i, k)].vertices == faces[i].vertices),
        next_same_face(faces, i, k) == -1 ==> forall|q: int|
            k <= q < faces.len() ==> (#[trigger] faces[q]).vertices != faces[i].vertices,
    decreases faces.len() - k,
{
    if k < faces.len() && faces[k].vertices != faces[i].vertices {
        lemma_next_same_face(faces, i, k + 1);
    }
}

/// Where matching the faces stands: which faces are still unpaired, the
/// neighbour entries written so far (tetrahedron, face, neighbour), and the
/// faces found to have no twin.
pub struct FaceMatching {
    pub open: Seq<bool>,
    pub links: Seq<(usize, usize, usize)>,
    pub outer: Seq<TetFace>,
}

/// The matching after the first `n` faces were taken in turn: a face still
/// unpaired is paired with the first later face with the same vertices (two
/// neighbour entries, one for each side), or, when there is none, is an
/// outer face.
pub open spec fn match_faces_upto(faces: Seq<TetFace>, n: int) -> FaceMatching
    decreases n,
{
    if n <= 0 {
        FaceMatching { open: Seq::new(faces.len(), |f: int| true), links: Seq::empty(), outer: Seq::empty() }
    } else {
        let m = match_faces_upto(faces, n - 1);
        let i = n - 1;
        if !m.open[i] {
            m
        } else {
            let k = next_same_face(faces, i, i + 1);
            if k >= 0 {
                FaceMatching {
                    open: m.open.update(i, false).update(k, false),
                    links: m.links.push((faces[i].tetrahedron, faces[i].index, faces[k].tetrahedron)).push(
                        (faces[k].tetrahedron, faces[k].index, faces[i].tetrahedron),
                    ),
                    outer: m.outer,
                }
            } else {
                FaceMatching { outer: m.outer.push(faces[i]), ..m }
            }
        }
    }
}

proof fn lemma_open_len(faces: Seq<TetFace>, n: int)
    ensures
        match_faces_upto(faces, n).open.len() == faces.len(),
    decreases n,
{
    if n > 0 {
        lemma_open_len(faces, n - 1);
        if match_faces_upto(faces, n - 1).open[n - 1] {
            lemma_next_same_face(faces, n - 1, n);
        }
    }
}

/// Neighbour entries come in pairs, one for each side of a shared face: the
/// entry at `2j` says that tetrahedron `a` borders `b`, the next one that
/// `b` borders `a`.
pub proof fn lemma_links_paired(faces: Seq<TetFace>, n: int)
    ensures
        match_faces_upto(faces, n).links.len() % 2 == 0,
        forall|j: int|
            #![trigger match_faces_upto(faces, n).links[2 * j + 1]]
            0 <= j < match_faces_upto(faces, n).links.len() / 2 ==> match_faces_upto(faces, n).links[2 * j].0
                == match_faces_upto(faces, n).links[2 * j + 1].2 && match_faces_upto(faces, n).links[2 * j].2
                == match_faces_upto(faces, n).links[2 * j + 1].0,
    decreases n,
{
    if n > 0 {
        lemma_links_paired(faces, n - 1);
        let m = match_faces_upto(faces, n - 1);
        let r = match_faces_upto(faces, n);
        if r.links.len() != m.links.len() {
            let len = m.links.len() as int;
            assert(r.links.len() == len + 2);
            assert forall|j: int| 0 <= j < r.links.len() / 2 implies r.links[2 * j].0 == #[trigger] r.links[2 * j
                + 1].2 && r.links[2 * j].2 == r.links[2 * j + 1].0 by {
                if j < len / 2 {
                    assert(r.links[2 * j] == m.links[2 * j]);
                    assert(r.links[2 * j + 1] == m.links[2 * j + 1]);
                } else {
                    assert(2 * j == len);
                }
            }
        }
    }
}

/// The matching once every face of `tets` was taken.
pub open spec fn face_matching(tets: Seq<(i32, i32, i32, i32)>) -> FaceMatching {
    match_faces_upto(faces_of(tets), faces_of(tets).len() as int)
}

/// Whether `f` is face `f.index` of tetrahedron `f.tetrahedron` of `tets`:
/// the face opposite that corner, which is its opposite vertex, with the
/// other three corners, in ascending order, as its vertices.
pub open spec fn is_face_of(tets: Seq<(i32, i32, i32, i32)>, f: TetFace) -> bool {
    let t = tets[f.tetrahedron as int];
    &&& f.tetrahedron < tets.len()
    &&& f.index < 4
    &&& f.opposite == corner4(t, f.index as int)
    &&& is_sorted_three(f.vertices)
    &&& f.index != 0 ==> has_corner3(f.vertices, t.0)
    &&& f.index != 1 ==> has_corner3(f.vertices, t.1)
    &&& f.index != 2 ==> has_corner3(f.vertices, t.2)
    &&& f.index != 3 ==> has_corner3(f.vertices, t.3)
    &&& has_other_corner4(t, f.index as int, f.vertices.0)
    &&& has_other_corner4(t, f.index as int, f.vertices.1)
    &&& has_other_corner4(t, f.index as int, f.vertices.2)
}

/// Whether neighbour entry `(a, j, b)` links tetrahedron `a` of `tets` to
/// tetrahedron `b` across face `j` of `a`: every corner of `a` other than
/// its `j`-th is a corner of `b`.
pub open spec fn links_across_face(tets: Seq<(i32, i32, i32, i32)>, e: (usize, usize, usize)) -> bool {
    &&& e.0 < tets.len()
    &&& e.2 < tets.len()
    &&& e.1 < 4
    &&& forall|k: int|
        0 <= k < 4 && k != e.1 ==> #[trigger] has_corner4(tets[e.2 as int], corner4(tets[e.0 as int], k))
}

proof fn lemma_four_faces(tets: Seq<(i32, i32, i32, i32)>, i: usize)
    requires
        i < tets.len(),
    ensures
        forall|q: int| 0 <= q < 4 ==> is_face_of(tets, #[trigger] four_faces(i, tets[i as int])[q]),
{
    let t = tets[i as int];
    lemma_sorted3(t.1, t.3, t.2);
    lemma_sorted3(t.0, t.2, t.3);
    lemma_sorted3(t.0, t.3, t.1);
    lemma_sorted3(t.0, t.1, t.2);
}

/// Every face of `faces_of(tets)` is a face of its tetrahedron.
proof fn lemma_faces_of_ok(tets: Seq<(i32, i32, i32, i32)>)
    requires
        tets.len() <= usize::MAX,
    ensures
        forall|p: int| 0 <= p < faces_of(tets).len() ==> is_face_of(tets, #[trigger] faces_of(tets)[p]),
    decreases tets.len(),
{
    lemma_faces_len(tets);
    if tets.len() > 0 {
        let d = tets.drop_last();
        let n = (tets.len() - 1) as usize;
        lemma_faces_of_ok(d);
        lemma_faces_len(d);
        lemma_four_faces(tets, n);
        assert(tets.last() == tets[n as int]);
        assert forall|p: int| 0 <= p < faces_of(tets).len() implies is_face_of(tets, #[trigger] faces_of(tets)[p]) by {
            if p < faces_of(d).len() {
                let f = faces_of(d)[p];
                assert(faces_of(tets)[p] == f);
                assert(is_face_of(d, f));
                assert(d[f.tetrahedron as int] == tets[f.tetrahedron as int]);
            } else {
                assert(faces_of(tets)[p] == four_faces(n, tets[n as int])[p - faces_of(d).len()]);
            }
        }
    }
}

/// Two faces with the same vertices link their tetrahedra across them.
proof fn lemma_shared_face(tets: Seq<(i32, i32, i32, i32)>, f: TetFace, g: TetFace)
    requires
        is_face_of(tets, f),
        is_face_of(tets, g),
        f.vertices == g.vertices,
    ensures
        links_across_face(tets, (f.tetrahedron, f.index, g.tetrahedron)),
{
    let a = tets[f.tetrahedron as int];
    let b = tets[g.tetrahedron as int];
    assert forall|k: int| 0 <= k < 4 && k != f.index implies #[trigger] has_corner4(b, corner4(a, k)) by {
        assert(has_corner3(f.vertices, corner4(a, k)));
    }
}

/// The outer faces of a matching are faces of their tetrahedra, and its
/// neighbour entries link tetrahedra across a face they share.
proof fn lemma_matching_ok(tets: Seq<(i32, i32, i32, i32)>, faces: Seq<TetFace>, n: int)
    requires
        0 <= n <= faces.len(),
        forall|p: int| 0 <= p < faces.len() ==> is_face_of(tets, #[trigger] faces[p]),
    ensures
        forall|m: int|
            0 <= m < match_faces_upto(faces, n).outer.len() ==> is_face_of(tets, #[trigger] match_faces_upto(faces, n).outer[m]),
        forall|m: int|
            0 <= m < match_faces_upto(faces, n).links.len() ==> links_across_face(tets, #[trigger] match_faces_upto(faces, n).links[m]),
    decreases n,
{
    if n > 0 {
        lemma_matching_ok(tets, faces, n - 1);
        lemma_open_len(faces, n - 1);
        let m = match_faces_upto(faces, n - 1);
        let r = match_faces_upto(faces, n);
        let i = n - 1;
        if m.open[i] {
            let k = next_same_face(faces, i, i + 1);
            lemma_next_same_face(faces, i, i + 1);
            if k >= 0 {
                lemma_shared_face(tets, faces[i], faces[k]);
                lemma_shared_face(tets, faces[k], faces[i]);
                assert forall|q: int| 0 <= q < r.links.len() implies links_across_face(tets, #[trigger] r.links[q]) by {
                    if q < m.links.len() {
                        assert(r.links[q] == m.links[q]);
                    }
                }
            } else {
                assert forall|q: int| 0 <= q < r.outer.len() implies is_face_of(tets, #[trigger] r.outer[q]) by {
                    if q < m.outer.len() {
                        assert(r.outer[q] == m.outer[q]);
                    }
                }
            }
        }
    }
}

/// The corners of tetrahedron `t` other than its `j`-th, ascending: the
/// face opposite corner `j`.
pub open spec fn face_opposite(t: (i32, i32, i32, i32), j: int) -> (i32, i32, i32) {
    if j == 0 {
        sorted3(t.1, t.2, t.3)
    } else if j == 1 {
        sorted3(t.0, t.2, t.3)
    } else if j == 2 {
        sorted3(t.0, t.1, t.3)
    } else {
        sorted3(t.0, t.1, t.2)
    }
}

/// The position of face `j` of tetrahedron `t` in face order.
pub open spec fn face_pos(t: int, j: int) -> int {
    4 * t + j
}

/// Whether some neighbour entry is written for face `j` of tetrahedron `t`.
pub open spec fn face_linked(links: Seq<(usize, usize, usize)>, t: int, j: int) -> bool {
    exists|x: int| #![trigger links[x]] 0 <= x < links.len() && links[x].0 == t && links[x].1 == j
}

/// Whether face `j` of tetrahedron `t` is among the outer faces.
pub open spec fn face_outer(outer: Seq<TetFace>, t: int, j: int) -> bool {
    exists|x: int| #![trigger outer[x]] 0 <= x < outer.len() && outer[x].tetrahedron == t && outer[x].index == j
}

/// Face `j` of tetrahedron `t` stands at position `4t + j` of the face
/// order, with the corners opposite corner `j` as its vertices.
proof fn lemma_faces_at(tets: Seq<(i32, i32, i32, i32)>)
    requires
        tets.len() <= usize::MAX,
    ensures
        faces_of(tets).len() == 4 * tets.len(),
        forall|t: int, j: int|
            0 <= t < tets.len() && 0 <= j < 4 ==> (#[trigger] faces_of(tets)[face_pos(t, j)]).tetrahedron == t
                && faces_of(tets)[face_pos(t, j)].index == j && faces_of(tets)[face_pos(t, j)].vertices == face_opposite(tets[t], j),
        forall|p: int|
            0 <= p < faces_of(tets).len() ==> p == face_pos((#[trigger] faces_of(tets)[p]).tetrahedron as int, faces_of(tets)[p].index as int),
    decreases tets.len(),
{
    lemma_faces_len(tets);
    if tets.len() > 0 {
        let d = tets.drop_last();
        let n = tets.len() - 1;
        lemma_faces_at(d);
        let lt = tets[n];
        assert(tets.last() == lt);
        assert(sorted3(lt.1, lt.3, lt.2) == sorted3(lt.1, lt.2, lt.3));
        assert(sorted3(lt.0, lt.3, lt.1) == sorted3(lt.0, lt.1, lt.3));
        assert forall|t: int, j: int| 0 <= t < tets.len() && 0 <= j < 4 implies (#[trigger] faces_of(tets)[face_pos(t, j)]).tetrahedron == t
            && faces_of(tets)[face_pos(t, j)].index == j && faces_of(tets)[face_pos(t, j)].vertices == face_opposite(tets[t], j) by {
            if t < n {
                assert(faces_of(tets)[face_pos(t, j)] == faces_of(d)[face_pos(t, j)]);
                assert(d[t] == tets[t]);
            } else {
                assert(faces_of(tets)[face_pos(t, j)] == four_faces(n as usize, lt)[j]);
            }
        }
        assert forall|p: int| 0 <= p < faces_of(tets).len() implies p == face_pos((#[trigger] faces_of(tets)[p]).tetrahedron as int, faces_of(tets)[p].index as int) by {
            if p < 4 * n {
                assert(faces_of(tets)[p] == faces_of(d)[p]);
            } else {
                assert(faces_of(tets)[p] == four_faces(n as usize, lt)[p - 4 * n]);
            }
        }
    }
}

/// After the first `n` faces were taken, every face taken or already
/// paired is either linked or outer, and every outer face has no face with
/// the same vertices after it.
proof fn lemma_matching_complete(faces: Seq<TetFace>, n: int)
    requires
        0 <= n <= faces.len(),
        forall|p: int| 0 <= p < faces.len() ==> p == face_pos((#[trigger] faces[p]).tetrahedron as int, faces[p].index as int),
    ensures
        forall|p: int|
            0 <= p < faces.len() && (p < n || !match_faces_upto(faces, n).open[p]) ==> face_linked(
                match_faces_upto(faces, n).links,
                (#[trigger] faces[p]).tetrahedron as int,
                faces[p].index as int,
            ) || face_outer(match_faces_upto(faces, n).outer, faces[p].tetrahedron as int, faces[p].index as int),
        forall|x: int, q: int|
            0 <= x < match_faces_upto(faces, n).outer.len() && face_pos(
                match_faces_upto(faces, n).outer[x].tetrahedron as int,
                match_faces_upto(faces, n).outer[x].index as int,
            ) < q < faces.len() ==> (#[trigger] faces[q]).vertices != (#[trigger] match_faces_upto(faces, n).outer[x]).vertices,
        forall|x: int|
            0 <= x < match_faces_upto(faces, n).outer.len() ==> 0 <= face_pos(
                (#[trigger] match_faces_upto(faces, n).outer[x]).tetrahedron as int,
                match_faces_upto(faces, n).outer[x].index as int,
            ) < faces.len() && faces[face_pos(
                match_faces_upto(faces, n).outer[x].tetrahedron as int,
                match_faces_upto(faces, n).outer[x].index as int,
            )] == match_faces_upto(faces, n).outer[x],
    decreases n,
{
    lemma_open_len(faces, n);
    if n > 0 {
        lemma_matching_complete(faces, n - 1);
        lemma_open_len(faces, n - 1);
        let m = match_faces_upto(faces, n - 1);
        let r = match_faces_upto(faces, n);
        let i = n - 1;
        if m.open[i] {
            let k = next_same_face(faces, i, i + 1);
            lemma_next_same_face(faces, i, i + 1);
            let fi = faces[i];
            if k >= 0 {
                let fk = faces[k];
                let len = m.links.len() as int;
                assert(r.links[len] == (fi.tetrahedron, fi.index, fk.tetrahedron));
                assert(r.links[len + 1] == (fk.tetrahedron, fk.index, fi.tetrahedron));
                assert forall|p: int|
                    0 <= p < faces.len() && (p < n || !r.open[p]) implies face_linked(
                    r.links,
                    (#[trigger] faces[p]).tetrahedron as int,
                    faces[p].index as int,
                ) || face_outer(r.outer, faces[p].tetrahedron as int, faces[p].index as int) by {
                    if p == i {
                        assert(face_linked(r.links, fi.tetrahedron as int, fi.index as int));
                    } else if p == k {
                        assert(face_linked(r.links, fk.tetrahedron as int, fk.index as int));
                    } else {
                        assert(r.open[p] == m.open[p]);
                        let fp = faces[p];
                        if face_linked(m.links, fp.tetrahedron as int, fp.index as int) {
                            let x = choose|x: int| #![trigger m.links[x]] 0 <= x < m.links.len() && m.links[x].0 == fp.tetrahedron
                                && m.links[x].1 == fp.index;
                            assert(r.links[x] == m.links[x]);
                        }
                    }
                }
            } else {
                let len = m.outer.len() as int;
                assert(r.outer[len] == fi);
                assert(i == face_pos(fi.tetrahedron as int, fi.index as int));
                assert forall|p: int|
                    0 <= p < faces.len() && (p < n || !r.open[p]) implies face_linked(
                    r.links,
                    (#[trigger] faces[p]).tetrahedron as int,
                    faces[p].index as int,
                ) || face_outer(r.outer, faces[p].tetrahedron as int, faces[p].index as int) by {
                    if p == i {
                        assert(face_outer(r.outer, fi.tetrahedron as int, fi.index as int));
                    } else {
                        let fp = faces[p];
                        if face_outer(m.outer, fp.tetrahedron as int, fp.index as int) {
                            let x = choose|x: int| #![trigger m.outer[x]] 0 <= x < m.outer.len() && m.outer[x].tetrahedron == fp.tetrahedron
                                && m.outer[x].index == fp.index;
                            assert(r.outer[x] == m.outer[x]);
                        }
                    }
                }
                assert forall|x: int, q: int|
                    0 <= x < r.outer.len() && face_pos(r.outer[x].tetrahedron as int, r.outer[x].index as int) < q < faces.len()
                    implies (#[trigger] faces[q]).vertices != (#[trigger] r.outer[x]).vertices by {
                    if x < len {
                        assert(r.outer[x] == m.outer[x]);
                    }
                }
                assert forall|x: int| 0 <= x < r.outer.len() implies 0 <= face_pos(
                    (#[trigger] r.outer[x]).tetrahedron as int,
                    r.outer[x].index as int,
                ) < faces.len() && faces[face_pos(r.outer[x].tetrahedron as int, r.outer[x].index as int)] == r.outer[x] by {
                    if x < len {
                        assert(r.outer[x] == m.outer[x]);
                    }
                }
            }
        }
    }
}

/// Face pairing covers every face, as a law over the tetrahedra: each face
/// `j` of each tetrahedron `t` either gets a neighbour entry or is an outer
/// face; an outer face is the face opposite its corner; and no face of any
/// tetrahedron later in face order has the same corners as an outer face.
pub proof fn lemma_face_matching_complete(tets: Seq<(i32, i32, i32, i32)>)
    requires
        tets.len() <= usize::MAX,
    ensures
        forall|t: int, j: int|
            0 <= t < tets.len() && 0 <= j < 4 ==> #[trigger] face_linked(face_matching(tets).links, t, j) || #[trigger] face_outer(
                face_matching(tets).outer,
                t,
                j,
            ),
        forall|x: int|
            0 <= x < face_matching(tets).outer.len() ==> (#[trigger] face_matching(tets).outer[x]).vertices == face_opposite(
                tets[face_matching(tets).outer[x].tetrahedron as int],
                face_matching(tets).outer[x].index as int,
            ),
        forall|x: int, t: int, j: int|
            0 <= x < face_matching(tets).outer.len() && 0 <= t < tets.len() && 0 <= j < 4 && face_pos(
                face_matching(tets).outer[x].tetrahedron as int,
                face_matching(tets).outer[x].index as int,
            ) < face_pos(t, j) ==> #[trigger] face_opposite(tets[t], j) != (#[trigger] face_matching(tets).outer[x]).vertices,
{
    let fs = faces_of(tets);
    lemma_faces_at(tets);
    lemma_faces_of_ok(tets);
    lemma_matching_ok(tets, fs, fs.len() as int);
    lemma_matching_complete(fs, fs.len() as int);
    let fm = face_matching(tets);
    assert forall|t: int, j: int| 0 <= t < tets.len() && 0 <= j < 4 implies #[trigger] face_linked(fm.links, t, j) || #[trigger] face_outer(
        fm.outer,
        t,
        j,
    ) by {
        let p = face_pos(t, j);
        assert(fs[p].tetrahedron == t && fs[p].index == j);
    }
    assert forall|x: int| 0 <= x < fm.outer.len() implies (#[trigger] fm.outer[x]).vertices == face_opposite(
        tets[fm.outer[x].tetrahedron as int],
        fm.outer[x].index as int,
    ) by {
        let f = fm.outer[x];
        let p = face_pos(f.tetrahedron as int, f.index as int);
        assert(fs[p] == f);
        assert(is_face_of(tets, f));
        assert(fs[p].tetrahedron == f.tetrahedron && fs[p].index == f.index && fs[p].vertices == face_opposite(
            tets[f.tetrahedron as int],
            f.index as int,
        ));
    }
    assert forall|x: int, t: int, j: int|
        0 <= x < fm.outer.len() && 0 <= t < tets.len() && 0 <= j < 4 && face_pos(fm.outer[x].tetrahedron as int, fm.outer[x].index as int)
            < face_pos(t, j) implies #[trigger] face_opposite(tets[t], j) != (#[trigger] fm.outer[x]).vertices by {
        let q = face_pos(t, j);
        assert(fs[q].vertices == face_opposite(tets[t], j));
    }
}

/// Face pairing, as a law over the tetrahedra: every outer face is face
/// `index` of its tetrahedron (the one opposite its corner `index`, which
/// is its opposite vertex; the other corners, ascending, are its vertices),
/// so for four different corners the opposite vertex is not on the face;
/// and every neighbour entry `(a, j, b)` links `a` to `b` across face `j`
/// of `a`, whose corners are all corners of `b`.
pub proof fn lemma_face_matching_sound(tets: Seq<(i32, i32, i32, i32)>)
    requires
        tets.len() <= usize::MAX,
    ensures
        forall|m: int|
            0 <= m < face_matching(tets).outer.len() ==> is_face_of(tets, #[trigger] face_matching(tets).outer[m]),
        forall|m: int|
            0 <= m < face_matching(tets).outer.len() && distinct4(tets[face_matching(tets).outer[m].tetrahedron as int])
                ==> !has_corner3(face_matching(tets).outer[m].vertices, #[trigger] face_matching(tets).outer[m].opposite),
        forall|m: int|
            0 <= m < face_matching(tets).links.len() ==> links_across_face(tets, #[trigger] face_matching(tets).links[m]),
{
    lemma_faces_of_ok(tets);
    lemma_matching_ok(tets, faces_of(tets), faces_of(tets).len() as int);
}

/// The faces of tetrahedra `tets` (each given by its four vertices),
/// paired up: the neighbour entries that pairing writes, in order, and the
/// faces left without a twin.
pub fn match_tetrahedron_faces(tets: &Vec<(i32, i32, i32, i32)>) -> (r: (Vec<(usize, usize, usize)>, Vec<TetFace>))
    requires
        4 * tets@.len() <= usize::MAX,
    ensures
        r.0@ == face_matching(tets@).links,
        r.1@ == face_matching(tets@).outer,
        forall|m: int| 0 <= m < r.1@.len() ==> is_face_of(tets@, #[trigger] r.1@[m]),
        forall|m: int| 0 <= m < r.0@.len() ==> links_across_face(tets@, #[trigger] r.0@[m]),
        forall|t: int, j: int|
            0 <= t < tets@.len() && 0 <= j < 4 ==> #[trigger] face_linked(r.0@, t, j) || #[trigger] face_outer(r.1@, t, j),
        forall|x: int|
            0 <= x < r.1@.len() ==> (#[trigger] r.1@[x]).vertices == face_opposite(
                tets@[r.1@[x].tetrahedron as int],
                r.1@[x].index as int,
            ),
        forall|x: int, t: int, j: int|
            0 <= x < r.1@.len() && 0 <= t < tets@.len() && 0 <= j < 4 && face_pos(
                r.1@[x].tetrahedron as int,
                r.1@[x].index as int,
            ) < face_pos(t, j) ==> #[trigger] face_opposite(tets@[t], j) != (#[trigger] r.1@[x]).vertices,
{
    proof {
        lemma_face_matching_sound(tets@);
        lemma_face_matching_complete(tets@);
    }
    let mut faces: Vec<TetFace> = Vec::new();
    let mut t: usize = 0;
    while t < tets.len()
        invariant
            t <= tets@.len(),
            faces@ == faces_of(tets@.take(t as int)),
        decreases tets@.len() - t,
    {
        let (a, b, c, d) = tets[t];
        faces.push(TetFace { tetrahedron: t, index: 0, vertices: sort_three(b, d, c), opposite: a });
        faces.push(TetFace { tetrahedron: t, index: 1, vertices: sort_three(a, c, d), opposite: b });
        faces.push(TetFace { tetrahedron: t, index: 2, vertices: sort_three(a, d, b), opposite: c });
        faces.push(TetFace { tetrahedron: t, index: 3, vertices: sort_three(a, b, c), opposite: d });
        proof {
            let tk = tets@.take(t + 1);
            assert(tk.drop_last() =~= tets@.take(t as int));
            assert(tk.last() == tets@[t as int]);
        }
        t = t + 1;
        assert(faces@ =~= faces_of(tets@.take(t as int)));
    }
    assert(tets@.take(tets@.len() as int) =~= tets@);
    let ghost fs = faces@;
    proof {
        lemma_faces_len(tets@);
    }
    let n = faces.len();
    let mut open: Vec<bool> = Vec::new();
    let mut j: usize = 0;
    while j < n
        invariant
            j <= n,
            open@ == Seq::new(j as nat, |f: int| true),
        decreases n - j,
    {
        open.push(true);
        j = j + 1;
        assert(open@ =~= Seq::new(j as nat, |f: int| true));
    }
    let mut links: Vec<(usize, usize, usize)> = Vec::new();
    let mut outer: Vec<TetFace> = Vec::new();
    let mut i: usize = 0;
    while i < n
        invariant
            i <= n,
            n == fs.len(),
            faces@ == fs,
            open@ == match_faces_upto(fs, i as int).open,
            links@ == match_faces_upto(fs, i as int).links,
            outer@ == match_faces_upto(fs, i as int).outer,
        decreases n - i,
    {
        proof {
            lemma_open_len(fs, i as int);
        }
        if open[i] {
            let mut k: usize = i + 1;
            while k < n && !(faces[k].vertices.0 == faces[i].vertices.0 && faces[k].vertices.1 == faces[i].vertices.1
                && faces[k].vertices.2 == faces[i].vertices.2)
                invariant
                    i < k <= n,
                    n == fs.len(),
                    faces@ == fs,
                    next_same_face(fs, i as int, i + 1) == next_same_face(fs, i as int, k as int),
                decreases n - k,
            {
                k = k + 1;
            }
            proof {
                lemma_next_same_face(fs, i as int, i + 1);
            }
            if k < n {
                let fi = faces[i];
                let fk = faces[k];
                links.push((fi.tetrahedron, fi.index, fk.tetrahedron));
                links.push((fk.tetrahedron, fk.index, fi.tetrahedron));
                open.set(i, false);
                open.set(k, false);
            } else {
                outer.push(faces[i]);
            }
        }
        i = i + 1;
    }
    assert(links@ == face_matching(tets@).links);
    assert(outer@ == face_matching(tets@).outer);
    (links, outer)
}

/// The tetrahedra that fill the cavity left by removing tetrahedra `cavity`
/// around a new vertex: one for each face of the cavity without a twin, in
/// face order, made of that face's vertices (ascending) and the new vertex.
pub open spec fn cavity_fill(cavity: Seq<(i32, i32, i32, i32)>, vertex: i32) -> Seq<(i32, i32, i32, i32)> {
    face_matching(cavity).outer.map_values(|f: TetFace| (f.vertices.0, f.vertices.1, f.vertices.2, vertex))
}

/// The tetrahedra that replace the tetrahedra `cavity` (each by its four
/// vertices) once vertex `vertex` is inserted inside them.
pub fn fill_cavity(cavity: &Vec<(i32, i32, i32, i32)>, vertex: i32) -> (r: Vec<(i32, i32, i32, i32)>)
    requires
        4 * cavity@.len() <= usize::MAX,
    ensures
        r@ == cavity_fill(cavity@, vertex),
        r@.len() == face_matching(cavity@).outer.len(),
        forall|i: int|
            0 <= i < r@.len() ==> (#[trigger] r@[i]).3 == vertex && (r@[i].0, r@[i].1, r@[i].2) == face_matching(
                cavity@,
            ).outer[i].vertices,
{
    let (_, outer) = match_tetrahedron_faces(cavity);
    let mut r: Vec<(i32, i32, i32, i32)> = Vec::new();
    let mut i: usize = 0;
    while i < outer.len()
        invariant
            i <= outer@.len(),
            outer@ == face_matching(cavity@).outer,
            r@ == outer@.take(i as int).map_values(|f: TetFace| (f.vertices.0, f.vertices.1, f.vertices.2, vertex)),
        decreases outer@.len() - i,
    {
        let f = outer[i];
        r.push((f.vertices.0, f.vertices.1, f.vertices.2, vertex));
        i = i + 1;
        assert(r@ =~= outer@.take(i as int).map_values(|f: TetFace| (f.vertices.0, f.vertices.1, f.vertices.2, vertex)));
    }
    assert(outer@.take(i as int) =~= outer@);
    r
}

/// Edge `index` of outer cell `cell`: its two vertices in ascending order.
#[derive(Debug, Clone, Copy, PartialEq, Eq)]
pub struct CellEdge {
    pub cell: usize,
    pub index: usize,
    pub vertices: (i32, i32),
}

/// `a` and `b` in ascending order.
pub open spec fn sorted2(a: i32, b: i32) -> (i32, i32) {
    if a < b {
        (a, b)
    } else {
        (b, a)
    }
}

/// The three edges of outer cell `c` with face `t`; edge `j` is the one
/// opposite vertex `j`.
pub open spec fn three_edges(c: usize, t: (i32, i32, i32)) -> Seq<CellEdge> {
    seq![
        CellEdge { cell: c, index: 0, vertices: sorted2(t.1, t.2) },
        CellEdge { cell: c, index: 1, vertices: sorted2(t.2, t.0) },
        CellEdge { cell: c, index: 2, vertices: sorted2(t.0, t.1) },
    ]
}

/// The edges of outer cells numbered from `first`, three by three.
pub open spec fn edges_of(first: nat, cells: Seq<(i32, i32, i32)>) -> Seq<CellEdge>
    decreases cells.len(),
{
    if cells.len() == 0 {
        Seq::empty()
    } else {
        edges_of(first, cells.drop_last()) + three_edges((first + cells.len() - 1) as usize, cells.last())
    }
}

proof fn lemma_edges_len(first: nat, cells: Seq<(i32, i32, i32)>)
    ensures
        edges_of(first, cells).len() == 3 * cells.len(),
    decreases cells.len(),
{
    if cells.len() > 0 {
        lemma_edges_len(first, cells.drop_last());
    }
}

/// The neighbour entries written for the pairs of edges from `(i, k)` on,
/// pairs taken with `i` before `k`, in order of `i` then `k`: two cells
/// sharing an edge border each other across it.
pub open spec fn edge_links_from(edges: Seq<CellEdge>, i: int, k: int) -> Seq<(usize, usize, usize)>
    decreases edges.len() - i, edges.len() - k,
{
    if i < 0 || i >= edges.len() {
        Seq::empty()
    } else if k < 0 || k >= edges.len() {
        edge_links_from(edges, i + 1, i + 2)
    } else {
        let here = if edges[i].vertices == edges[k].vertices {
            seq![(edges[i].cell, edges[i].index, edges[k].cell), (edges[k].cell, edges[k].index, edges[i].cell)]
        } else {
            Seq::empty()
        };
        here + edge_links_from(edges, i, k + 1)
    }
}

/// Whether `e` is edge `e.index` of outer cell `e.cell` of `cells`
/// (numbered from `first`): the edge opposite that corner, whose two
/// vertices, ascending, are the cell's other two corners.
pub open spec fn is_edge_of(first: nat, cells: Seq<(i32, i32, i32)>, e: CellEdge) -> bool {
    let t = cells[e.cell - first];
    &&& first <= e.cell < first + cells.len()
    &&& e.index < 3
    &&& e.vertices.0 <= e.vertices.1
    &&& forall|k: int|
        0 <= k < 3 && k != e.index ==> #[trigger] corner3(t, k) == e.vertices.0 || corner3(t, k) == e.vertices.1
    &&& exists|k: int| 0 <= k < 3 && k != e.index && #[trigger] corner3(t, k) == e.vertices.0
    &&& exists|k: int| 0 <= k < 3 && k != e.index && #[trigger] corner3(t, k) == e.vertices.1
}

/// Whether neighbour entry `(c, j, d)` links outer cell `c` to outer cell
/// `d` (both numbered from `first`) across edge `j` of `c`: the two corners
/// of `c` other than its `j`-th are both corners of `d`.
pub open spec fn links_across_edge(first: nat, cells: Seq<(i32, i32, i32)>, e: (usize, usize, usize)) -> bool {
    &&& first <= e.0 < first + cells.len()
    &&& first <= e.2 < first + cells.len()
    &&& e.1 < 3
    &&& forall|k: int|
        0 <= k < 3 && k != e.1 ==> #[trigger] has_corner3(cells[e.2 - first], corner3(cells[e.0 - first], k))
}

proof fn lemma_three_edges(first: nat, cells: Seq<(i32, i32, i32)>, i: int)
    requires
        0 <= i < cells.len(),
        first + cells.len() <= usize::MAX + 1,
    ensures
        forall|q: int| 0 <= q < 3 ==> is_edge_of(first, cells, #[trigger] three_edges((first + i) as usize, cells[i])[q]),
{
    let t = cells[i];
    let c = (first + i) as usize;
    assert(c - first == i);
    assert(corner3(t, 0) == t.0 && corner3(t, 1) == t.1 && corner3(t, 2) == t.2);
}

/// Every edge of `edges_of(first, cells)` is an edge of its cell.
proof fn lemma_edges_of_ok(first: nat, cells: Seq<(i32, i32, i32)>)
    requires
        first + cells.len() <= usize::MAX + 1,
    ensures
        forall|p: int| 0 <= p < edges_of(first, cells).len() ==> is_edge_of(first, cells, #[trigger] edges_of(first, cells)[p]),
    decreases cells.len(),
{
    lemma_edges_len(first, cells);
    if cells.len() > 0 {
        let d = cells.drop_last();
        let n = cells.len() - 1;
        lemma_edges_of_ok(first, d);
        lemma_edges_len(first, d);
        lemma_three_edges(first, cells, n);
        assert(cells.last() == cells[n]);
        assert forall|p: int| 0 <= p < edges_of(first, cells).len() implies is_edge_of(first, cells, #[trigger] edges_of(first, cells)[p]) by {
            if p < edges_of(first, d).len() {
                let e = edges_of(first, d)[p];
                assert(edges_of(first, cells)[p] == e);
                assert(is_edge_of(first, d, e));
                assert(d[e.cell - first] == cells[e.cell - first]);
            } else {
                assert(edges_of(first, cells)[p] == three_edges((first + n) as usize, cells[n])[p - edges_of(first, d).len()]);
            }
        }
    }
}

/// Two edges with the same vertices link their cells across them.
proof fn lemma_shared_edge(first: nat, cells: Seq<(i32, i32, i32)>, e: CellEdge, g: CellEdge)
    requires
        is_edge_of(first, cells, e),
        is_edge_of(first, cells, g),
        e.vertices == g.vertices,
    ensures
        links_across_edge(first, cells, (e.cell, e.index, g.cell)),
{
    let a = cells[e.cell - first];
    let b = cells[g.cell - first];
    let k0 = choose|k: int| 0 <= k < 3 && k != g.index && #[trigger] corner3(b, k) == g.vertices.0;
    let k1 = choose|k: int| 0 <= k < 3 && k != g.index && #[trigger] corner3(b, k) == g.vertices.1;
    assert(has_corner3(b, g.vertices.0));
    assert(has_corner3(b, g.vertices.1));
    assert forall|k: int| 0 <= k < 3 && k != e.index implies #[trigger] has_corner3(b, corner3(a, k)) by {
        assert(corner3(a, k) == e.vertices.0 || corner3(a, k) == e.vertices.1);
    }
}

/// The neighbour entries from `(i, k)` on link cells across shared edges.
proof fn lemma_edge_links_ok(first: nat, cells: Seq<(i32, i32, i32)>, edges: Seq<CellEdge>, i: int, k: int)
    requires
        forall|p: int| 0 <= p < edges.len() ==> is_edge_of(first, cells, #[trigger] edges[p]),
    ensures
        forall|m: int|
            0 <= m < edge_links_from(edges, i, k).len() ==> links_across_edge(first, cells, #[trigger] edge_links_from(edges, i, k)[m]),
    decreases edges.len() - i, edges.len() - k,
{
    if i < 0 || i >= edges.len() {
        assert(edge_links_from(edges, i, k).len() == 0);
    } else if k < 0 || k >= edges.len() {
        lemma_edge_links_ok(first, cells, edges, i + 1, i + 2);
        assert(edge_links_from(edges, i, k) == edge_links_from(edges, i + 1, i + 2));
    } else {
        lemma_edge_links_ok(first, cells, edges, i, k + 1);
        let rest = edge_links_from(edges, i, k + 1);
        if edges[i].vertices == edges[k].vertices {
            lemma_shared_edge(first, cells, edges[i], edges[k]);
            lemma_shared_edge(first, cells, edges[k], edges[i]);
            let here = seq![(edges[i].cell, edges[i].index, edges[k].cell), (edges[k].cell, edges[k].index, edges[i].cell)];
            assert(edge_links_from(edges, i, k) == here + rest);
            assert forall|m: int| 0 <= m < edge_links_from(edges, i, k).len() implies links_across_edge(first, cells, #[trigger] edge_links_from(edges, i, k)[m]) by {
                if m >= 2 {
                    assert(edge_links_from(edges, i, k)[m] == rest[m - 2]);
                } else if m == 0 {
                    assert(edge_links_from(edges, i, k)[m] == here[0]);
                } else {
                    assert(edge_links_from(edges, i, k)[m] == here[1]);
                }
            }
        } else {
            assert(edge_links_from(edges, i, k) =~= rest);
        }
    }
}

/// The corners of triangle `t` other than its `j`-th, ascending: the edge
/// opposite corner `j`.
pub open spec fn edge_opposite(t: (i32, i32, i32), j: int) -> (i32, i32) {
    if j == 0 {
        sorted2(t.1, t.2)
    } else if j == 1 {
        sorted2(t.0, t.2)
    } else {
        sorted2(t.0, t.1)
    }
}

/// The position of edge `j` of the `a`-th cell in edge order.
pub open spec fn edge_pos(a: int, j: int) -> int {
    3 * a + j
}

/// Edge `j` of the `a`-th cell stands at position `3a + j` of the edge
/// order, with the corners opposite corner `j` as its vertices.
proof fn lemma_edges_at(first: nat, cells: Seq<(i32, i32, i32)>)
    requires
        first + cells.len() <= usize::MAX + 1,
    ensures
        forall|a: int, j: int|
            0 <= a < cells.len() && 0 <= j < 3 ==> #[trigger] edges_of(first, cells)[edge_pos(a, j)] == (CellEdge {
                cell: (first + a) as usize,
                index: j as usize,
                vertices: edge_opposite(cells[a], j),
            }),
    decreases cells.len(),
{
    lemma_edges_len(first, cells);
    if cells.len() > 0 {
        let d = cells.drop_last();
        let n = cells.len() - 1;
        lemma_edges_at(first, d);
        lemma_edges_len(first, d);
        let lt = cells[n];
        assert(cells.last() == lt);
        assert(sorted2(lt.2, lt.0) == sorted2(lt.0, lt.2));
        assert forall|a: int, j: int| 0 <= a < cells.len() && 0 <= j < 3 implies #[trigger] edges_of(first, cells)[edge_pos(a, j)] == (CellEdge {
            cell: (first + a) as usize,
            index: j as usize,
            vertices: edge_opposite(cells[a], j),
        }) by {
            if a < n {
                assert(edges_of(first, cells)[edge_pos(a, j)] == edges_of(first, d)[edge_pos(a, j)]);
                assert(d[a] == cells[a]);
            } else {
                assert(edges_of(first, cells)[edge_pos(a, j)] == three_edges((first + n) as usize, lt)[j]);
            }
        }
    }
}

/// Every pair of edges with the same vertices from `(i, k)` on gets its
/// two neighbour entries.
proof fn lemma_edge_links_contain(edges: Seq<CellEdge>, i: int, k: int, p: int, q: int)
    requires
        0 <= i < k,
        (p == i && k <= q) || i < p,
        p < q < edges.len(),
        edges[p].vertices == edges[q].vertices,
    ensures
        edge_links_from(edges, i, k).contains((edges[p].cell, edges[p].index, edges[q].cell)),
        edge_links_from(edges, i, k).contains((edges[q].cell, edges[q].index, edges[p].cell)),
    decreases edges.len() - i, edges.len() - k,
{
    let x = (edges[p].cell, edges[p].index, edges[q].cell);
    let y = (edges[q].cell, edges[q].index, edges[p].cell);
    if k >= edges.len() {
        lemma_edge_links_contain(edges, i + 1, i + 2, p, q);
        assert(edge_links_from(edges, i, k) == edge_links_from(edges, i + 1, i + 2));
    } else {
        let here = if edges[i].vertices == edges[k].vertices {
            seq![(edges[i].cell, edges[i].index, edges[k].cell), (edges[k].cell, edges[k].index, edges[i].cell)]
        } else {
            Seq::empty()
        };
        let rest = edge_links_from(edges, i, k + 1);
        assert(edge_links_from(edges, i, k) == here + rest);
        if p == i && q == k {
            assert((here + rest)[0] == x);
            assert((here + rest)[1] == y);
        } else {
            lemma_edge_links_contain(edges, i, k + 1, p, q);
            let a = choose|a: int| 0 <= a < rest.len() && rest[a] == x;
            let b = choose|b: int| 0 <= b < rest.len() && rest[b] == y;
            assert((here + rest)[here.len() + a] == x);
            assert((here + rest)[here.len() + b] == y);
        }
    }
}

/// Linking outer cells covers every shared edge, as a law over the cells:
/// whenever edge `j` of the `a`-th cell and edge `l` of the `b`-th cell (two
/// different edges) join the same two vertices, the `a`-th cell gets a
/// neighbour entry naming the `b`-th across its edge `j`.
pub proof fn lemma_outer_links_complete(first: nat, cells: Seq<(i32, i32, i32)>)
    requires
        first + cells.len() <= usize::MAX + 1,
    ensures
        forall|a: int, j: int, b: int, l: int|
            0 <= a < cells.len() && 0 <= b < cells.len() && 0 <= j < 3 && 0 <= l < 3 && (a != b || j != l)
                && #[trigger] edge_opposite(cells[a], j) == #[trigger] edge_opposite(cells[b], l)
                ==> edge_links_from(edges_of(first, cells), 0, 1).contains(
                ((first + a) as usize, j as usize, (first + b) as usize),
            ),
{
    let es = edges_of(first, cells);
    lemma_edges_at(first, cells);
    lemma_edges_len(first, cells);
    assert forall|a: int, j: int, b: int, l: int|
        0 <= a < cells.len() && 0 <= b < cells.len() && 0 <= j < 3 && 0 <= l < 3 && (a != b || j != l)
            && #[trigger] edge_opposite(cells[a], j) == #[trigger] edge_opposite(cells[b], l)
            implies edge_links_from(es, 0, 1).contains(((first + a) as usize, j as usize, (first + b) as usize)) by {
        let pa = edge_pos(a, j);
        let pb = edge_pos(b, l);
        assert(es[pa].vertices == es[pb].vertices);
        if pa < pb {
            lemma_edge_links_contain(es, 0, 1, pa, pb);
        } else {
            lemma_edge_links_contain(es, 0, 1, pb, pa);
        }
    }
}

/// Linking outer cells, as a law over the cells: every neighbour entry
/// `(c, j, d)` names two cells among those given and edge `j` of `c`, the
/// one opposite its `j`-th corner, and both corners of that edge are
/// corners of `d`.
pub proof fn lemma_outer_links_sound(first: nat, cells: Seq<(i32, i32, i32)>)
    requires
        first + cells.len() <= usize::MAX + 1,
    ensures
        forall|m: int|
            0 <= m < edge_links_from(edges_of(first, cells), 0, 1).len() ==> links_across_edge(
                first,
                cells,
                #[trigger] edge_links_from(edges_of(first, cells), 0, 1)[m],
            ),
{
    lemma_edges_of_ok(first, cells);
    lemma_edge_links_ok(first, cells, edges_of(first, cells), 0, 1);
}

/// The neighbour entries that link outer cells across their shared edges;
/// the cells are numbered from `first` and given by their three vertices.
pub fn link_outer_cells(first: usize, cells: &Vec<(i32, i32, i32)>) -> (r: Vec<(usize, usize, usize)>)
    requires
        first + cells@.len() <= usize::MAX,
        3 * cells@.len() <= usize::MAX,
    ensures
        r@ == edge_links_from(edges_of(first as nat, cells@), 0, 1),
        forall|m: int| 0 <= m < r@.len() ==> links_across_edge(first as nat, cells@, #[trigger] r@[m]),
        forall|a: int, j: int, b: int, l: int|
            0 <= a < cells@.len() && 0 <= b < cells@.len() && 0 <= j < 3 && 0 <= l < 3 && (a != b || j != l)
                && #[trigger] edge_opposite(cells@[a], j) == #[trigger] edge_opposite(cells@[b], l)
                ==> r@.contains(((first + a) as usize, j as usize, (first + b) as usize)),
{
    proof {
        lemma_outer_links_sound(first as nat, cells@);
        lemma_outer_links_complete(first as nat, cells@);
    }
    let mut edges: Vec<CellEdge> = Vec::new();
    let mut t: usize = 0;
    while t < cells.len()
        invariant
            t <= cells@.len(),
            first + cells@.len() <= usize::MAX,
            edges@ == edges_of(first as nat, cells@.take(t as int)),
        decreases cells@.len() - t,
    {
        let (a, b, c) = cells[t];
        let id = first + t;
        edges.push(CellEdge { cell: id, index: 0, vertices: if b < c { (b, c) } else { (c, b) } });
        edges.push(CellEdge { cell: id, index: 1, vertices: if c < a { (c, a) } else { (a, c) } });
        edges.push(CellEdge { cell: id, index: 2, vertices: if a < b { (a, b) } else { (b, a) } });
        proof {
            let tk = cells@.take(t + 1);
            assert(tk.drop_last() =~= cells@.take(t as int));
            assert(tk.last() == cells@[t as int]);
        }
        t = t + 1;
        assert(edges@ =~= edges_of(first as nat, cells@.take(t as int)));
    }
    assert(cells@.take(cells@.len() as int) =~= cells@);
    let ghost es = edges@;
    proof {
        lemma_edges_len(first as nat, cells@);
    }
    let n = edges.len();
    let mut r: Vec<(usize, usize, usize)> = Vec::new();
    let mut i: usize = 0;
    while i < n
        invariant
            i <= n,
            n == es.len(),
            edges@ == es,
            r@ + edge_links_from(es, i as int, i + 1) == edge_links_from(es, 0, 1),
        decreases n - i,
    {
        let mut k: usize = i + 1;
        while k < n
            invariant
                i < n,
                i < k <= n,
                n == es.len(),
                edges@ == es,
                r@ + edge_links_from(es, i as int, k as int) == edge_links_from(es, 0, 1),
            decreases n - k,
        {
            let ei = edges[i];
            let ek = edges[k];
            let ghost before = r@;
            if ei.vertices.0 == ek.vertices.0 && ei.vertices.1 == ek.vertices.1 {
                r.push((ei.cell, ei.index, ek.cell));
                r.push((ek.cell, ek.index, ei.cell));
            }
            proof {
                let here = if es[i as int].vertices == es[k as int].vertices {
                    seq![(es[i as int].cell, es[i as int].index, es[k as int].cell), (es[k as int].cell, es[k as int].index, es[i as int].cell)]
                } else {
                    Seq::empty()
                };
                assert(edge_links_from(es, i as int, k as int) == here + edge_links_from(es, i as int, k + 1));
                assert(r@ =~= before + here);
                assert(before + (here + edge_links_from(es, i as int, k + 1)) =~= r@ + edge_links_from(es, i as int, k + 1));
            }
            k = k + 1;
        }
        assert(edge_links_from(es, i as int, k as int) == edge_links_from(es, i + 1, i + 2));
        i = i + 1;
    }
    assert(r@ + edge_links_from(es, i as int, i + 1) =~= r@);
    r
}

} // verus!
