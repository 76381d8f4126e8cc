//! Assembling a triangle mesh from the lines of a Wavefront OBJ file: the
//! vertices and normals in the order given, each face cut into triangles,
//! and which normal each vertex carries.
//!
//! Coordinates stay as the literals the file gives; what they stand for is
//! left to the caller.
use vstd::prelude::*;
use crate::obj::{FaceVertex, ObjLine, ObjLineError, obj_line, read_obj_line};
use crate::scene::Triple;
use crate::text::{lines, views, chars_of, split_lines};

verus! {

/// A mesh as the lines read so far have built it.
pub struct MeshModel {
    /// The vertex positions, in the order of their `v` lines.
    pub vertices: Seq<Triple<Seq<char>>>,
    /// The normals, in the order of their `vn` lines.
    pub normals: Seq<Triple<Seq<char>>>,
    /// For each vertex, the normal that the last face using it gave it.
    pub vertex_normals: Seq<Option<usize>>,
    /// The triangles, each as its three corners with the normal that each
    /// corner's vertex carried once the triangle was made.
    pub triangles: Seq<(FaceVertex, FaceVertex, FaceVertex)>,
    /// For each vertex, the triangles that have it as a corner, each once,
    /// in the order in which they were made.
    pub adjacent: Seq<Seq<usize>>,
}

/// Why a mesh cannot be built.
#[derive(Clone, Copy, Debug, PartialEq, Eq, Structural)]
pub enum MeshErrorKind {
    /// A line that cannot be read.
    Line(ObjLineError),
    /// A face corner whose vertex has not been given.
    NoSuchVertex,
    /// A face corner whose normal has not been given.
    NoSuchNormal,
}

/// A reason for giving up, and the line (counted from 0) where it came.
#[derive(Clone, Copy, Debug, PartialEq, Eq, Structural)]
pub struct MeshError {
    pub kind: MeshErrorKind,
    pub line_index: usize,
}

pub open spec fn empty_mesh() -> MeshModel {
    MeshModel {
        vertices: Seq::empty(),
        normals: Seq::empty(),
        vertex_normals: Seq::empty(),
        triangles: Seq::empty(),
        adjacent: Seq::empty(),
    }
}

/// What is wrong with a face corner, the normal being looked at first.
pub open spec fn corner_error(m: MeshModel, c: FaceVertex) -> Option<MeshErrorKind> {
    if c.normal is Some && c.normal->0 >= m.normals.len() {
        Some(MeshErrorKind::NoSuchNormal)
    } else if c.vertex >= m.vertices.len() {
        Some(MeshErrorKind::NoSuchVertex)
    } else {
        None
    }
}

/// Every index that the mesh holds points at something it holds: each
/// vertex has a normal entry, and the normals that vertices carry, the
/// corners of the triangles and the triangles of the links all exist.
pub open spec fn indices_fit(m: MeshModel) -> bool {
    &&& m.vertex_normals.len() == m.vertices.len()
    &&& forall|v: int|
        0 <= v < m.vertex_normals.len() && (#[trigger] m.vertex_normals[v]) is Some
            ==> m.vertex_normals[v]->0 < m.normals.len()
    &&& forall|t: int|
        0 <= t < m.triangles.len() ==> {
            &&& corner_error(m, (#[trigger] m.triangles[t]).0) is None
            &&& corner_error(m, m.triangles[t].1) is None
            &&& corner_error(m, m.triangles[t].2) is None
        }
}

/// Whether a triangle has vertex `v` as one of its corners.
pub open spec fn uses(tri: (FaceVertex, FaceVertex, FaceVertex), v: int) -> bool {
    tri.0.vertex == v || tri.1.vertex == v || tri.2.vertex == v
}

/// The triangles listed under each vertex are exactly those that have it as
/// a corner, each once and in the order in which they were made.
pub open spec fn adjacency_exact(m: MeshModel) -> bool {
    &&& m.adjacent.len() == m.vertices.len()
    &&& forall|v: int, t: usize|
        #![trigger m.adjacent[v].contains(t)]
        #![trigger m.adjacent[v], m.triangles[t as int]]
        0 <= v < m.adjacent.len() && t < m.triangles.len() ==> (m.adjacent[v].contains(t) <==> uses(
            m.triangles[t as int],
            v,
        ))
    &&& forall|v: int, k: int|
        0 <= v < m.adjacent.len() && 0 <= k < m.adjacent[v].len() ==> #[trigger] m.adjacent[v][k]
            < m.triangles.len()
    &&& forall|v: int, k1: int, k2: int|
        0 <= v < m.adjacent.len() && 0 <= k1 < k2 < m.adjacent[v].len() ==> #[trigger] m.adjacent[v][k1]
            < #[trigger] m.adjacent[v][k2]
}

/// The lists with triangle `t` added to that of vertex `v`.
pub open spec fn add_to(adj: Seq<Seq<usize>>, v: usize, t: usize) -> Seq<Seq<usize>> {
    adj.update(v as int, adj[v as int].push(t))
}

/// How many of a face's corners its triangles use: four for a quad, else
/// the first three.
pub open spec fn used_corners(corners: Seq<FaceVertex>) -> nat {
    if corners.len() == 4 {
        4
    } else {
        3
    }
}

/// The first error among the used corners from position `k` on.
pub open spec fn face_error(m: MeshModel, corners: Seq<FaceVertex>, k: nat) -> Option<MeshErrorKind>
    decreases used_corners(corners) - k,
{
    if k >= used_corners(corners) {
        None
    } else {
        match corner_error(m, corners[k as int]) {
            Some(e) => Some(e),
            None => face_error(m, corners, k + 1),
        }
    }
}

/// The mesh with the triangle made of the corners at positions `i`, `j`,
/// `k` of a face added: each corner's vertex first takes the corner's
/// normal, in that order, and the triangle is listed once under each of its
/// corners' vertices.
pub open spec fn with_triangle(
    m: MeshModel,
    corners: Seq<FaceVertex>,
    i: usize,
    j: usize,
    k: usize,
) -> MeshModel {
    let a = corners[i as int];
    let b = corners[j as int];
    let c = corners[k as int];
    let vn = m.vertex_normals.update(a.vertex as int, a.normal).update(b.vertex as int, b.normal).update(
        c.vertex as int,
        c.normal,
    );
    let t = m.triangles.len() as usize;
    let adj1 = add_to(m.adjacent, a.vertex, t);
    let adj2 = if b.vertex != a.vertex {
        add_to(adj1, b.vertex, t)
    } else {
        adj1
    };
    let adj3 = if c.vertex != a.vertex && c.vertex != b.vertex {
        add_to(adj2, c.vertex, t)
    } else {
        adj2
    };
    MeshModel {
        vertices: m.vertices,
        normals: m.normals,
        vertex_normals: vn,
        triangles: m.triangles.push(
            (
                FaceVertex { vertex: a.vertex, normal: vn[a.vertex as int] },
                FaceVertex { vertex: b.vertex, normal: vn[b.vertex as int] },
                FaceVertex { vertex: c.vertex, normal: vn[c.vertex as int] },
            ),
        ),
        adjacent: adj3,
    }
}

/// The mesh with a face added: its first three corners as a triangle, and
/// for a quad also its first, third and fourth.
pub open spec fn with_face(m: MeshModel, corners: Seq<FaceVertex>) -> MeshModel {
    let m1 = with_triangle(m, corners, 0, 1, 2);
    if corners.len() == 4 {
        with_triangle(m1, corners, 0, 2, 3)
    } else {
        m1
    }
}

/// What one line does to the mesh.
pub open spec fn mesh_step(m: MeshModel, line: Seq<char>) -> Result<MeshModel, MeshErrorKind> {
    match obj_line(line) {
        Err(e) => Err(MeshErrorKind::Line(e)),
        Ok(ObjLine::Vertex(t)) => Ok(
            MeshModel {
                vertices: m.vertices.push(t),
                normals: m.normals,
                vertex_normals: m.vertex_normals.push(None),
                triangles: m.triangles,
                adjacent: m.adjacent.push(Seq::empty()),
            },
        ),
        Ok(ObjLine::Normal(t)) => Ok(
            MeshModel {
                vertices: m.vertices,
                normals: m.normals.push(t),
                vertex_normals: m.vertex_normals,
                triangles: m.triangles,
                adjacent: m.adjacent,
            },
        ),
        Ok(ObjLine::Face(corners)) => match face_error(m, corners, 0) {
            Some(e) => Err(e),
            None => Ok(with_face(m, corners)),
        },
        Ok(_) => Ok(m),
    }
}

/// The mesh that a file's lines build, or the first error, with its line.
pub open spec fn mesh_from(ls: Seq<Seq<char>>) -> Result<MeshModel, MeshError>
    decreases ls.len(),
{
    if ls.len() == 0 {
        Ok(empty_mesh())
    } else {
        match mesh_from(ls.drop_last()) {
            Err(e) => Err(e),
            Ok(m) => match mesh_step(m, ls.last()) {
                Err(kind) => Err(MeshError { kind, line_index: (ls.len() - 1) as usize }),
                Ok(m2) => Ok(m2),
            },
        }
    }
}

/// Once the lines read so far give an error, no further line changes it.
proof fn lemma_error_stays(v: Seq<Seq<char>>, n: int)
    requires
        0 <= n <= v.len(),
        mesh_from(v.take(n)) is Err,
    ensures
        mesh_from(v) == mesh_from(v.take(n)),
    decreases v.len() - n,
{
    if n < v.len() {
        assert(v.take(n + 1).drop_last() =~= v.take(n));
        lemma_error_stays(v, n + 1);
    } else {
        assert(v.take(n) =~= v);
    }
}

/// Adds triangle `t` to the list of vertex `v`.
fn push_adjacent(adj: &mut Vec<Vec<usize>>, v: usize, t: usize)
    requires
        v < old(adj)@.len(),
    ensures
        final(adj)@.len() == old(adj)@.len(),
        final(adj)@.map_values(|l: Vec<usize>| l@) == add_to(
            old(adj)@.map_values(|l: Vec<usize>| l@),
            v,
            t,
        ),
{
    adj[v].push(t);
    assert(final(adj)@.map_values(|l: Vec<usize>| l@) =~= add_to(
        old(adj)@.map_values(|l: Vec<usize>| l@),
        v,
        t,
    ));
}

/// A new vertex is a corner of no triangle yet.
proof fn lemma_with_vertex_adjacency(m: MeshModel, p: Triple<Seq<char>>)
    requires
        indices_fit(m),
        adjacency_exact(m),
    ensures
        adjacency_exact(
            MeshModel {
                vertices: m.vertices.push(p),
                normals: m.normals,
                vertex_normals: m.vertex_normals.push(None),
                triangles: m.triangles,
                adjacent: m.adjacent.push(Seq::empty()),
            },
        ),
{
    let adj = m.adjacent.push(Seq::<usize>::empty());
    let n = m.adjacent.len() as int;
    assert forall|v: int, t: usize| 0 <= v < adj.len() && t < m.triangles.len() implies (
    adj[v].contains(t) <==> uses(m.triangles[t as int], v)) by {
        if v == n {
            let tri = m.triangles[t as int];
            assert(corner_error(m, tri.0) is None);
            assert(corner_error(m, tri.1) is None);
            assert(corner_error(m, tri.2) is None);
            assert(!uses(tri, v));
            assert(!adj[v].contains(t));
        } else {
            assert(adj[v] == m.adjacent[v]);
        }
    }
    assert forall|v: int, k: int| 0 <= v < adj.len() && 0 <= k < adj[v].len() implies #[trigger] adj[v][k]
        < m.triangles.len() by {
        assert(adj[v] == m.adjacent[v]);
    }
    assert forall|v: int, k1: int, k2: int|
        0 <= v < adj.len() && 0 <= k1 < k2 < adj[v].len() implies #[trigger] adj[v][k1]
            < #[trigger] adj[v][k2] by {
        assert(adj[v] == m.adjacent[v]);
    }
}

/// Adding a triangle keeps the lists exact: it goes at the end of the lists
/// of its corners' vertices and nowhere else.
proof fn lemma_with_triangle_adjacency(
    m: MeshModel,
    corners: Seq<FaceVertex>,
    i: usize,
    j: usize,
    k: usize,
)
    requires
        indices_fit(m),
        adjacency_exact(m),
        m.triangles.len() < usize::MAX,
        i < corners.len(),
        j < corners.len(),
        k < corners.len(),
        corner_error(m, corners[i as int]) is None,
        corner_error(m, corners[j as int]) is None,
        corner_error(m, corners[k as int]) is None,
    ensures
        adjacency_exact(with_triangle(m, corners, i, j, k)),
{
    let m2 = with_triangle(m, corners, i, j, k);
    let t = m.triangles.len() as usize;
    let tri = m2.triangles[t as int];
    assert forall|v: int| 0 <= v < m.adjacent.len() implies #[trigger] m2.adjacent[v] == (if uses(
        tri,
        v,
    ) {
        m.adjacent[v].push(t)
    } else {
        m.adjacent[v]
    }) by {
        let a = corners[i as int].vertex;
        let b = corners[j as int].vertex;
        let c = corners[k as int].vertex;
        let adj1 = add_to(m.adjacent, a, t);
        assert(adj1[v] == if v == a {
            m.adjacent[v].push(t)
        } else {
            m.adjacent[v]
        });
        let adj2 = if b != a {
            add_to(adj1, b, t)
        } else {
            adj1
        };
        assert(adj2[v] == if v == a || v == b {
            m.adjacent[v].push(t)
        } else {
            m.adjacent[v]
        });
        let adj3 = if c != a && c != b {
            add_to(adj2, c, t)
        } else {
            adj2
        };
        assert(adj3[v] == if v == a || v == b || v == c {
            m.adjacent[v].push(t)
        } else {
            m.adjacent[v]
        });
        assert(m2.adjacent == adj3);
        assert(tri.0.vertex == a && tri.1.vertex == b && tri.2.vertex == c);
    }
    assert forall|v: int, t2: usize| 0 <= v < m2.adjacent.len() && t2 < m2.triangles.len() implies (
    m2.adjacent[v].contains(t2) <==> uses(m2.triangles[t2 as int], v)) by {
        let old_list = m.adjacent[v];
        let new_list = m2.adjacent[v];
        if t2 < t {
            assert(m2.triangles[t2 as int] == m.triangles[t2 as int]);
            if uses(tri, v) {
                assert(new_list == old_list.push(t));
                if old_list.contains(t2) {
                    let w = choose|w: int| 0 <= w < old_list.len() && old_list[w] == t2;
                    assert(new_list[w] == t2);
                }
                if new_list.contains(t2) {
                    let w = choose|w: int| 0 <= w < new_list.len() && new_list[w] == t2;
                    assert(w < old_list.len());
                    assert(old_list[w] == t2);
                }
            }
        } else {
            assert(t2 == t);
            if uses(tri, v) {
                assert(new_list == old_list.push(t));
                assert(new_list[old_list.len() as int] == t);
            } else {
                if new_list.contains(t2) {
                    let w = choose|w: int| 0 <= w < new_list.len() && new_list[w] == t2;
                    assert(old_list[w] < m.triangles.len());
                }
            }
        }
    }
    assert forall|v: int, q: int| 0 <= v < m2.adjacent.len() && 0 <= q < m2.adjacent[v].len() implies
        #[trigger] m2.adjacent[v][q] < m2.triangles.len() by {
        if q < m.adjacent[v].len() {
            assert(m2.adjacent[v][q] == m.adjacent[v][q]);
        }
    }
    assert forall|v: int, k1: int, k2: int|
        0 <= v < m2.adjacent.len() && 0 <= k1 < k2 < m2.adjacent[v].len() implies #[trigger] m2.adjacent[v][k1]
            < #[trigger] m2.adjacent[v][k2] by {
        let old_list = m.adjacent[v];
        assert(m2.adjacent[v][k1] == old_list[k1]);
        if k2 < old_list.len() {
            assert(m2.adjacent[v][k2] == old_list[k2]);
        } else {
            assert(m2.adjacent[v][k2] == t);
            assert(old_list[k1] < m.triangles.len());
        }
    }
}

/// A triangle mesh read from an OBJ file.
#[derive(Debug)]
pub struct Mesh {
    pub vertices: Vec<Triple<Vec<char>>>,
    pub normals: Vec<Triple<Vec<char>>>,
    pub vertex_normals: Vec<Option<usize>>,
    pub triangles: Vec<(FaceVertex, FaceVertex, FaceVertex)>,
    pub adjacent: Vec<Vec<usize>>,
}

impl View for Mesh {
    type V = MeshModel;

    open spec fn view(&self) -> MeshModel {
        MeshModel {
            vertices: self.vertices@.map_values(|t: Triple<Vec<char>>| t@),
            normals: self.normals@.map_values(|t: Triple<Vec<char>>| t@),
            vertex_normals: self.vertex_normals@,
            triangles: self.triangles@,
            adjacent: self.adjacent@.map_values(|l: Vec<usize>| l@),
        }
    }
}

impl Mesh {
    /// Every index the mesh holds is in range, and each vertex lists
    /// exactly the triangles that have it as a corner.
    pub open spec fn wf(&self) -> bool {
        indices_fit(self@) && adjacency_exact(self@)
    }

    fn corner_check(&self, c: FaceVertex) -> (r: Option<MeshErrorKind>)
        ensures
            r == corner_error(self@, c),
    {
        match c.normal {
            Some(n) => if n >= self.normals.len() {
                return Some(MeshErrorKind::NoSuchNormal);
            },
            None => {},
        }
        if c.vertex >= self.vertices.len() {
            Some(MeshErrorKind::NoSuchVertex)
        } else {
            None
        }
    }

    fn add_triangle(&mut self, corners: &Vec<FaceVertex>, i: usize, j: usize, k: usize)
        requires
            old(self).wf(),
            i < corners@.len(),
            j < corners@.len(),
            k < corners@.len(),
            corner_error(old(self)@, corners@[i as int]) is None,
            corner_error(old(self)@, corners@[j as int]) is None,
            corner_error(old(self)@, corners@[k as int]) is None,
        ensures
            final(self).wf(),
            final(self)@ == with_triangle(old(self)@, corners@, i, j, k),
    {
        let a = corners[i];
        let b = corners[j];
        let c = corners[k];
        self.vertex_normals.set(a.vertex, a.normal);
        self.vertex_normals.set(b.vertex, b.normal);
        self.vertex_normals.set(c.vertex, c.normal);
        let t = self.triangles.len();
        let na = self.vertex_normals[a.vertex];
        let nb = self.vertex_normals[b.vertex];
        let nc = self.vertex_normals[c.vertex];
        self.triangles.push(
            (
                FaceVertex { vertex: a.vertex, normal: na },
                FaceVertex { vertex: b.vertex, normal: nb },
                FaceVertex { vertex: c.vertex, normal: nc },
            ),
        );
        push_adjacent(&mut self.adjacent, a.vertex, t);
        if b.vertex != a.vertex {
            push_adjacent(&mut self.adjacent, b.vertex, t);
        }
        if c.vertex != a.vertex && c.vertex != b.vertex {
            push_adjacent(&mut self.adjacent, c.vertex, t);
        }
        assert(final(self)@ == with_triangle(old(self)@, corners@, i, j, k));
        let made = self.triangles.len();
        proof {
            assert(made == t + 1);
            lemma_with_triangle_adjacency(old(self)@, corners@, i, j, k);
        }
    }

    /// Adds a face, or tells what is wrong with one of its corners.
    fn add_face(&mut self, corners: &Vec<FaceVertex>) -> (r: Option<MeshErrorKind>)
        requires
            old(self).wf(),
            corners@.len() >= 3,
        ensures
            r == face_error(old(self)@, corners@, 0),
            r is None ==> final(self)@ == with_face(old(self)@, corners@) && final(self).wf(),
    {
        let used: usize = if corners.len() == 4 {
            4
        } else {
            3
        };
        let mut p: usize = 0;
        while p < used
            invariant
                self.wf(),
                used == used_corners(corners@),
                used <= corners@.len(),
                p <= used,
                face_error(self@, corners@, 0) == face_error(self@, corners@, p as nat),
                forall|q: int| 0 <= q < p ==> corner_error(self@, #[trigger] corners@[q]) is None,
            decreases used - p,
        {
            match self.corner_check(corners[p]) {
                Some(e) => return Some(e),
                None => {},
            }
            p += 1;
        }
        self.add_triangle(corners, 0, 1, 2);
        if corners.len() == 4 {
            self.add_triangle(corners, 0, 2, 3);
        }
        None
    }

    /// Reads the lines of an OBJ file into a mesh.
    pub fn from_lines(ls: &Vec<Vec<char>>) -> (r: Result<Mesh, MeshError>)
        ensures
            match r {
                Ok(mesh) => mesh.wf() && mesh_from(views(ls@)) == Ok::<MeshModel, MeshError>(mesh@),
                Err(e) => mesh_from(views(ls@)) == Err::<MeshModel, MeshError>(e),
            },
    {
        let ghost v = views(ls@);
        let mut mesh = Mesh {
            vertices: Vec::new(),
            normals: Vec::new(),
            vertex_normals: Vec::new(),
            triangles: Vec::new(),
            adjacent: Vec::new(),
        };
        assert(mesh@.vertices =~= Seq::empty());
        assert(mesh@.normals =~= Seq::empty());
        assert(mesh@.adjacent =~= Seq::empty());
        assert(mesh@ == empty_mesh());
        let mut k: usize = 0;
        while k < ls.len()
            invariant
                v == views(ls@),
                k <= ls@.len(),
                mesh.wf(),
                mesh_from(v.take(k as int)) == Ok::<MeshModel, MeshError>(mesh@),
            decreases ls@.len() - k,
        {
            assert(v.take(k + 1).drop_last() =~= v.take(k as int));
            assert(v.take(k + 1).last() == ls@[k as int]@);
            let ghost before = mesh@;
            match read_obj_line(&ls[k]) {
                Err(e) => {
                    proof {
                        lemma_error_stays(v, k + 1);
                    }
                    return Err(MeshError { kind: MeshErrorKind::Line(e), line_index: k });
                },
                Ok(ObjLine::Vertex(t)) => {
                    mesh.vertices.push(t);
                    mesh.vertex_normals.push(None);
                    mesh.adjacent.push(Vec::new());
                    assert(mesh@.vertices =~= before.vertices.push(t@));
                    assert(mesh@.adjacent =~= before.adjacent.push(Seq::empty()));
                    proof {
                        lemma_with_vertex_adjacency(before, t@);
                    }
                },
                Ok(ObjLine::Normal(t)) => {
                    mesh.normals.push(t);
                    assert(mesh@.normals =~= before.normals.push(t@));
                },
                Ok(ObjLine::Face(corners)) => {
                    match mesh.add_face(&corners) {
                        Some(e) => {
                            proof {
                                lemma_error_stays(v, k + 1);
                            }
                            return Err(MeshError { kind: e, line_index: k });
                        },
                        None => {},
                    }
                },
                Ok(_) => {},
            }
            k += 1;
        }
        assert(v.take(ls@.len() as int) =~= v);
        Ok(mesh)
    }

    /// Reads the text of an OBJ file into a mesh.
    pub fn from_text(text: &str) -> (r: Result<Mesh, MeshError>)
        ensures
            match r {
                Ok(mesh) => mesh.wf() && mesh_from(lines(text@)) == Ok::<MeshModel, MeshError>(mesh@),
                Err(e) => mesh_from(lines(text@)) == Err::<MeshModel, MeshError>(e),
            },
    {
        let chars = chars_of(text);
        let ls = split_lines(&chars);
        Mesh::from_lines(&ls)
    }
}

} // verus!
