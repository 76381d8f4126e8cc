use raytracer::obj::{face_triangles, face_vertex_of, parse_face, read_obj_line, FaceVertex, ObjLine, ObjLineError};
use raytracer::mesh::{Mesh, MeshError, MeshErrorKind};
use raytracer::photon::{FalseColour, PhotonBehaviour, PhotonType};

fn chars(s: &str) -> Vec<char> {
    s.chars().collect()
}

fn words(s: &str) -> Vec<Vec<char>> {
    s.split_whitespace().map(chars).collect()
}

#[test]
fn face_corners() {
    assert_eq!(face_vertex_of(&chars("3")), Some(FaceVertex { vertex: 2, normal: None }));
    assert_eq!(face_vertex_of(&chars("3/4")), Some(FaceVertex { vertex: 2, normal: None }));
    assert_eq!(face_vertex_of(&chars("3//5")), Some(FaceVertex { vertex: 2, normal: Some(4) }));
    assert_eq!(face_vertex_of(&chars("1/2/3/4")), Some(FaceVertex { vertex: 0, normal: Some(2) }));
    assert_eq!(face_vertex_of(&chars("0")), None);
    assert_eq!(face_vertex_of(&chars("x/1/1")), None);
    assert_eq!(face_vertex_of(&chars("1/1/")), None);
}

#[test]
fn faces_and_their_triangles() {
    let corners = parse_face(&words("f 1 2 3 4")).unwrap();
    assert_eq!(corners.len(), 4);
    assert_eq!(face_triangles(corners.len()), vec![(0, 1, 2), (0, 2, 3)]);
    assert_eq!(face_triangles(3), vec![(0, 1, 2)]);
    assert_eq!(face_triangles(5), vec![(0, 1, 2)]);
    assert!(parse_face(&words("f 1 q 3")).is_none());
}

#[test]
fn obj_lines() {
    assert!(matches!(read_obj_line(&chars("")), Ok(ObjLine::Blank)));
    assert!(matches!(read_obj_line(&chars("  ")), Err(ObjLineError::NoWords)));
    assert!(matches!(read_obj_line(&chars("# hello")), Ok(ObjLine::Comment)));
    assert!(matches!(read_obj_line(&chars("vt 0 1")), Ok(ObjLine::Other)));
    match read_obj_line(&chars("v 1 2.5 -3")) {
        Ok(ObjLine::Vertex(t)) => {
            assert_eq!(t.y.iter().collect::<String>(), "2.5");
            assert_eq!(t.z.iter().collect::<String>(), "-3");
        }
        other => panic!("unexpected {:?}", other),
    }
    assert!(matches!(read_obj_line(&chars("vn 0 1")), Err(ObjLineError::MissingCoordinate)));
    assert!(matches!(read_obj_line(&chars("vn 0 a 1")), Err(ObjLineError::BadNormalCoordinate(1))));
    assert!(matches!(read_obj_line(&chars("v z")), Err(ObjLineError::BadVertexCoordinate(0))));
    assert!(matches!(read_obj_line(&chars("f 1 2")), Err(ObjLineError::TooFewCorners)));
    assert!(matches!(read_obj_line(&chars("f 1 2 0")), Err(ObjLineError::BadFaceIndex)));
    match read_obj_line(&chars("f 1//1 2//2 3//3")) {
        Ok(ObjLine::Face(c)) => assert_eq!(c[2], FaceVertex { vertex: 2, normal: Some(2) }),
        other => panic!("unexpected {:?}", other),
    }
}

#[test]
fn small_types() {
    assert_eq!(FalseColour::new(), FalseColour {});
    assert_ne!(PhotonType::Colour, PhotonType::Shadow);
    assert_ne!(PhotonBehaviour::Absorb, PhotonBehaviour::ReflectOrRefract);
}

const QUAD_AND_TRIANGLE: &str = "# a quad and a triangle
v 0 0 0
v 1 0 0
v 1 1 0
v 0 1 0
vn 0 0 1

f 1//1 2//1 3//1 4//1
vt 0.5 0.5
f 2 3 4
";

#[test]
fn mesh_of_a_quad_and_a_triangle() {
    let mesh = Mesh::from_text(QUAD_AND_TRIANGLE).unwrap();
    assert_eq!(mesh.vertices.len(), 4);
    assert_eq!(mesh.normals.len(), 1);
    assert_eq!(mesh.vertices[2].y.iter().collect::<String>(), "1");
    let with = |v: usize| FaceVertex { vertex: v, normal: Some(0) };
    let bare = |v: usize| FaceVertex { vertex: v, normal: None };
    assert_eq!(
        mesh.triangles,
        vec![(with(0), with(1), with(2)), (with(0), with(2), with(3)), (bare(1), bare(2), bare(3))]
    );
    // the last face took the normals of vertices 2, 3 and 4 away again
    assert_eq!(mesh.vertex_normals, vec![Some(0), None, None, None]);
    assert_eq!(mesh.adjacent, vec![vec![0, 1], vec![0, 2], vec![0, 1, 2], vec![1, 2]]);
}

#[test]
fn mesh_corner_takes_the_last_normal_of_its_vertex() {
    let mesh = Mesh::from_text("v 0 0 0\nv 1 0 0\nvn 0 0 1\nvn 0 1 0\nf 1//1 1//2 2//1\n").unwrap();
    let first = FaceVertex { vertex: 0, normal: Some(1) };
    assert_eq!(mesh.triangles[0], (first, first, FaceVertex { vertex: 1, normal: Some(0) }));
    // a triangle is listed once under a vertex it names twice
    assert_eq!(mesh.adjacent, vec![vec![0], vec![0]]);
}

#[test]
fn mesh_lists_triangles_by_vertex_index() {
    let text = "v 0 0 0\nv 1 0 0\nv 0 1 0\nv 1 1 0\nv 2 1 0\nv 2 2 0\nf 3 4 5\nf 5 6 4\nf 1 2 3\n";
    let mesh = Mesh::from_text(text).unwrap();
    assert_eq!(
        mesh.adjacent,
        vec![vec![2], vec![2], vec![0, 2], vec![0, 1], vec![0, 1], vec![1]]
    );
}

#[test]
fn mesh_errors() {
    let e = Mesh::from_text("v 0 0 0\nv 1 0 0\nf 1 2 3\n").unwrap_err();
    assert_eq!(e, MeshError { kind: MeshErrorKind::NoSuchVertex, line_index: 2 });
    let e = Mesh::from_text("v 0 0 0\nv 1 0 0\nv 1 1 0\nf 1//1 2 3\n").unwrap_err();
    assert_eq!(e, MeshError { kind: MeshErrorKind::NoSuchNormal, line_index: 3 });
    let e = Mesh::from_text("v 0 0 0\n\nv 1 0\nf 9 9 9\n").unwrap_err();
    assert_eq!(e, MeshError { kind: MeshErrorKind::Line(ObjLineError::MissingCoordinate), line_index: 2 });
    assert!(Mesh::from_text("").unwrap().triangles.is_empty());
}

#[test]
fn mesh_from_lines_counts_lines_from_zero() {
    let lines: Vec<Vec<char>> = vec![chars("v 0 0 0"), chars("f 1 1 x")];
    let e = Mesh::from_lines(&lines).unwrap_err();
    assert_eq!(e, MeshError { kind: MeshErrorKind::Line(ObjLineError::BadFaceIndex), line_index: 1 });
}
