use engine3d::{Color, Cube, Point3D, Square, UNIT};

fn p(x: i64, y: i64, z: i64) -> Point3D {
    Point3D::new(x * UNIT, y * UNIT, z * UNIT)
}

fn cyan() -> Color {
    Color::new(0, 255, 255, 255)
}

fn sum4(s: &Square) -> (i64, i64, i64) {
    let v = &s.vertices;
    (
        v[0].x + v[1].x + v[2].x + v[3].x,
        v[0].y + v[1].y + v[2].y + v[3].y,
        v[0].z + v[1].z + v[2].z + v[3].z,
    )
}

/// The dot product of the normal of each face with eight times the vector
/// from the middle of the cube to the middle of the face.
fn outward_products(corner: &Point3D, edge: i64) -> Vec<i128> {
    let faces = Cube::new(corner, cyan(), edge).faces();
    let middle8 = (8 * corner.x + 4 * edge, 8 * corner.y - 4 * edge, 8 * corner.z + 4 * edge);
    faces
        .iter()
        .map(|f| {
            let n = f.normal();
            let s = sum4(f);
            let out = (2 * s.0 - middle8.0, 2 * s.1 - middle8.1, 2 * s.2 - middle8.2);
            n.x as i128 * out.0 as i128 + n.y as i128 * out.1 as i128 + n.z as i128 * out.2 as i128
        })
        .collect()
}

#[test]
fn unit_cube_has_six_faces_with_outward_normals() {
    let faces = Cube::new(&p(0, 0, 0), cyan(), UNIT).faces();
    assert_eq!(faces.len(), 6);
    for product in outward_products(&p(0, 0, 0), UNIT) {
        assert!(product > 0);
    }
}

#[test]
fn unit_cube_normals_by_face() {
    let faces = Cube::new(&p(0, 0, 0), cyan(), UNIT).faces();
    let normals: Vec<Point3D> = faces.iter().map(|f| f.normal()).collect();
    assert_eq!(
        normals,
        vec![p(0, 1, 0), p(0, -1, 0), p(-1, 0, 0), p(0, 0, -1), p(0, 0, 1), p(1, 0, 0)]
    );
}

#[test]
fn faces_list_the_corners_in_a_fixed_order() {
    let faces = Cube::new(&p(20, 20, 150), cyan(), 20 * UNIT).faces();
    let v = [
        p(20, 20, 150),
        p(20, 20, 170),
        p(40, 20, 150),
        p(40, 20, 170),
        p(20, 0, 150),
        p(20, 0, 170),
        p(40, 0, 150),
        p(40, 0, 170),
    ];
    assert_eq!(faces[0].vertices, [v[0], v[1], v[3], v[2]]);
    assert_eq!(faces[1].vertices, [v[4], v[6], v[7], v[5]]);
    assert_eq!(faces[2].vertices, [v[0], v[4], v[5], v[1]]);
    assert_eq!(faces[3].vertices, [v[0], v[2], v[6], v[4]]);
    assert_eq!(faces[4].vertices, [v[1], v[5], v[7], v[3]]);
    assert_eq!(faces[5].vertices, [v[2], v[3], v[7], v[6]]);
}

#[test]
fn faces_have_the_color_of_the_cube() {
    let faces = Cube::new(&p(1, 2, 3), Color::new(9, 8, 7, 6), 5 * UNIT).faces();
    for f in faces.iter() {
        assert_eq!(f.color, Color::new(9, 8, 7, 6));
    }
}

#[test]
fn each_face_is_a_closed_walk_along_edges_of_the_cube() {
    let edge = 20 * UNIT;
    let faces = Cube::new(&p(20, 20, 150), cyan(), edge).faces();
    for f in faces.iter() {
        let mut it = f.iter_pairs();
        while let Some(pair) = it.next() {
            let d = pair.second.sub(pair.first);
            let moved = [d.x.abs(), d.y.abs(), d.z.abs()];
            assert_eq!(moved.iter().filter(|m| **m == edge).count(), 1);
            assert_eq!(moved.iter().filter(|m| **m == 0).count(), 2);
        }
    }
}

#[test]
fn normals_point_outward_wherever_the_cube_stands() {
    let corners = [p(0, 0, 0), p(20, 20, 150), p(-7, 3, -1000), Point3D::new(1, -1, 5)];
    let edges = [182, 183, 1000, UNIT, 20 * UNIT, 1000 * UNIT];
    for corner in corners.iter() {
        for edge in edges.iter() {
            for product in outward_products(corner, *edge) {
                assert!(product > 0, "{:?} {}", corner, edge);
            }
        }
    }
}

#[test]
fn a_cube_too_small_for_the_grid_has_no_normals() {
    // the area of a face, 181 * 181 steps, is less than half a step
    let faces = Cube::new(&p(0, 0, 0), cyan(), 181).faces();
    for f in faces.iter() {
        assert_eq!(f.normal(), Point3D::zero());
    }
}

#[test]
fn a_negative_edge_turns_the_cube_inside_out() {
    for product in outward_products(&p(0, 0, 0), -UNIT) {
        assert!(product < 0);
    }
}
