use raytracer::mesh::{triangles, MeshError};

#[test]
fn triangles_take_their_corners_by_number() {
    let positions: Vec<f32> = vec![
        0.0, 0.0, 0.0, //
        1.0, 0.0, 0.0, //
        0.0, 1.0, 0.0, //
        0.0, 0.0, 1.0,
    ];
    let indices = vec![0, 1, 2, 3, 2, 1];
    let faces = triangles(&positions, &indices).unwrap();
    assert_eq!(
        faces,
        vec![
            ((0.0, 0.0, 0.0), (1.0, 0.0, 0.0), (0.0, 1.0, 0.0)),
            ((0.0, 0.0, 1.0), (0.0, 1.0, 0.0), (1.0, 0.0, 0.0)),
        ]
    );
}

#[test]
fn vertex_numbers_behind_the_last_triangle_are_not_read() {
    let positions: Vec<i32> = vec![1, 2, 3];
    assert_eq!(
        triangles(&positions, &vec![0, 0, 0, 7, 7]).unwrap(),
        vec![((1, 2, 3), (1, 2, 3), (1, 2, 3))]
    );
    assert_eq!(triangles(&positions, &vec![9, 9]).unwrap(), vec![]);
    assert_eq!(triangles(&positions, &vec![]).unwrap(), vec![]);
}

#[test]
fn missing_vertex_is_refused() {
    let positions: Vec<i32> = vec![1, 2, 3, 4, 5];
    assert_eq!(triangles(&positions, &vec![0, 0, 1]), Err(MeshError::MissingVertex));
    assert_eq!(triangles(&positions, &vec![0, 0, 0, 0, u32::MAX, 0]), Err(MeshError::MissingVertex));
    assert!(triangles(&positions, &vec![0, 0, 0]).is_ok());
}
