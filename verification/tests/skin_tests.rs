use rasterization::algebra::{from_scale, from_translation, inverse, mat_mul, normal_matrix, Mat4, Vec3};
use rasterization::rat::Rat;
use rasterization::skin::joint_matrices;

fn v(x: i64, y: i64, z: i64) -> Vec3 {
    Vec3 {
        x: Rat::from_int(x),
        y: Rat::from_int(y),
        z: Rat::from_int(z),
    }
}

#[test]
fn skinning_identity_for_unskinned_mesh() {
    // an unskinned mesh gets exactly one joint matrix: the identity
    let world = from_translation(v(5, 6, 7));
    let jm = joint_matrices(&world, None).unwrap();
    assert_eq!(jm.len(), 1);
    assert_eq!(jm[0].e, Mat4::identity().e);
}

#[test]
fn skinning_correctness_at_rest() {
    // one joint whose world matrix equals the mesh's world matrix, with an
    // identity inverse-bind matrix: the joint matrix is the identity
    let world = from_translation(v(5, 6, 7));
    let joints = vec![(from_translation(v(5, 6, 7)), Mat4::identity())];
    let jm = joint_matrices(&world, Some(&joints)).unwrap();
    assert_eq!(jm.len(), 1);
    assert_eq!(jm[0].e, Mat4::identity().e);
}

#[test]
fn joint_matrices_compose_exactly() {
    // joint = inverse(mesh world) * joint world * inverse bind
    let world = from_scale(v(2, 2, 2));
    let jw = from_translation(v(4, 0, 0));
    let bind = from_translation(v(0, 2, 0));
    let joints = vec![(
        from_translation(v(4, 0, 0)),
        from_translation(v(0, 2, 0)),
    )];
    let jm = joint_matrices(&world, Some(&joints)).unwrap();
    let inv = inverse(&world).unwrap();
    let expect = mat_mul(&mat_mul(&inv, &jw).unwrap(), &bind).unwrap();
    assert_eq!(jm[0].e, expect.e);
}

#[test]
fn degenerate_world_matrix_is_skipped() {
    // a zero-scale world matrix cannot be inverted; the mesh is skipped
    let world = from_scale(v(0, 0, 0));
    let joints = vec![(Mat4::identity(), Mat4::identity())];
    assert!(joint_matrices(&world, Some(&joints)).is_none());
}

#[test]
fn exact_inverse() {
    let m = from_scale(v(2, 4, 8));
    let inv = inverse(&m).unwrap();
    let half = Rat::new(1, 2).unwrap();
    let quarter = Rat::new(1, 4).unwrap();
    let eighth = Rat::new(1, 8).unwrap();
    assert_eq!(inv.e[0], half);
    assert_eq!(inv.e[5], quarter);
    assert_eq!(inv.e[10], eighth);
    let prod = mat_mul(&inv, &m).unwrap();
    assert_eq!(prod.e, Mat4::identity().e);
    // translation inverts to the opposite translation
    let t = from_translation(v(3, -4, 5));
    let ti = inverse(&t).unwrap();
    assert_eq!(ti.e, from_translation(v(-3, 4, -5)).e);
}

#[test]
fn normal_matrix_is_the_inverse_transpose() {
    let m = from_scale(v(2, 4, 8));
    let nm = normal_matrix(&m).unwrap();
    let inv = inverse(&m).unwrap();
    // diagonal matrices transpose to themselves
    assert_eq!(nm.e, inv.e);
    let t = from_translation(v(3, 0, 0));
    let nt = normal_matrix(&t).unwrap();
    // the translation column moves to the bottom row under the transpose
    assert_eq!(nt.e[12], rasterization::rat::Rat::from_int(-3));
    // a degenerate world matrix has no normal matrix
    assert!(normal_matrix(&from_scale(v(0, 1, 1))).is_none());
}
