use rasterization::algebra::{from_translation, Mat4, Vec3};
use rasterization::camera::{Camera, Mat3};
use rasterization::light::{new_ambient, new_point, LightJSON};
use rasterization::mesh::{assemble_vertices, vertex_layout, MeshError, DEFAULT_WEIGHT_BITS};
use rasterization::rat::Rat;
use rasterization::sky::sky_new;

fn r(n: i64, d: i64) -> Rat {
    Rat::new(n, d).unwrap()
}

fn v(x: i64, y: i64, z: i64) -> Vec3 {
    Vec3 {
        x: Rat::from_int(x),
        y: Rat::from_int(y),
        z: Rat::from_int(z),
    }
}

#[test]
fn camera_from_node_bakes_the_world_frame() {
    let world = from_translation(v(1, 2, 3));
    let cam = Camera::from_gltf(r(1, 2), r(1, 10), None, None, &world).unwrap();
    assert_eq!(cam.eye, v(1, 2, 3));
    assert_eq!(cam.target, v(1, 2, 2));
    assert_eq!(cam.up, v(0, 1, 0));
    assert_eq!(cam.far, Rat::from_int(50));
    assert_eq!(cam.aspect, r(1333, 1000));
}

#[test]
fn view_matrix_for_axis_aligned_camera() {
    // eye on +z looking at the origin: forward is -z, right is +x, up is +y
    let cam = Camera::new(
        v(0, 0, 5),
        v(0, 0, 0),
        v(0, 1, 0),
        r(1, 10),
        Rat::from_int(50),
        Rat::one(),
        r(1, 2),
    );
    let view = cam.get_view_mat().unwrap();
    // first row is the right vector, second the up vector
    assert_eq!(view.e[0], Rat::one());
    assert_eq!(view.e[5], Rat::one());
    // the eye distance appears in the depth row
    assert_eq!(view.e[11], Rat::from_int(-5));
}

#[test]
fn orbit_update_moves_the_whole_frame() {
    let mut cam = Camera::new(
        v(1, 0, 0),
        v(0, 0, 0),
        v(0, 1, 0),
        r(1, 10),
        Rat::from_int(50),
        Rat::one(),
        r(1, 2),
    );
    // a quarter-turn about the vertical axis, exact: x -> -z, z -> x
    let z = Rat::zero();
    let one = Rat::one();
    let m = Mat3 {
        e: vec![z, z, one, z, one, z, one.neg(), z, z],
    };
    assert!(cam.update(&m));
    assert_eq!(cam.eye, v(0, 0, -1));
    assert_eq!(cam.up, v(0, 1, 0));
}

#[test]
fn point_light_is_baked_by_its_node() {
    let mut l = LightJSON::Point {
        node: "lamp".to_string(),
        position: v(1, 0, 0),
        power: v(10, 10, 10),
    };
    let m = from_translation(v(0, 5, 0));
    assert!(l.apply_matrix(&m));
    match l {
        LightJSON::Point { position, .. } => assert_eq!(position, v(1, 5, 0)),
        _ => panic!("variant changed"),
    }
}

#[test]
fn area_light_basis_is_derived() {
    let mut l = LightJSON::Area {
        node: "panel".to_string(),
        position: v(0, 4, 0),
        power: v(5, 5, 5),
        normal: v(0, -1, 0),
        up: v(0, 0, 1),
        size: (Rat::one(), Rat::one()),
        u: v(0, 0, 0),
        v: v(0, 0, 0),
    };
    assert!(l.apply_matrix(&Mat4::identity()));
    match l {
        LightJSON::Area { u, v: vv, .. } => {
            // u = normalize(up x normal) = (1, 0, 0); v = normal x u = (0, 0, 1)
            assert_eq!(u, v(1, 0, 0));
            assert_eq!(vv, v(0, 0, 1));
        }
        _ => panic!("variant changed"),
    }
}

#[test]
fn point_light_carries_shadow_matrices() {
    let pl = new_point(v(0, 0, 5), v(100, 100, 100)).unwrap();
    assert_eq!(pl.position, v(0, 0, 5));
    // its view matrix places the light five units out
    assert_eq!(pl.view.e[11], Rat::from_int(-5));
    let amb = new_ambient(v(1, 1, 1), None);
    assert_eq!(amb.range, Rat::zero());
    let amb2 = new_ambient(v(1, 1, 1), Some(r(3, 2)));
    assert_eq!(amb2.range, r(3, 2));
}

#[test]
fn vertex_assembly_defaults_and_errors() {
    let ps = vec![[1u32, 2, 3], [4, 5, 6]];
    let ns = vec![[7u32, 8, 9], [10, 11, 12]];
    let idx = vec![0u32, 1, 0];
    let md = assemble_vertices(Some(ps.clone()), Some(ns.clone()), None, None, Some(idx)).unwrap();
    assert_eq!(md.vertices.len(), 2);
    assert_eq!(md.length, 3);
    assert_eq!(md.vertices[0].position, [1, 2, 3]);
    assert_eq!(md.vertices[1].normal, [10, 11, 12]);
    assert_eq!(md.vertices[0].weights, [DEFAULT_WEIGHT_BITS; 4]);
    assert_eq!(md.vertices[0].joints, [0; 4]);
    // a partial weight stream pads with the rigid default
    let w = vec![[1u32, 0, 0, 0]];
    let j = vec![[2u16, 0, 0, 0]];
    let md2 = assemble_vertices(
        Some(ps.clone()),
        Some(ns.clone()),
        Some(w),
        Some(j),
        Some(vec![0u32]),
    )
    .unwrap();
    assert_eq!(md2.vertices[0].weights, [1, 0, 0, 0]);
    assert_eq!(md2.vertices[1].weights, [DEFAULT_WEIGHT_BITS; 4]);
    assert_eq!(md2.vertices[0].joints, [2, 0, 0, 0]);
    // missing streams are load-time fatal, by kind
    assert!(matches!(
        assemble_vertices(None, Some(ns.clone()), None, None, None),
        Err(MeshError::MissingPositions)
    ));
    assert!(matches!(
        assemble_vertices(Some(ps.clone()), None, None, None, None),
        Err(MeshError::MissingNormals)
    ));
    assert!(matches!(
        assemble_vertices(Some(ps), Some(ns), None, None, None),
        Err(MeshError::MissingIndices)
    ));
    let layout = vertex_layout();
    assert_eq!(layout.stride, 56);
    assert_eq!(layout.weights_offset, 24);
    assert_eq!(layout.joints_offset, 40);
}

#[test]
fn sky_parameters_are_exact_in_turbidity() {
    // at the authored sun angle (80 degrees in radians, about 1.396) and
    // turbidity eight the computation succeeds and the luminance Perez
    // vector is the exact table combination, e.g. A_Y = 0.1787 * 8 - 1.4630
    let theta = r(1396, 1000);
    let sky = sky_new(theta, Rat::from_int(8)).unwrap();
    assert_eq!(sky.a.x, r(1787 * 8 - 14630, 10000));
    assert_eq!(sky.b.x, r(-3554 * 8 + 4275, 10000));
    assert_eq!(sky.theta_sun, theta);
    // the zenith chromaticities read the tables row by zenith-angle power:
    // at theta one half and turbidity two, the x polynomial is exactly
    // ((17*4 - 290*2 + 1169)/8 + (-37*4 + 638*2 - 2120)/4
    //  + (21*4 - 320*2 + 605)/2 + (0*4 + 39*2 + 2589)) / 10000
    let half = r(1, 2);
    let two = Rat::from_int(2);
    let sky2 = sky_new(half, two).unwrap();
    let expect = r(17 * 4 - 290 * 2 + 1169, 80000)
        .add(r(-37 * 4 + 638 * 2 - 2120, 40000))
        .unwrap()
        .add(r(21 * 4 - 320 * 2 + 605, 20000))
        .unwrap()
        .add(r(39 * 2 + 2589, 10000))
        .unwrap();
    assert_eq!(sky2.zenith.y, expect);
}
