use rasterization::algebra::{from_translation, mat_mul, Mat4, Vec3};
use rasterization::animation::{Animation, Transformation};
use rasterization::rat::Rat;
use rasterization::light::LightJSON;
use rasterization::scene::{
    bake_lights, check_scene_wf, compute_worlds, first_camera, forest_visit, frame_locals,
    node_local, Node,
};

fn v(x: i64, y: i64, z: i64) -> Vec3 {
    Vec3 {
        x: Rat::from_int(x),
        y: Rat::from_int(y),
        z: Rat::from_int(z),
    }
}

fn node(local: Mat4, parent: Option<usize>, children: Vec<usize>) -> Node {
    Node {
        local,
        parent,
        children,
        name: None,
        mesh: None,
        skin: None,
        camera: false,
    }
}

#[test]
fn hierarchical_composition() {
    // chain A -> B -> C: world(C) == world(A) * local(B) * local(C)
    let la = from_translation(v(1, 0, 0));
    let lb = from_translation(v(0, 2, 0));
    let lc = from_translation(v(0, 0, 3));
    let nodes = vec![
        node(la.clone(), None, vec![1]),
        node(from_translation(v(0, 2, 0)), Some(0), vec![2]),
        node(from_translation(v(0, 0, 3)), Some(1), vec![]),
    ];
    let locals = vec![
        from_translation(v(1, 0, 0)),
        from_translation(v(0, 2, 0)),
        from_translation(v(0, 0, 3)),
    ];
    let worlds = compute_worlds(&nodes, &locals).unwrap();
    let wa = from_translation(v(1, 0, 0));
    let wab = mat_mul(&wa, &lb).unwrap();
    let wabc = mat_mul(&wab, &lc).unwrap();
    assert_eq!(worlds[2].e, wabc.e);
    assert_eq!(worlds[0].e, la.e);
    // and the composed chain is the translation by the summed offsets
    let direct = from_translation(v(1, 2, 3));
    assert_eq!(worlds[2].e, direct.e);
}

#[test]
fn traversal_order_is_depth_first_in_child_order() {
    let nodes = vec![
        node(Mat4::identity(), None, vec![1, 3]),
        node(Mat4::identity(), Some(0), vec![2]),
        node(Mat4::identity(), Some(1), vec![]),
        node(Mat4::identity(), Some(0), vec![]),
        node(Mat4::identity(), None, vec![]),
    ];
    let order = forest_visit(&nodes, &vec![0, 4]);
    assert_eq!(order, vec![0, 1, 2, 3, 4]);
}

#[test]
fn animated_node_composes_translate_rotate_scale() {
    // a node with only a translate channel: its local becomes T * I * I,
    // and the authored local is ignored (missing components default to the
    // identity contribution)
    let keys = vec![
        (Rat::from_int(0), Transformation::Translate(v(0, 0, 0))),
        (Rat::from_int(2), Transformation::Translate(v(4, 0, 0))),
    ];
    let anims = vec![Animation::new(0, Rat::from_int(2), keys).unwrap()];
    let authored = from_translation(v(9, 9, 9));
    let local = node_local(&anims, Rat::from_int(1), 0, &authored).unwrap();
    let expected = from_translation(v(2, 0, 0));
    assert_eq!(local.e, expected.e);
    // a node nothing targets keeps its authored local
    let other = node_local(&anims, Rat::from_int(1), 5, &authored).unwrap();
    assert_eq!(other.e, authored.e);
}

#[test]
fn frame_locals_cover_every_node() {
    let nodes = vec![
        node(from_translation(v(1, 0, 0)), None, vec![1]),
        node(from_translation(v(0, 1, 0)), Some(0), vec![]),
    ];
    let anims: Vec<Animation> = vec![];
    let locals = frame_locals(&nodes, &anims, Rat::zero()).unwrap();
    assert_eq!(locals.len(), 2);
    assert_eq!(locals[0].e, nodes[0].local.e);
    assert_eq!(locals[1].e, nodes[1].local.e);
}

#[test]
fn scene_wellformedness_is_checked() {
    let good = vec![
        node(Mat4::identity(), None, vec![1]),
        node(Mat4::identity(), Some(0), vec![]),
    ];
    assert!(check_scene_wf(&good));
    // a child that points backward breaks the parent-before-child shape
    let bad = vec![
        node(Mat4::identity(), Some(1), vec![]),
        node(Mat4::identity(), None, vec![0]),
    ];
    assert!(!check_scene_wf(&bad));
    // a non-canonical local matrix is rejected too
    let raw = vec![node(
        Mat4 {
            e: vec![rasterization::rat::Rat { num: 2, den: 4 }; 16],
        },
        None,
        vec![],
    )];
    assert!(!check_scene_wf(&raw));
}

#[test]
fn first_camera_wins_in_traversal_order() {
    let mut a = node(Mat4::identity(), None, vec![1, 2]);
    a.camera = false;
    let mut b = node(Mat4::identity(), Some(0), vec![]);
    b.camera = true;
    let mut c = node(Mat4::identity(), Some(0), vec![]);
    c.camera = true;
    let nodes = vec![a, b, c];
    // depth-first in child order: node 1 comes before node 2
    assert_eq!(first_camera(&nodes, &vec![0]), Some(1));
    let plain = vec![node(Mat4::identity(), None, vec![])];
    assert_eq!(first_camera(&plain, &vec![0]), None);
}

#[test]
fn lights_are_baked_by_their_named_node() {
    let mut lamp_node = node(from_translation(v(0, 5, 0)), None, vec![]);
    lamp_node.name = Some("lamp".to_string());
    let nodes = vec![lamp_node];
    let worlds = vec![from_translation(v(0, 5, 0))];
    let order = forest_visit(&nodes, &vec![0]);
    let mut lights = vec![
        LightJSON::Point {
            node: "other".to_string(),
            position: v(9, 9, 9),
            power: v(1, 1, 1),
        },
        LightJSON::Point {
            node: "lamp".to_string(),
            position: v(1, 0, 0),
            power: v(1, 1, 1),
        },
    ];
    bake_lights(&mut lights, &nodes, &worlds, &order);
    match &lights[1] {
        LightJSON::Point { position, .. } => assert_eq!(*position, v(1, 5, 0)),
        _ => panic!("variant changed"),
    }
    // the unnamed light is untouched
    match &lights[0] {
        LightJSON::Point { position, .. } => assert_eq!(*position, v(9, 9, 9)),
        _ => panic!("variant changed"),
    }
}
