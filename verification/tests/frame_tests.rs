use rasterization::frame::{blur_params, check_schedule, frame_schedule, ImageId, Pass, PassKind, MIP_LEVELS};
use rasterization::rat::Rat;

#[test]
fn schedule_has_valid_dependencies() {
    // every intermediate image is produced exactly once, before any consumer
    for lights in 0..4usize {
        let passes = frame_schedule(lights, MIP_LEVELS);
        assert_eq!(passes.len(), lights + 3 * MIP_LEVELS + 1);
        assert!(check_schedule(&passes));
    }
}

#[test]
fn end_to_end_static_scene_pass_order() {
    // one static mesh, one point light, zero animations: geometry, one
    // shadow pass, direct lighting, ambient, mip generation, blur, post
    let passes = frame_schedule(1, MIP_LEVELS);
    let kinds: Vec<PassKind> = passes.iter().map(|p| p.kind).collect();
    let expected = vec![
        PassKind::Geometry,
        PassKind::Shadow(0),
        PassKind::DirectLighting,
        PassKind::Ambient,
        PassKind::Downsample(1),
        PassKind::Downsample(2),
        PassKind::Downsample(3),
        PassKind::Downsample(4),
        PassKind::BlurHorizontal(1),
        PassKind::BlurVertical(1),
        PassKind::BlurHorizontal(2),
        PassKind::BlurVertical(2),
        PassKind::BlurHorizontal(3),
        PassKind::BlurVertical(3),
        PassKind::BlurHorizontal(4),
        PassKind::BlurVertical(4),
        PassKind::Composite,
    ];
    assert_eq!(kinds, expected);
    assert!(check_schedule(&passes));
}

#[test]
fn direct_lighting_reads_gbuffer_and_shadow_maps() {
    let passes = frame_schedule(2, MIP_LEVELS);
    let direct = passes
        .iter()
        .find(|p| p.kind == PassKind::DirectLighting)
        .unwrap();
    for img in [
        ImageId::Diffuse,
        ImageId::NormalBuf,
        ImageId::DepthBuf,
        ImageId::MaterialBuf,
        ImageId::ShadowMap(0),
        ImageId::ShadowMap(1),
    ] {
        assert!(direct.reads.contains(&img));
    }
    assert_eq!(direct.writes, vec![ImageId::Hdr(0)]);
}

#[test]
fn reading_an_unproduced_image_is_rejected() {
    let bad = vec![Pass {
        kind: PassKind::Composite,
        reads: vec![ImageId::Hdr(0)],
        writes: vec![ImageId::FrameImage],
        accumulates: vec![],
    }];
    assert!(!check_schedule(&bad));
}

#[test]
fn double_production_is_rejected() {
    let bad = vec![
        Pass {
            kind: PassKind::Geometry,
            reads: vec![],
            writes: vec![ImageId::Diffuse],
            accumulates: vec![],
        },
        Pass {
            kind: PassKind::Shadow(0),
            reads: vec![],
            writes: vec![ImageId::Diffuse],
            accumulates: vec![],
        },
    ];
    assert!(!check_schedule(&bad));
}

#[test]
fn reading_before_the_producer_is_rejected() {
    let bad = vec![
        Pass {
            kind: PassKind::Composite,
            reads: vec![ImageId::Diffuse],
            writes: vec![ImageId::FrameImage],
            accumulates: vec![],
        },
        Pass {
            kind: PassKind::Geometry,
            reads: vec![],
            writes: vec![ImageId::Diffuse],
            accumulates: vec![],
        },
    ];
    assert!(!check_schedule(&bad));
}

#[test]
fn blur_levels_coarsen_exactly() {
    // the authored per-level standard deviations and radii
    assert_eq!(blur_params(1), Some((Rat::new(31, 10).unwrap(), 9)));
    assert_eq!(blur_params(2), Some((Rat::new(249, 40).unwrap(), 18)));
    assert_eq!(blur_params(3), Some((Rat::new(81, 8).unwrap(), 30)));
    assert_eq!(blur_params(4), Some((Rat::new(263, 16).unwrap(), 48)));
    assert_eq!(blur_params(0), None);
    assert_eq!(blur_params(5), None);
}
