use voxer::vox::matrix::VoxTransform;
use voxer::vox::scene::{
    apply_frame, apply_frames, parse_rotation, parse_scene, parse_scene_impl, parse_translation,
    rotation_matrix, VoxData,
    VoxError, VoxFrame,
    VoxModel, VoxNode,
};

fn mat(rows: [[i32; 4]; 4]) -> VoxTransform {
    VoxTransform::from_rows(rows[0], rows[1], rows[2], rows[3])
}

#[test]
fn translation_reads_three_numbers() {
    assert_eq!(parse_translation("1 2 3"), Ok([1, 2, 3]));
    assert_eq!(parse_translation("-5 +6 0"), Ok([-5, 6, 0]));
    assert_eq!(parse_translation("-2147483648 0 2147483647"), Ok([i32::MIN, 0, i32::MAX]));
}

#[test]
fn translation_errors() {
    assert_eq!(parse_translation("1 2"), Err(VoxError::TranslationNotThree));
    assert_eq!(parse_translation("1 2 3 4"), Err(VoxError::TranslationNotThree));
    assert_eq!(parse_translation("1  2 3"), Err(VoxError::TranslationNotNumber));
    assert_eq!(parse_translation("a b c"), Err(VoxError::TranslationNotNumber));
    assert_eq!(parse_translation("2147483648 0 0"), Err(VoxError::TranslationNotNumber));
    assert_eq!(parse_translation(""), Err(VoxError::TranslationNotNumber));
    // a bad piece is reported even when the count is also wrong
    assert_eq!(parse_translation("1 x"), Err(VoxError::TranslationNotNumber));
}

#[test]
fn rotation_bases() {
    let identity = mat([[1, 0, 0, 0], [0, 1, 0, 0], [0, 0, 1, 0], [0, 0, 0, 1]]);
    assert_eq!(rotation_matrix(0b0100).unwrap().m, identity.m);
    let swap_xy = mat([[0, 1, 0, 0], [1, 0, 0, 0], [0, 0, 1, 0], [0, 0, 0, 1]]);
    assert_eq!(rotation_matrix(0b0001).unwrap().m, swap_xy.m);
    let zyx = mat([[0, 0, 1, 0], [0, 1, 0, 0], [1, 0, 0, 0], [0, 0, 0, 1]]);
    assert_eq!(rotation_matrix(0b0010).unwrap().m, zyx.m);
    assert_eq!(rotation_matrix(0b0110).unwrap().m, zyx.m);
    let yzx = mat([[0, 1, 0, 0], [0, 0, 1, 0], [1, 0, 0, 0], [0, 0, 0, 1]]);
    assert_eq!(rotation_matrix(0b1001).unwrap().m, yzx.m);
}

#[test]
fn rotation_sign_bits_negate_rows() {
    // base 0b0100 (identity), bit 4 negates the first row, bit 6 the third
    let r = rotation_matrix(0b0100 | 0b0010000 | 0b1000000).unwrap();
    let expected = mat([[-1, 0, 0, 0], [0, 1, 0, 0], [0, 0, -1, 0], [0, 0, 0, 1]]);
    assert_eq!(r.m, expected.m);
    let r = rotation_matrix(0b0001 | 0b0100000).unwrap();
    let expected = mat([[0, 1, 0, 0], [-1, 0, 0, 0], [0, 0, 1, 0], [0, 0, 0, 1]]);
    assert_eq!(r.m, expected.m);
}

#[test]
fn rotation_errors() {
    assert_eq!(rotation_matrix(0).err(), Some(VoxError::InvalidRotation(0)));
    assert_eq!(rotation_matrix(0b0011_0111).err(), Some(VoxError::InvalidRotation(0b0111)));
    assert_eq!(parse_rotation("-4").err(), Some(VoxError::RotationNotNumber));
    assert_eq!(parse_rotation("256").err(), Some(VoxError::RotationNotNumber));
    assert!(parse_rotation("+4").is_ok());
}

#[test]
fn matrix_product_and_overflow() {
    let t = VoxTransform::translation(5, -2, 7);
    let u = VoxTransform::translation(1, 1, 1);
    assert_eq!(t.checked_mul(&u).unwrap().m, VoxTransform::translation(6, -1, 8).m);
    let big = VoxTransform::translation(i32::MAX, 0, 0);
    assert!(big.checked_mul(&u).is_none());
    let flip = VoxTransform::diagonal(-1, 1, 1, 1);
    assert_eq!(flip.apply(3, 4, 5), Some([-3, 4, 5]));
    assert_eq!(big.apply(1, 0, 0), None);
    assert!(flip.column_has_negative(0));
    assert!(!flip.column_has_negative(1));
}

fn model(size: u32) -> VoxModel {
    VoxModel { size_x: size, size_y: size, size_z: size, voxels: vec![] }
}

#[test]
fn empty_scene_places_nothing() {
    let vox = VoxData { models: vec![model(2)], scenes: vec![], palette: vec![], materials: vec![] };
    assert_eq!(parse_scene(&vox).unwrap().len(), 0);
}

#[test]
fn shape_is_centred_in_root_frame() {
    let vox = VoxData {
        palette: vec![],
        materials: vec![],
        models: vec![model(2)],
        scenes: vec![
            VoxNode::Transform { frames: vec![VoxFrame { translation: None, rotation: None }], child: 1 },
            VoxNode::Group { children: vec![2] },
            VoxNode::Shape { models: vec![0] },
        ],
    };
    let scene = parse_scene(&vox).unwrap();
    assert_eq!(scene.len(), 1);
    let (t, id) = scene[0];
    assert_eq!(id, 0);
    // y-up root, then the shift (-1, 0, -1): the second column is flipped, so one is added back
    let expected = mat([[1, 0, 0, -1], [0, 0, 1, -1], [0, -1, 0, 0], [0, 0, 0, 1]]);
    assert_eq!(t.m, expected.m);
}

#[test]
fn translation_frames_move_children() {
    let vox = VoxData {
        palette: vec![],
        materials: vec![],
        models: vec![model(0)],
        scenes: vec![
            VoxNode::Transform {
                frames: vec![VoxFrame { translation: Some("10 20 30".to_string()), rotation: None }],
                child: 1,
            },
            VoxNode::Shape { models: vec![0, 0] },
        ],
    };
    let scene = parse_scene(&vox).unwrap();
    assert_eq!(scene.len(), 2);
    // the root maps (x, y, z) to (x, z, -y); the flipped second column adds one
    // to each model's shift along y, and each shift stays for the next model
    assert_eq!(scene[0].0.apply(0, 0, 0), Some([10, 30, -21]));
    assert_eq!(scene[1].0.apply(0, 0, 0), Some([10, 30, -22]));
}

#[test]
fn scene_errors() {
    let cyclic = VoxData { models: vec![], scenes: vec![VoxNode::Group { children: vec![0] }], palette: vec![], materials: vec![] };
    assert_eq!(parse_scene(&cyclic).err(), Some(VoxError::CyclicScene));
    let missing_node = VoxData { models: vec![], scenes: vec![VoxNode::Group { children: vec![7] }], palette: vec![], materials: vec![] };
    assert_eq!(parse_scene(&missing_node).err(), Some(VoxError::MissingNode(7)));
    let missing_model = VoxData { models: vec![], scenes: vec![VoxNode::Shape { models: vec![3] }], palette: vec![], materials: vec![] };
    assert_eq!(parse_scene(&missing_model).err(), Some(VoxError::MissingModel(3)));
    let bad_rotation = VoxData {
        palette: vec![],
        materials: vec![],
        models: vec![],
        scenes: vec![
            VoxNode::Transform {
                frames: vec![VoxFrame { translation: None, rotation: Some("3".to_string()) }],
                child: 0,
            },
        ],
    };
    assert_eq!(parse_scene(&bad_rotation).err(), Some(VoxError::InvalidRotation(3)));
    let overflow = VoxData {
        palette: vec![],
        materials: vec![],
        models: vec![],
        scenes: vec![
            VoxNode::Transform {
                frames: vec![
                    VoxFrame { translation: Some("2147483647 0 0".to_string()), rotation: None },
                    VoxFrame { translation: Some("1 0 0".to_string()), rotation: None },
                ],
                child: 0,
            },
        ],
    };
    assert_eq!(parse_scene(&overflow).err(), Some(VoxError::Overflow));
}

#[test]
fn shared_children_are_walked_each_time() {
    let vox = VoxData {
        palette: vec![],
        materials: vec![],
        models: vec![model(2)],
        scenes: vec![VoxNode::Group { children: vec![1, 1] }, VoxNode::Shape { models: vec![0] }],
    };
    let scene = parse_scene(&vox).unwrap();
    assert_eq!(scene.len(), 2);
    assert_eq!(scene[0].0.m, scene[1].0.m);
}

#[test]
fn every_rotation_code_is_a_signed_permutation_or_rejected() {
    for r in 0..=255u8 {
        match rotation_matrix(r) {
            Ok(t) => {
                for row in 0..3 {
                    let entries = &t.m[4 * row..4 * row + 3];
                    assert_eq!(entries.iter().filter(|&&e| e != 0).count(), 1, "code {r}");
                    assert!(entries.iter().all(|&e| e == 0 || e == 1 || e == -1), "code {r}");
                    assert_eq!(t.m[4 * row + 3], 0);
                }
                assert_eq!(&t.m[12..16], &[0, 0, 0, 1]);
            }
            Err(e) => assert_eq!(e, VoxError::InvalidRotation(r & 0b1111)),
        }
    }
}

fn with_root(models: Vec<VoxModel>, root: VoxNode, rest: Vec<VoxNode>) -> VoxData {
    let mut scenes = vec![root];
    scenes.extend(rest);
    VoxData { models, scenes, palette: vec![], materials: vec![] }
}

fn shapes() -> Vec<VoxNode> {
    vec![VoxNode::Shape { models: vec![0] }, VoxNode::Shape { models: vec![1, 0] }]
}

#[test]
fn group_places_its_children_one_after_another() {
    let models = || vec![model(2), model(4)];
    let both = parse_scene(&with_root(models(), VoxNode::Group { children: vec![1, 2] }, shapes())).unwrap();
    let first = parse_scene(&with_root(models(), VoxNode::Group { children: vec![1] }, shapes())).unwrap();
    let second = parse_scene(&with_root(models(), VoxNode::Group { children: vec![2] }, shapes())).unwrap();
    assert_eq!(both.len(), 3);
    assert_eq!(both.len(), first.len() + second.len());
    for (k, (t, m)) in first.iter().chain(second.iter()).enumerate() {
        assert_eq!(both[k].0.m, t.m);
        assert_eq!(both[k].1, *m);
    }
    assert_eq!([both[0].1, both[1].1, both[2].1], [0, 1, 0]);
}

#[test]
fn frame_translates_then_rotates() {
    let identity = mat([[1, 0, 0, 0], [0, 1, 0, 0], [0, 0, 1, 0], [0, 0, 0, 1]]);
    let frame = VoxFrame { translation: Some("1 2 3".to_string()), rotation: Some("1".to_string()) };
    let t = apply_frame(&frame, identity).unwrap();
    // the translation comes first, the rotation (swap x and y) acts on the result
    let expected = VoxTransform::translation(1, 2, 3).checked_mul(&rotation_matrix(1).unwrap()).unwrap();
    assert_eq!(t.m, expected.m);
    assert_eq!(t.apply(1, 0, 0), Some([1, 3, 3]));
    let frames = vec![
        VoxFrame { translation: Some("1 0 0".to_string()), rotation: None },
        VoxFrame { translation: None, rotation: Some("1".to_string()) },
    ];
    let u = apply_frames(&frames, identity).unwrap();
    assert_eq!(u.apply(0, 5, 0), Some([6, 0, 0]));
}

#[test]
fn walking_a_node_appends_after_what_was_there() {
    let vox = with_root(vec![model(2), model(4)], VoxNode::Group { children: vec![1, 2] }, shapes());
    let identity = mat([[1, 0, 0, 0], [0, 1, 0, 0], [0, 0, 1, 0], [0, 0, 0, 1]]);
    let marker = VoxTransform::translation(7, 7, 7);
    let mut out = vec![(marker, 9)];
    parse_scene_impl(&vox, 0, identity, 3, &mut out).unwrap();
    assert_eq!(out.len(), 4);
    assert_eq!((out[0].0.m, out[0].1), (marker.m, 9));
    let mut first = vec![];
    parse_scene_impl(&vox, 1, identity, 2, &mut first).unwrap();
    let mut second = vec![];
    parse_scene_impl(&vox, 2, identity, 2, &mut second).unwrap();
    let rest: Vec<_> = first.iter().chain(second.iter()).map(|(t, m)| (t.m, *m)).collect();
    let got: Vec<_> = out[1..].iter().map(|(t, m)| (t.m, *m)).collect();
    assert_eq!(got, rest);
    assert_eq!(parse_scene_impl(&vox, 0, identity, 1, &mut vec![]).err(), Some(VoxError::CyclicScene));
}

#[test]
fn decimal_text_of_three_numbers_reads_back() {
    for (x, y, z) in [(0, 0, 0), (1, -2, 30), (i32::MIN, i32::MAX, -1), (-100, 2147483647, 9)] {
        assert_eq!(parse_translation(&format!("{} {} {}", x, y, z)), Ok([x, y, z]));
    }
}

#[test]
fn acyclic_walk_does_not_depend_on_fuel() {
    let vox = with_root(vec![model(2), model(4)], VoxNode::Group { children: vec![1, 2] }, shapes());
    let identity = mat([[1, 0, 0, 0], [0, 1, 0, 0], [0, 0, 1, 0], [0, 0, 0, 1]]);
    let walk = |fuel: usize| {
        let mut out = vec![];
        parse_scene_impl(&vox, 0, identity, fuel, &mut out).unwrap();
        out.iter().map(|(t, m)| (t.m, *m)).collect::<Vec<_>>()
    };
    assert_eq!(walk(2), walk(3));
    assert_eq!(walk(2), walk(100));
}
