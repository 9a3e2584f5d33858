use voxer::vox::file::{load_model, parse_vox_bytes, LoadError};
use voxer::vox::model::Model;
use voxer::vox::scene::{VoxData, VoxError, VoxFrame, VoxModel, VoxNode, VoxVoxel};

fn le(v: u32) -> Vec<u8> {
    v.to_le_bytes().to_vec()
}

fn chunk(id: &str, content: &[u8], children: &[u8]) -> Vec<u8> {
    let mut out = id.as_bytes().to_vec();
    out.extend(le(content.len() as u32));
    out.extend(le(children.len() as u32));
    out.extend_from_slice(content);
    out.extend_from_slice(children);
    out
}

fn text(s: &str) -> Vec<u8> {
    let mut out = le(s.len() as u32);
    out.extend_from_slice(s.as_bytes());
    out
}

fn dict(pairs: &[(&str, &str)]) -> Vec<u8> {
    let mut out = le(pairs.len() as u32);
    for (k, v) in pairs {
        out.extend(text(k));
        out.extend(text(v));
    }
    out
}

fn file(chunks: &[Vec<u8>]) -> Vec<u8> {
    let mut out = b"VOX ".to_vec();
    out.extend(le(150));
    out.extend(chunk("MAIN", &[], &chunks.concat()));
    out
}

fn model_chunks(size: u32, voxels: &[[u8; 4]]) -> Vec<Vec<u8>> {
    let mut xyzi = le(voxels.len() as u32);
    for v in voxels {
        xyzi.extend_from_slice(v);
    }
    vec![chunk("SIZE", &[le(size), le(size), le(size)].concat(), &[]), chunk("XYZI", &xyzi, &[])]
}

fn transform(id: u32, child: u32, frame: &[(&str, &str)]) -> Vec<u8> {
    let content = [le(id), dict(&[]), le(child), le(u32::MAX), le(u32::MAX), le(1), dict(frame)].concat();
    chunk("nTRN", &content, &[])
}

fn group(id: u32, children: &[u32]) -> Vec<u8> {
    let mut content = [le(id), dict(&[]), le(children.len() as u32)].concat();
    for c in children {
        content.extend(le(*c));
    }
    chunk("nGRP", &content, &[])
}

fn shape(id: u32, model: u32) -> Vec<u8> {
    chunk("nSHP", &[le(id), dict(&[]), le(1), le(model), dict(&[])].concat(), &[])
}

fn small_scene(frame: &[(&str, &str)]) -> Vec<u8> {
    let mut chunks = model_chunks(2, &[[0, 0, 0, 5], [1, 1, 1, 9]]);
    chunks.push(transform(0, 1, frame));
    chunks.push(group(1, &[2]));
    chunks.push(shape(2, 0));
    file(&chunks)
}

fn same_scene_by_hand(translation: Option<&str>) -> VoxData {
    VoxData {
        models: vec![VoxModel {
            size_x: 2,
            size_y: 2,
            size_z: 2,
            voxels: vec![VoxVoxel { x: 0, y: 0, z: 0, i: 4 }, VoxVoxel { x: 1, y: 1, z: 1, i: 8 }],
        }],
        scenes: vec![
            VoxNode::Transform {
                frames: vec![VoxFrame { translation: translation.map(String::from), rotation: None }],
                child: 1,
            },
            VoxNode::Group { children: vec![2] },
            VoxNode::Shape { models: vec![0] },
        ],
        palette: vec![],
        materials: vec![],
    }
}

#[test]
fn bytes_that_are_not_vox_are_refused() {
    assert!(parse_vox_bytes(b"not a voxel file").is_none());
    assert_eq!(load_model(b"not a voxel file").err(), Some(LoadError::NotVox));
    assert_eq!(load_model(&[]).err(), Some(LoadError::NotVox));
}

#[test]
fn parse_reads_models_scene_and_frames() {
    let data = parse_vox_bytes(&small_scene(&[("_t", "1 2 3"), ("_r", "4")])).unwrap();
    assert_eq!(data.models.len(), 1);
    assert_eq!((data.models[0].size_x, data.models[0].size_y, data.models[0].size_z), (2, 2, 2));
    assert_eq!(data.models[0].voxels.len(), 2);
    assert_eq!(data.models[0].voxels[0].i, 4);
    assert_eq!(data.models[0].voxels[1].x, 1);
    assert_eq!(data.scenes.len(), 3);
    match &data.scenes[0] {
        VoxNode::Transform { frames, child } => {
            assert_eq!(*child, 1);
            assert_eq!(frames.len(), 1);
            assert_eq!(frames[0].translation.as_deref(), Some("1 2 3"));
            assert_eq!(frames[0].rotation.as_deref(), Some("4"));
        },
        _ => panic!("node 0 is a transform"),
    }
    assert!(matches!(&data.scenes[1], VoxNode::Group { children } if children == &vec![2]));
    assert!(matches!(&data.scenes[2], VoxNode::Shape { models } if models == &vec![0]));
    assert_eq!(data.palette.len(), 256);
    assert!(data.materials.is_empty());
}

#[test]
fn load_model_matches_the_scene_read_by_hand() {
    let (model, center) = load_model(&small_scene(&[("_t", "5 -6 7")])).unwrap();
    let (expected, expected_center) = Model::load(&same_scene_by_hand(Some("5 -6 7"))).unwrap();
    assert_eq!((model.width, model.height, model.depth), (expected.width, expected.height, expected.depth));
    assert_eq!(model.voxels, expected.voxels);
    assert_eq!(center, expected_center);
    assert_eq!((model.width, model.height, model.depth), (2, 2, 2));
    assert_eq!(model.voxels.iter().filter(|c| **c != 0).count(), 2);
}

#[test]
fn load_model_reports_scene_errors() {
    let bad = small_scene(&[("_t", "1 2")]);
    assert_eq!(load_model(&bad).err(), Some(LoadError::Scene(VoxError::TranslationNotThree)));
    let no_scene = file(&model_chunks(2, &[[0, 0, 0, 1]]));
    assert_eq!(load_model(&no_scene).err(), Some(LoadError::Scene(VoxError::Overflow)));
}
