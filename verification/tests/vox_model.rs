use voxer::vox::model::Model;
use voxer::vox::scene::{VoxData, VoxError, VoxFrame, VoxModel, VoxNode, VoxVoxel};

fn voxel(x: u8, y: u8, z: u8, i: u8) -> VoxVoxel {
    VoxVoxel { x, y, z, i }
}

fn one_model_scene(size: u32, voxels: Vec<VoxVoxel>) -> VoxData {
    VoxData {
        palette: vec![],
        materials: vec![],
        models: vec![VoxModel { size_x: size, size_y: size, size_z: size, voxels }],
        scenes: vec![
            VoxNode::Transform { frames: vec![VoxFrame { translation: None, rotation: None }], child: 1 },
            VoxNode::Group { children: vec![2] },
            VoxNode::Shape { models: vec![0] },
        ],
    }
}

#[test]
fn load_places_voxels_in_grid() {
    let vox = one_model_scene(2, vec![voxel(0, 0, 0, 0), voxel(1, 1, 1, 4)]);
    let (model, center) = Model::load(&vox).unwrap();
    assert_eq!((model.width, model.height, model.depth), (2, 2, 2));
    // (0,0,0) lands on cell (0,0,1); (1,1,1) on cell (1,1,0)
    assert_eq!(model.voxels, vec![0, 0, 0, 5, 1, 0, 0, 0]);
    assert_eq!(center, [1, 1, 1]);
}

#[test]
fn grid_length_is_padded_to_four() {
    let vox = one_model_scene(3, vec![voxel(2, 2, 2, 9)]);
    let (model, _) = Model::load(&vox).unwrap();
    assert_eq!((model.width, model.height, model.depth), (3, 3, 3));
    assert_eq!(model.voxels.len(), 28);
    assert_eq!(model.voxels.iter().filter(|&&b| b != 0).count(), 1);
}

#[test]
fn later_voxel_wins_a_cell() {
    let vox = one_model_scene(1, vec![voxel(0, 0, 0, 1), voxel(0, 0, 0, 7)]);
    let (model, _) = Model::load(&vox).unwrap();
    assert_eq!(model.voxels, vec![8, 0, 0, 0]);
}

#[test]
fn every_voxel_inside_its_box_is_placed() {
    let mut voxels = vec![];
    for x in 0..4u8 {
        for y in 0..4u8 {
            for z in 0..4u8 {
                if (x + y + z) % 3 == 0 {
                    voxels.push(voxel(x, y, z, x));
                }
            }
        }
    }
    let count = voxels.len();
    let vox = one_model_scene(4, voxels);
    let (model, _) = Model::load(&vox).unwrap();
    assert_eq!(model.voxels.len(), 64);
    assert_eq!(model.voxels.iter().filter(|&&b| b != 0).count(), count);
}

#[test]
fn load_errors() {
    let outside = one_model_scene(1, vec![voxel(3, 0, 0, 0)]);
    assert_eq!(Model::load(&outside).err(), Some(VoxError::VoxelOutsideBounds));
    let palette_overflow = one_model_scene(2, vec![voxel(0, 0, 0, 255)]);
    assert_eq!(Model::load(&palette_overflow).err(), Some(VoxError::Overflow));
    let nothing = VoxData { models: vec![], scenes: vec![], palette: vec![], materials: vec![] };
    assert_eq!(Model::load(&nothing).err(), Some(VoxError::Overflow));
    let cyclic = VoxData { models: vec![], scenes: vec![VoxNode::Group { children: vec![0] }], palette: vec![], materials: vec![] };
    assert_eq!(Model::load(&cyclic).err(), Some(VoxError::CyclicScene));
}
