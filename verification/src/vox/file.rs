//! Reading `.vox` files: the bytes are parsed by `dot_vox`, the world is built
//! from what it reads.
use vstd::prelude::*;
use crate::vox::model::spec_load;
use crate::vox::scene::{
    VoxData, VoxError, VoxFile, VoxFrame, VoxMaterial, VoxModel, VoxNode, VoxVoxel,
};

verus! {

/// `dot_vox::Size`, a model's size; opaque here, read only by the conversion below.
#[verifier::external_type_specification]
#[verifier::external_body]
pub struct ExDotVoxSize(dot_vox::Size);

/// `dot_vox::Voxel`; opaque here, read only by the conversion below.
#[verifier::external_type_specification]
#[verifier::external_body]
pub struct ExDotVoxVoxel(dot_vox::Voxel);

/// `dot_vox::SceneNode`; opaque here, read only by the conversion below.
#[verifier::external_type_specification]
#[verifier::external_body]
pub struct ExDotVoxSceneNode(dot_vox::SceneNode);

/// `dot_vox::Material`; opaque here, read only by the conversion below.
#[verifier::external_type_specification]
#[verifier::external_body]
pub struct ExDotVoxMaterial(dot_vox::Material);

/// What `dot_vox::load_bytes` reads from the bytes of a file, or `None` where it
/// refuses them as "Not a valid MagicaVoxel .vox file".
pub uninterp spec fn vox_file(bytes: Seq<u8>) -> Option<VoxFile>;

/// Parses the bytes of a `.vox` file with `dot_vox::load_bytes`, keeping the
/// models, the scene nodes, the palette and the materials. The contract claims
/// only that the result is a function of the bytes (named `vox_file`): the
/// `.vox` format itself is left to `dot_vox`.
#[verifier::external_body]
pub fn parse_vox_bytes(bytes: &[u8]) -> (r: Option<VoxData>)
    ensures
        match r {
            Some(d) => vox_file(bytes@) == Some(d@),
            None => vox_file(bytes@) is None,
        },
{
    let d = dot_vox::load_bytes(bytes).ok()?;
    Some(VoxData {
        models: d.models.iter().map(|m| vox_model_of(&m.size, &m.voxels)).collect(),
        scenes: d.scenes.iter().map(vox_node_of).collect(),
        palette: d.palette.iter().map(|c| [c.r, c.g, c.b, c.a]).collect(),
        materials: d.materials.iter().map(vox_material_of).collect(),
    })
}

/// Part of `parse_vox_bytes`: the size and voxels of a `dot_vox` model, field
/// for field.
#[verifier::external_body]
fn vox_model_of(size: &dot_vox::Size, voxels: &[dot_vox::Voxel]) -> VoxModel {
    VoxModel {
        size_x: size.x,
        size_y: size.y,
        size_z: size.z,
        voxels: voxels.iter().map(|v| VoxVoxel { x: v.x, y: v.y, z: v.z, i: v.i }).collect(),
    }
}

/// Part of `parse_vox_bytes`: a `dot_vox` scene node, without its attributes
/// and layer; of each frame, the `_t` and `_r` attributes.
#[verifier::external_body]
fn vox_node_of(n: &dot_vox::SceneNode) -> VoxNode {
    match n {
        dot_vox::SceneNode::Transform { frames, child, .. } => VoxNode::Transform {
            frames: frames.iter().map(|f| VoxFrame {
                translation: f.attributes.get("_t").cloned(),
                rotation: f.attributes.get("_r").cloned(),
            }).collect(),
            child: *child,
        },
        dot_vox::SceneNode::Group { children, .. } => VoxNode::Group { children: children.clone() },
        dot_vox::SceneNode::Shape { models, .. } => VoxNode::Shape {
            models: models.iter().map(|s| s.model_id).collect(),
        },
    }
}

/// Part of `parse_vox_bytes`: the properties of a material that the world reads.
#[verifier::external_body]
fn vox_material_of(m: &dot_vox::Material) -> VoxMaterial {
    let get = |k: &str| m.properties.get(k).cloned();
    VoxMaterial {
        kind: get("_type"),
        rough: get("_rough"),
        ior: get("_ior"),
        metal: get("_metal"),
        emit: get("_emit"),
        flux: get("_flux"),
    }
}

/// Why the bytes of a file give no voxel grid.
#[derive(Debug, Clone, Copy, PartialEq, Eq, Structural)]
pub enum LoadError {
    /// `dot_vox` does not read the bytes as a `.vox` file.
    NotVox,
    /// The file's scene gives no grid.
    Scene(VoxError),
}

/// The grid built from the bytes of a file: its size, its cells and the offset
/// from world coordinates to cells, as `spec_load` gives them for the file that
/// `dot_vox` reads.
pub open spec fn spec_load_bytes(bytes: Seq<u8>) -> Result<(Seq<int>, Seq<u8>, Seq<int>), LoadError> {
    match vox_file(bytes) {
        None => Err(LoadError::NotVox),
        Some(f) => match spec_load(f) {
            Ok(g) => Ok(g),
            Err(e) => Err(LoadError::Scene(e)),
        },
    }
}

/// Reads the bytes of a `.vox` file and builds its voxel grid.
pub fn load_model(bytes: &[u8]) -> (r: Result<(crate::vox::model::Model, [i32; 3]), LoadError>)
    ensures
        match spec_load_bytes(bytes@) {
            Ok((dims, cells, center)) => r matches Ok((m, c)) && m.width as int == dims[0]
                && m.height as int == dims[1] && m.depth as int == dims[2] && m.voxels@ == cells
                && c[0] as int == center[0] && c[1] as int == center[1] && c[2] as int
                == center[2],
            Err(e) => r matches Err(e2) && e2 == e,
        },
{
    match parse_vox_bytes(bytes) {
        None => Err(LoadError::NotVox),
        Some(data) => match crate::vox::model::Model::load(&data) {
            Ok(loaded) => Ok(loaded),
            Err(e) => Err(LoadError::Scene(e)),
        },
    }
}

} // verus!
