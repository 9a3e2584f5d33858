//! `.vox` scene graphs and the placement of their models.
//!
//! A scene is a tree of nodes: transform nodes move and rotate their child,
//! group nodes gather children, shape nodes place models. Walking the tree from
//! node 0 yields, for each placed model, the transform that maps the model's
//! voxel coordinates into the world.
use vstd::prelude::*;
use crate::vox::matrix::{
    all_fit, diagonal, fits_i32, is_grid_transform, is_unit_or_zero, lemma_grid_transform_mul,
    mat_at, mat_from_rows, mat_mul, mul_entry, translation, VoxTransform,
};
use crate::vox::text::{
    chars_of, decimal, lemma_decimal_reads_back, lemma_split_three_words, parse_i32, parse_u8,
    pieces, spec_parse_i32, spec_parse_u8, split_spaces, split_spaces_exec,
};

verus! {

/// One animation frame of a transform node: its `_t` (translation) and `_r`
/// (rotation) attributes, when present.
pub struct VoxFrame {
    pub translation: Option<String>,
    pub rotation: Option<String>,
}

/// A node of the scene graph; children and models are named by index.
pub enum VoxNode {
    Transform { frames: Vec<VoxFrame>, child: u32 },
    Group { children: Vec<u32> },
    Shape { models: Vec<u32> },
}

/// A voxel of a model: its position inside the model and its palette index.
#[derive(Clone, Copy)]
pub struct VoxVoxel {
    pub x: u8,
    pub y: u8,
    pub z: u8,
    pub i: u8,
}

/// A model: the size of its box and its voxels.
pub struct VoxModel {
    pub size_x: u32,
    pub size_y: u32,
    pub size_z: u32,
    pub voxels: Vec<VoxVoxel>,
}

/// The properties of a palette entry's material that the world reads, as text.
pub struct VoxMaterial {
    pub kind: Option<String>,
    pub rough: Option<String>,
    pub ior: Option<String>,
    pub metal: Option<String>,
    pub emit: Option<String>,
    pub flux: Option<String>,
}

/// The parts of a `.vox` file that the world is built from: the models, the
/// scene graph (node 0 is the root), the palette colours (red, green, blue,
/// alpha) and the materials of the palette entries.
pub struct VoxData {
    pub models: Vec<VoxModel>,
    pub scenes: Vec<VoxNode>,
    pub palette: Vec<[u8; 4]>,
    pub materials: Vec<VoxMaterial>,
}

/// A frame's attributes as character sequences.
pub struct VoxFrameView {
    pub translation: Option<Seq<char>>,
    pub rotation: Option<Seq<char>>,
}

/// A scene node with its lists as sequences.
pub enum VoxNodeView {
    Transform { frames: Seq<VoxFrameView>, child: u32 },
    Group { children: Seq<u32> },
    Shape { models: Seq<u32> },
}

/// A model with its voxels as a sequence.
pub struct VoxModelView {
    pub size_x: u32,
    pub size_y: u32,
    pub size_z: u32,
    pub voxels: Seq<VoxVoxel>,
}

/// A material's properties as character sequences.
pub struct VoxMaterialView {
    pub kind: Option<Seq<char>>,
    pub rough: Option<Seq<char>>,
    pub ior: Option<Seq<char>>,
    pub metal: Option<Seq<char>>,
    pub emit: Option<Seq<char>>,
    pub flux: Option<Seq<char>>,
}

/// The contents of a `.vox` file, as mathematical values.
pub struct VoxFile {
    pub models: Seq<VoxModelView>,
    pub scenes: Seq<VoxNodeView>,
    pub palette: Seq<[u8; 4]>,
    pub materials: Seq<VoxMaterialView>,
}

/// The text of an optional attribute.
pub open spec fn text_view(t: Option<String>) -> Option<Seq<char>> {
    match t {
        Some(s) => Some(s@),
        None => None,
    }
}

/// The views of a list of frames.
pub open spec fn frame_views(fs: Seq<VoxFrame>) -> Seq<VoxFrameView> {
    fs.map_values(|f: VoxFrame| f@)
}

impl View for VoxFrame {
    type V = VoxFrameView;

    open spec fn view(&self) -> VoxFrameView {
        VoxFrameView { translation: text_view(self.translation), rotation: text_view(self.rotation) }
    }
}

impl View for VoxNode {
    type V = VoxNodeView;

    open spec fn view(&self) -> VoxNodeView {
        match self {
            VoxNode::Transform { frames, child } => VoxNodeView::Transform {
                frames: frame_views(frames@),
                child: *child,
            },
            VoxNode::Group { children } => VoxNodeView::Group { children: children@ },
            VoxNode::Shape { models } => VoxNodeView::Shape { models: models@ },
        }
    }
}

impl View for VoxModel {
    type V = VoxModelView;

    open spec fn view(&self) -> VoxModelView {
        VoxModelView {
            size_x: self.size_x,
            size_y: self.size_y,
            size_z: self.size_z,
            voxels: self.voxels@,
        }
    }
}

impl View for VoxMaterial {
    type V = VoxMaterialView;

    open spec fn view(&self) -> VoxMaterialView {
        VoxMaterialView {
            kind: text_view(self.kind),
            rough: text_view(self.rough),
            ior: text_view(self.ior),
            metal: text_view(self.metal),
            emit: text_view(self.emit),
            flux: text_view(self.flux),
        }
    }
}

impl View for VoxData {
    type V = VoxFile;

    open spec fn view(&self) -> VoxFile {
        VoxFile {
            models: self.models@.map_values(|m: VoxModel| m@),
            scenes: self.scenes@.map_values(|n: VoxNode| n@),
            palette: self.palette@,
            materials: self.materials@.map_values(|m: VoxMaterial| m@),
        }
    }
}

/// Why a `.vox` scene cannot be turned into a voxel grid.
///
/// Each variant is a file on which building the world cannot go on: a malformed
/// `_t` or `_r` attribute, a missing node or model, a cycle, a number out of
/// range. A viewer stops there (the application aborts with a message naming
/// the attribute); the library returns the error as a value and never panics.
#[derive(Debug, Clone, Copy, PartialEq, Eq, Structural)]
pub enum VoxError {
    /// A node names a scene node that does not exist.
    MissingNode(u32),
    /// A shape names a model that does not exist.
    MissingModel(u32),
    /// A `_t` attribute holds a piece that is not an `i32`.
    TranslationNotNumber,
    /// A `_t` attribute does not hold exactly three numbers.
    TranslationNotThree,
    /// An `_r` attribute is not a `u8`.
    RotationNotNumber,
    /// The low four bits of an `_r` attribute name no rotation (they are given).
    InvalidRotation(u8),
    /// A path of children from node 0 visits more nodes than the scene has, so
    /// it runs round a cycle.
    CyclicScene,
    /// A coordinate, size or count does not fit its integer type.
    Overflow,
    /// A voxel lands outside the bounds computed from the models' boxes.
    VoxelOutsideBounds,
}

/// A placed model: the transform of its voxels and the model's index.
pub type Placement = (Seq<int>, int);

/// The placements held by an executable list.
pub open spec fn placements(v: Seq<(VoxTransform, usize)>) -> Seq<Placement> {
    v.map_values(|p: (VoxTransform, usize)| (p.0@, p.1 as int))
}

pub open spec fn checked(p: Seq<int>) -> Result<Seq<int>, VoxError> {
    if all_fit(p) {
        Ok(p)
    } else {
        Err(VoxError::Overflow)
    }
}

/// The translation that a `_t` attribute holds.
pub open spec fn spec_parse_translation(s: Seq<char>) -> Result<Seq<int>, VoxError> {
    let parts = split_spaces(s);
    if exists|i: int| 0 <= i < parts.len() && (#[trigger] spec_parse_i32(parts[i])) is None {
        Err(VoxError::TranslationNotNumber)
    } else if parts.len() != 3 {
        Err(VoxError::TranslationNotThree)
    } else {
        Ok(
            seq![
                spec_parse_i32(parts[0])->0,
                spec_parse_i32(parts[1])->0,
                spec_parse_i32(parts[2])->0,
            ],
        )
    }
}

pub open spec fn row_x() -> Seq<int> {
    seq![1, 0, 0, 0]
}

pub open spec fn row_y() -> Seq<int> {
    seq![0, 1, 0, 0]
}

pub open spec fn row_z() -> Seq<int> {
    seq![0, 0, 1, 0]
}

pub open spec fn row_w() -> Seq<int> {
    seq![0, 0, 0, 1]
}

/// The permutation that the low four bits of an `_r` attribute name.
pub open spec fn rotation_base(m: u8) -> Option<Seq<int>> {
    if m == 0b0100 {
        Some(mat_from_rows(row_x(), row_y(), row_z(), row_w()))
    } else if m == 0b0001 {
        Some(mat_from_rows(row_y(), row_x(), row_z(), row_w()))
    } else if m == 0b1000 {
        Some(mat_from_rows(row_x(), row_z(), row_y(), row_w()))
    } else if m == 0b0010 {
        Some(mat_from_rows(row_z(), row_y(), row_x(), row_w()))
    } else if m == 0b1001 {
        Some(mat_from_rows(row_y(), row_z(), row_x(), row_w()))
    } else if m == 0b0110 {
        Some(mat_from_rows(row_z(), row_y(), row_x(), row_w()))
    } else {
        None
    }
}

/// The rotation that the packed value `r` of an `_r` attribute names: the base
/// permutation, then the rows negated that bits 4, 5 and 6 ask for.
pub open spec fn spec_rotation(r: u8) -> Result<Seq<int>, VoxError> {
    match rotation_base(r & 0b1111u8) {
        None => Err(VoxError::InvalidRotation(r & 0b1111u8)),
        Some(base) => {
            let a = if r & 0b0010000u8 != 0 {
                mat_mul(diagonal(-1, 1, 1, 1), base)
            } else {
                base
            };
            let b = if r & 0b0100000u8 != 0 {
                mat_mul(diagonal(1, -1, 1, 1), a)
            } else {
                a
            };
            let c = if r & 0b1000000u8 != 0 {
                mat_mul(diagonal(1, 1, -1, 1), b)
            } else {
                b
            };
            Ok(c)
        },
    }
}

/// The rotation that an `_r` attribute holds.
pub open spec fn spec_parse_rotation(s: Seq<char>) -> Result<Seq<int>, VoxError> {
    match spec_parse_u8(s) {
        None => Err(VoxError::RotationNotNumber),
        Some(v) => spec_rotation(v as u8),
    }
}

/// `t` after one frame: its translation, then its rotation, each multiplied on the right.
pub open spec fn spec_frame(f: VoxFrameView, t: Seq<int>) -> Result<Seq<int>, VoxError> {
    let moved = match f.translation {
        None => Ok(t),
        Some(s) => match spec_parse_translation(s) {
            Err(e) => Err(e),
            Ok(v) => checked(mat_mul(t, translation(v[0], v[1], v[2]))),
        },
    };
    match moved {
        Err(e) => Err(e),
        Ok(t1) => match f.rotation {
            None => Ok(t1),
            Some(s) => match spec_parse_rotation(s) {
                Err(e) => Err(e),
                Ok(rot) => checked(mat_mul(t1, rot)),
            },
        },
    }
}

/// `t` after all frames, in order.
pub open spec fn spec_frames(fs: Seq<VoxFrameView>, t: Seq<int>) -> Result<Seq<int>, VoxError>
    decreases fs.len(),
{
    if fs.len() == 0 {
        Ok(t)
    } else {
        match spec_frames(fs.drop_last(), t) {
            Err(e) => Err(e),
            Ok(t1) => spec_frame(fs.last(), t1),
        }
    }
}

pub open spec fn column_negative(t: Seq<int>, c: int) -> bool {
    mat_at(t, 0, c) < 0 || mat_at(t, 1, c) < 0 || mat_at(t, 2, c) < 0
}

/// The shift that centres a model of the given size along one axis; one more
/// when the transform flips that axis.
pub open spec fn shape_offset(size: u32, flipped: bool) -> int {
    -((size / 2) as int) + if flipped {
        1int
    } else {
        0
    }
}

/// The transform of the next model of a shape node.
pub open spec fn spec_shape_step(vox: VoxFile, id: u32, t: Seq<int>) -> Result<Seq<int>, VoxError> {
    if id >= vox.models.len() {
        Err(VoxError::MissingModel(id))
    } else {
        let m = vox.models[id as int];
        checked(
            mat_mul(
                t,
                translation(
                    shape_offset(m.size_x, column_negative(t, 0)),
                    shape_offset(m.size_y, column_negative(t, 1)),
                    shape_offset(m.size_z, column_negative(t, 2)),
                ),
            ),
        )
    }
}

/// The placements of a shape node's models, and the transform after the last one:
/// each model's shift stays in the transform for the models after it.
pub open spec fn spec_shapes(vox: VoxFile, ms: Seq<u32>, t: Seq<int>) -> Result<
    (Seq<int>, Seq<Placement>),
    VoxError,
>
    decreases ms.len(),
{
    if ms.len() == 0 {
        Ok((t, Seq::empty()))
    } else {
        match spec_shapes(vox, ms.drop_last(), t) {
            Err(e) => Err(e),
            Ok((t1, acc)) => match spec_shape_step(vox, ms.last(), t1) {
                Err(e) => Err(e),
                Ok(t2) => Ok((t2, acc.push((t2, ms.last() as int)))),
            },
        }
    }
}

/// The placements below `node`, reached with transform `t`; `fuel` is the number
/// of nodes that the path may still visit.
pub open spec fn spec_scene_node(vox: VoxFile, node: u32, t: Seq<int>, fuel: nat) -> Result<
    Seq<Placement>,
    VoxError,
>
    decreases fuel, 0nat,
{
    if node >= vox.scenes.len() {
        Err(VoxError::MissingNode(node))
    } else if fuel == 0 {
        Err(VoxError::CyclicScene)
    } else {
        match vox.scenes[node as int] {
            VoxNodeView::Transform { frames, child } => match spec_frames(frames, t) {
                Err(e) => Err(e),
                Ok(t1) => spec_scene_node(vox, child, t1, (fuel - 1) as nat),
            },
            VoxNodeView::Group { children } => spec_scene_children(
                vox,
                children,
                t,
                (fuel - 1) as nat,
            ),
            VoxNodeView::Shape { models } => match spec_shapes(vox, models, t) {
                Err(e) => Err(e),
                Ok((_, ps)) => Ok(ps),
            },
        }
    }
}

/// The placements below each of `cs`, in order.
pub open spec fn spec_scene_children(vox: VoxFile, cs: Seq<u32>, t: Seq<int>, fuel: nat) -> Result<
    Seq<Placement>,
    VoxError,
>
    decreases fuel, cs.len() + 1,
{
    if cs.len() == 0 {
        Ok(Seq::empty())
    } else {
        match spec_scene_children(vox, cs.drop_last(), t, fuel) {
            Err(e) => Err(e),
            Ok(a) => match spec_scene_node(vox, cs.last(), t, fuel) {
                Err(e) => Err(e),
                Ok(b) => Ok(a + b),
            },
        }
    }
}

/// The transform at the root: `.vox` files are z-up, the world is y-up.
pub open spec fn root_transform() -> Seq<int> {
    mat_from_rows(row_x(), row_z(), seq![0, -1, 0, 0], row_w())
}

/// Every model placement of the scene, walking the tree from node 0; a file
/// without scene nodes places nothing.
pub open spec fn spec_parse_scene(vox: VoxFile) -> Result<Seq<Placement>, VoxError> {
    if vox.scenes.len() == 0 {
        Ok(Seq::empty())
    } else {
        spec_scene_node(vox, 0, root_transform(), vox.scenes.len())
    }
}

/// The result of a step that appends to `out`, against the spec of that step.
pub open spec fn appended(
    r: Result<(), VoxError>,
    before: Seq<(VoxTransform, usize)>,
    after: Seq<(VoxTransform, usize)>,
    expected: Result<Seq<Placement>, VoxError>,
) -> bool {
    match expected {
        Ok(s) => r is Ok && placements(after) == placements(before) + s,
        Err(e) => r == Err::<(), VoxError>(e),
    }
}

proof fn lemma_frames_prefix_err(fs: Seq<VoxFrameView>, k: int, t: Seq<int>)
    requires
        0 <= k <= fs.len(),
        spec_frames(fs.take(k), t) is Err,
    ensures
        spec_frames(fs, t) == spec_frames(fs.take(k), t),
    decreases fs.len(),
{
    if fs.len() == k {
        assert(fs.take(k) =~= fs);
    } else {
        assert(fs.drop_last().take(k) =~= fs.take(k));
        lemma_frames_prefix_err(fs.drop_last(), k, t);
    }
}

proof fn lemma_shapes_prefix_err(vox: VoxFile, ms: Seq<u32>, k: int, t: Seq<int>)
    requires
        0 <= k <= ms.len(),
        spec_shapes(vox, ms.take(k), t) is Err,
    ensures
        spec_shapes(vox, ms, t) == spec_shapes(vox, ms.take(k), t),
    decreases ms.len(),
{
    if ms.len() == k {
        assert(ms.take(k) =~= ms);
    } else {
        assert(ms.drop_last().take(k) =~= ms.take(k));
        lemma_shapes_prefix_err(vox, ms.drop_last(), k, t);
    }
}

proof fn lemma_children_prefix_err(vox: VoxFile, cs: Seq<u32>, k: int, t: Seq<int>, fuel: nat)
    requires
        0 <= k <= cs.len(),
        spec_scene_children(vox, cs.take(k), t, fuel) is Err,
    ensures
        spec_scene_children(vox, cs, t, fuel) == spec_scene_children(vox, cs.take(k), t, fuel),
    decreases cs.len(),
{
    if cs.len() == k {
        assert(cs.take(k) =~= cs);
    } else {
        assert(cs.drop_last().take(k) =~= cs.take(k));
        lemma_children_prefix_err(vox, cs.drop_last(), k, t, fuel);
    }
}

proof fn lemma_unit_entries_diagonal_mul(d0: int, d1: int, d2: int, t: Seq<int>)
    requires
        is_unit_or_zero(d0),
        is_unit_or_zero(d1),
        is_unit_or_zero(d2),
        t.len() == 16,
        forall|k: int| 0 <= k < 16 ==> is_unit_or_zero(#[trigger] t[k]),
    ensures
        forall|k: int| 0 <= k < 16 ==> is_unit_or_zero(#[trigger] mat_mul(diagonal(d0, d1, d2, 1), t)[k]),
        all_fit(mat_mul(diagonal(d0, d1, d2, 1), t)),
{
    let dg = diagonal(d0, d1, d2, 1);
    let p = mat_mul(dg, t);
    assert forall|k: int| 0 <= k < 16 implies is_unit_or_zero(#[trigger] p[k]) by {
        let r = k / 4;
        let c = k % 4;
        assert(p[k] == mul_entry(dg, t, r, c));
        assert(0 <= r < 4);
        assert(0 <= c < 4);
        assert(t[4 * r + c] == t[k]);
        if r == 0 {
            assert(mul_entry(dg, t, r, c) == d0 * t[c]);
        } else if r == 1 {
            assert(mul_entry(dg, t, r, c) == d1 * t[4 + c]);
        } else if r == 2 {
            assert(mul_entry(dg, t, r, c) == d2 * t[8 + c]);
        } else {
            assert(mul_entry(dg, t, r, c) == t[12 + c]);
        }
    }
}

proof fn lemma_base_unit_entries(m: u8)
    requires
        rotation_base(m) is Some,
    ensures
        forall|k: int|
            0 <= k < 16 ==> is_unit_or_zero(#[trigger] rotation_base(m)->0[k]),
        rotation_base(m)->0.len() == 16,
        is_grid_transform(rotation_base(m)->0),
{
    let b = rotation_base(m)->0;
    if m == 0b0100 {
        assert(b =~= seq![1, 0, 0, 0, 0, 1, 0, 0, 0, 0, 1, 0, 0, 0, 0, 1]);
    } else if m == 0b0001 {
        assert(b =~= seq![0, 1, 0, 0, 1, 0, 0, 0, 0, 0, 1, 0, 0, 0, 0, 1]);
    } else if m == 0b1000 {
        assert(b =~= seq![1, 0, 0, 0, 0, 0, 1, 0, 0, 1, 0, 0, 0, 0, 0, 1]);
    } else if m == 0b0010 || m == 0b0110 {
        assert(b =~= seq![0, 0, 1, 0, 0, 1, 0, 0, 1, 0, 0, 0, 0, 0, 0, 1]);
    } else {
        assert(b =~= seq![0, 1, 0, 0, 0, 0, 1, 0, 1, 0, 0, 0, 0, 0, 0, 1]);
    }
}

proof fn lemma_diagonal_grid(d0: int, d1: int, d2: int)
    requires
        d0 == 1 || d0 == -1,
        d1 == 1 || d1 == -1,
        d2 == 1 || d2 == -1,
    ensures
        is_grid_transform(diagonal(d0, d1, d2, 1)),
{
}

/// Every rotation that an `_r` value names is a signed permutation of the axes.
pub proof fn lemma_rotation_is_grid_transform(r: u8)
    requires
        spec_rotation(r) is Ok,
    ensures
        is_grid_transform(spec_rotation(r)->Ok_0),
        all_fit(spec_rotation(r)->Ok_0),
{
    let m = r & 0b1111u8;
    lemma_base_unit_entries(m);
    let base = rotation_base(m)->0;
    lemma_unit_entries_diagonal_mul(-1, 1, 1, base);
    lemma_diagonal_grid(-1, 1, 1);
    lemma_diagonal_grid(1, -1, 1);
    lemma_diagonal_grid(1, 1, -1);
    let a = if r & 0b0010000u8 != 0 {
        lemma_grid_transform_mul(diagonal(-1, 1, 1, 1), base);
        mat_mul(diagonal(-1, 1, 1, 1), base)
    } else {
        base
    };
    lemma_unit_entries_diagonal_mul(1, -1, 1, a);
    let b = if r & 0b0100000u8 != 0 {
        lemma_grid_transform_mul(diagonal(1, -1, 1, 1), a);
        mat_mul(diagonal(1, -1, 1, 1), a)
    } else {
        a
    };
    lemma_unit_entries_diagonal_mul(1, 1, -1, b);
    if r & 0b1000000u8 != 0 {
        lemma_grid_transform_mul(diagonal(1, 1, -1, 1), b);
    }
    let c = spec_rotation(r)->Ok_0;
    assert forall|k: int| 0 <= k < 16 implies fits_i32(#[trigger] c[k]) by {
        assert(is_unit_or_zero(c[k]));
    }
}

/// Reads a `_t` attribute.
pub fn parse_translation(s: &str) -> (r: Result<[i32; 3], VoxError>)
    ensures
        match spec_parse_translation(s@) {
            Ok(v) => r matches Ok(a) && a[0] as int == v[0] && a[1] as int == v[1] && a[2] as int
                == v[2],
            Err(e) => r == Err::<[i32; 3], VoxError>(e),
        },
{
    let chars = chars_of(s);
    let parts = split_spaces_exec(&chars);
    let ghost ps = split_spaces(s@);
    assert(pieces(parts@) == ps);
    let mut values: Vec<i32> = Vec::new();
    let mut i: usize = 0;
    while i < parts.len()
        invariant
            i <= parts.len(),
            pieces(parts@) == ps,
            ps == split_spaces(s@),
            values.len() == i,
            forall|j: int|
                0 <= j < i ==> #[trigger] spec_parse_i32(ps[j]) == Some(values@[j] as int),
        decreases parts.len() - i,
    {
        assert(parts@[i as int]@ == ps[i as int]);
        match parse_i32(&parts[i]) {
            Some(v) => {
                values.push(v);
            },
            None => {
                assert(ps.len() == parts.len());
                assert(0 <= i < ps.len() && spec_parse_i32(ps[i as int]) is None);
                return Err(VoxError::TranslationNotNumber);
            },
        }
        i = i + 1;
    }
    assert(!exists|j: int| 0 <= j < ps.len() && (#[trigger] spec_parse_i32(ps[j])) is None) by {
        assert forall|j: int| 0 <= j < ps.len() implies (#[trigger] spec_parse_i32(ps[j])) is Some by {
            assert(spec_parse_i32(ps[j]) == Some(values@[j] as int));
        }
    }
    if values.len() != 3 {
        return Err(VoxError::TranslationNotThree);
    }
    assert(spec_parse_i32(ps[0]) == Some(values@[0] as int));
    assert(spec_parse_i32(ps[1]) == Some(values@[1] as int));
    assert(spec_parse_i32(ps[2]) == Some(values@[2] as int));
    Ok([values[0], values[1], values[2]])
}

/// The rotation that a packed `_r` value names.
pub fn rotation_matrix(r: u8) -> (res: Result<VoxTransform, VoxError>)
    ensures
        match spec_rotation(r) {
            Ok(m) => res matches Ok(t) && t@ == m,
            Err(e) => res == Err::<VoxTransform, VoxError>(e),
        },
        res is Ok <==> (r % 4 < 3 && (r % 16) / 4 < 3 && r % 4 != (r % 16) / 4),
        r % 16 != 2 ==> (res matches Ok(t) ==> forall|i: int, c: int|
            0 <= i < 3 && 0 <= c < 4 ==> #[trigger] mat_at(t@, i, c) == if c == row_axis(
                (r % 16) as int,
                i,
            ) {
                row_sign(r as int, i)
            } else {
                0
            }),
{
    proof {
        lemma_rotation_rows(r);
    }
    let rx: [i32; 4] = [1, 0, 0, 0];
    let ry: [i32; 4] = [0, 1, 0, 0];
    let rz: [i32; 4] = [0, 0, 1, 0];
    let rw: [i32; 4] = [0, 0, 0, 1];
    assert(Seq::new(4, |c: int| rx@[c] as int) =~= row_x());
    assert(Seq::new(4, |c: int| ry@[c] as int) =~= row_y());
    assert(Seq::new(4, |c: int| rz@[c] as int) =~= row_z());
    assert(Seq::new(4, |c: int| rw@[c] as int) =~= row_w());
    let m = r & 0b1111;
    let base = if m == 0b0100 {
        VoxTransform::from_rows(rx, ry, rz, rw)
    } else if m == 0b0001 {
        VoxTransform::from_rows(ry, rx, rz, rw)
    } else if m == 0b1000 {
        VoxTransform::from_rows(rx, rz, ry, rw)
    } else if m == 0b0010 {
        VoxTransform::from_rows(rz, ry, rx, rw)
    } else if m == 0b1001 {
        VoxTransform::from_rows(ry, rz, rx, rw)
    } else if m == 0b0110 {
        VoxTransform::from_rows(rz, ry, rx, rw)
    } else {
        return Err(VoxError::InvalidRotation(m));
    };
    assert(base@ == rotation_base(m)->0);
    proof {
        lemma_base_unit_entries(m);
    }
    let mut rot = base;
    if r & 0b0010000 != 0 {
        proof {
            lemma_unit_entries_diagonal_mul(-1, 1, 1, rot@);
        }
        rot = VoxTransform::diagonal(-1, 1, 1, 1).checked_mul(&rot).unwrap();
    }
    if r & 0b0100000 != 0 {
        proof {
            lemma_unit_entries_diagonal_mul(1, -1, 1, rot@);
        }
        rot = VoxTransform::diagonal(1, -1, 1, 1).checked_mul(&rot).unwrap();
    }
    if r & 0b1000000 != 0 {
        proof {
            lemma_unit_entries_diagonal_mul(1, 1, -1, rot@);
        }
        rot = VoxTransform::diagonal(1, 1, -1, 1).checked_mul(&rot).unwrap();
    }
    Ok(rot)
}

/// Reads an `_r` attribute.
pub fn parse_rotation(s: &str) -> (res: Result<VoxTransform, VoxError>)
    ensures
        match spec_parse_rotation(s@) {
            Ok(m) => res matches Ok(t) && t@ == m,
            Err(e) => res == Err::<VoxTransform, VoxError>(e),
        },
{
    let chars = chars_of(s);
    match parse_u8(&chars) {
        None => Err(VoxError::RotationNotNumber),
        Some(v) => rotation_matrix(v),
    }
}

fn mul_or_overflow(a: &VoxTransform, b: &VoxTransform) -> (res: Result<VoxTransform, VoxError>)
    ensures
        match checked(mat_mul(a@, b@)) {
            Ok(m) => res matches Ok(t) && t@ == m,
            Err(e) => res == Err::<VoxTransform, VoxError>(e),
        },
{
    match a.checked_mul(b) {
        Some(p) => Ok(p),
        None => Err(VoxError::Overflow),
    }
}

/// Applies one frame's translation and rotation to `t`.
pub fn apply_frame(frame: &VoxFrame, t: VoxTransform) -> (res: Result<VoxTransform, VoxError>)
    ensures
        match spec_frame(frame@, t@) {
            Ok(m) => res matches Ok(u) && u@ == m,
            Err(e) => res == Err::<VoxTransform, VoxError>(e),
        },
{
    let mut t = t;
    match &frame.translation {
        Some(s) => {
            match parse_translation(s.as_str()) {
                Err(e) => {
                    return Err(e);
                },
                Ok(v) => {
                    let shift = VoxTransform::translation(v[0], v[1], v[2]);
                    match mul_or_overflow(&t, &shift) {
                        Err(e) => {
                            return Err(e);
                        },
                        Ok(p) => {
                            t = p;
                        },
                    }
                },
            }
        },
        None => {},
    }
    match &frame.rotation {
        Some(s) => {
            match parse_rotation(s.as_str()) {
                Err(e) => Err(e),
                Ok(rot) => mul_or_overflow(&t, &rot),
            }
        },
        None => Ok(t),
    }
}

/// Applies every frame of a transform node to `t`, in order.
pub fn apply_frames(frames: &Vec<VoxFrame>, t: VoxTransform) -> (res: Result<VoxTransform, VoxError>)
    ensures
        match spec_frames(frame_views(frames@), t@) {
            Ok(m) => res matches Ok(u) && u@ == m,
            Err(e) => res == Err::<VoxTransform, VoxError>(e),
        },
{
    let ghost t0 = t@;
    let mut cur = t;
    let mut i: usize = 0;
    while i < frames.len()
        invariant
            i <= frames.len(),
            t0 == t@,
            spec_frames(frame_views(frames@).take(i as int), t0) == Ok::<Seq<int>, VoxError>(cur@),
        decreases frames.len() - i,
    {
        assert(frame_views(frames@).take(i + 1).drop_last() =~= frame_views(frames@).take(i as int));
        assert(frame_views(frames@).take(i + 1).last() == frames@[i as int]@);
        match apply_frame(&frames[i], cur) {
            Err(e) => {
                assert(spec_frame(frames@[i as int]@, cur@) == Err::<Seq<int>, VoxError>(e));
                assert(spec_frames(frame_views(frames@).take(i + 1), t0) == Err::<Seq<int>, VoxError>(e));
                proof {
                    lemma_frames_prefix_err(frame_views(frames@), i + 1, t0);
                }
                return Err(e);
            },
            Ok(next) => {
                cur = next;
            },
        }
        i = i + 1;
    }
    assert(frame_views(frames@).take(frames.len() as int) =~= frame_views(frames@));
    Ok(cur)
}

/// The shift that centres a model along one axis.
fn shape_offset_exec(size: u32, flipped: bool) -> (o: i32)
    ensures
        o as int == shape_offset(size, flipped),
{
    assert(size / 2 <= 0x7fff_ffff);
    let half = (size / 2) as i32;
    assert(half as int == (size / 2) as int);
    let o = 0 - half;
    if flipped {
        o + 1
    } else {
        o
    }
}

/// Places the models of a shape node, appending to `out`.
fn place_shapes(vox: &VoxData, models: &Vec<u32>, t: VoxTransform, out: &mut Vec<(VoxTransform, usize)>) -> (r:
    Result<(), VoxError>)
    ensures
        appended(
            r,
            old(out)@,
            final(out)@,
            match spec_shapes(vox@, models@, t@) {
                Err(e) => Err(e),
                Ok((_, ps)) => Ok(ps),
            },
        ),
{
    let ghost start = old(out)@;
    let ghost t0 = t@;
    let mut cur = t;
    let mut i: usize = 0;
    while i < models.len()
        invariant
            i <= models.len(),
            t0 == t@,
            spec_shapes(vox@, models@.take(i as int), t0) matches Ok((tc, ps)) && tc == cur@
                && placements(out@) == placements(start) + ps,
        decreases models.len() - i,
    {
        assert(models@.take(i + 1).drop_last() =~= models@.take(i as int));
        assert(models@.take(i + 1).last() == models@[i as int]);
        let id = models[i];
        if id as usize >= vox.models.len() {
            assert(spec_shape_step(vox@, id, cur@) == Err::<Seq<int>, VoxError>(VoxError::MissingModel(id)));
            assert(spec_shapes(vox@, models@.take(i + 1), t0) == Err::<(Seq<int>, Seq<Placement>), VoxError>(VoxError::MissingModel(id)));
            proof {
                lemma_shapes_prefix_err(vox@, models@, i + 1, t0);
            }
            return Err(VoxError::MissingModel(id));
        }
        let m = &vox.models[id as usize];
        let ox = shape_offset_exec(m.size_x, cur.column_has_negative(0));
        let oy = shape_offset_exec(m.size_y, cur.column_has_negative(1));
        let oz = shape_offset_exec(m.size_z, cur.column_has_negative(2));
        let shift = VoxTransform::translation(ox, oy, oz);
        match mul_or_overflow(&cur, &shift) {
            Err(e) => {
                assert(spec_shape_step(vox@, id, cur@) == Err::<Seq<int>, VoxError>(e));
                assert(spec_shapes(vox@, models@.take(i + 1), t0) == Err::<(Seq<int>, Seq<Placement>), VoxError>(e));
                proof {
                    lemma_shapes_prefix_err(vox@, models@, i + 1, t0);
                }
                return Err(e);
            },
            Ok(next) => {
                cur = next;
            },
        }
        let ghost before = out@;
        out.push((cur, id as usize));
        assert(placements(out@) =~= placements(before).push((cur@, id as int)));
        i = i + 1;
    }
    assert(models@.take(models.len() as int) =~= models@);
    Ok(())
}

/// Walks the scene below `node` with transform `t`, appending each placed model
/// to `out`; at most `fuel` nodes are visited along any path. What `out` held
/// before stays, unchanged, in front; on an error nothing is promised of `out`.
pub fn parse_scene_impl(vox: &VoxData, node: u32, t: VoxTransform, fuel: usize, out: &mut Vec<(VoxTransform, usize)>) -> (r:
    Result<(), VoxError>)
    ensures
        appended(r, old(out)@, final(out)@, spec_scene_node(vox@, node, t@, fuel as nat)),
    decreases fuel,
{
    if node as usize >= vox.scenes.len() {
        return Err(VoxError::MissingNode(node));
    }
    if fuel == 0 {
        return Err(VoxError::CyclicScene);
    }
    match &vox.scenes[node as usize] {
        VoxNode::Transform { frames, child } => {
            match apply_frames(frames, t) {
                Err(e) => Err(e),
                Ok(t1) => parse_scene_impl(vox, *child, t1, fuel - 1, out),
            }
        },
        VoxNode::Group { children } => {
            let ghost start = out@;
            let ghost f = (fuel - 1) as nat;
            let mut i: usize = 0;
            while i < children.len()
                invariant
                    i <= children.len(),
                    1 <= fuel,
                    (node as int) < vox.scenes@.len(),
                    vox.scenes@[node as int] == (VoxNode::Group { children: *children }),
                    f == (fuel - 1) as nat,
                    spec_scene_children(vox@, children@.take(i as int), t@, f) matches Ok(ps)
                        && placements(out@) == placements(start) + ps,
                decreases children.len() - i,
            {
                assert(children@.take(i + 1).drop_last() =~= children@.take(i as int));
                assert(children@.take(i + 1).last() == children@[i as int]);
                let ghost before = out@;
                let r = parse_scene_impl(vox, children[i], t, fuel - 1, out);
                if r.is_err() {
                    assert(spec_scene_node(vox@, children@[i as int], t@, f) is Err);
                    assert(spec_scene_children(vox@, children@.take(i + 1), t@, f) is Err);
                    proof {
                        lemma_children_prefix_err(vox@, children@, i + 1, t@, f);
                    }
                    return r;
                }
                i = i + 1;
            }
            assert(children@.take(children.len() as int) =~= children@);
            Ok(())
        },
        VoxNode::Shape { models } => place_shapes(vox, models, t, out),
    }
}

/// Every model placement of the scene, walking the tree from node 0.
///
/// A malformed `_t` or `_r` attribute on a frame that the walk reaches gives
/// `TranslationNotNumber`, `TranslationNotThree`, `RotationNotNumber` or
/// `InvalidRotation`: the file cannot be shown, and the caller decides how to stop.
pub fn parse_scene(vox: &VoxData) -> (r: Result<Vec<(VoxTransform, usize)>, VoxError>)
    ensures
        match spec_parse_scene(vox@) {
            Ok(ps) => r matches Ok(v) && placements(v@) == ps,
            Err(e) => r matches Err(e2) && e2 == e,
        },
{
    let mut out: Vec<(VoxTransform, usize)> = Vec::new();
    assert(placements(out@) =~= Seq::<Placement>::empty());
    if vox.scenes.len() == 0 {
        return Ok(out);
    }
    let x: [i32; 4] = [1, 0, 0, 0];
    let z: [i32; 4] = [0, 0, 1, 0];
    let neg_y: [i32; 4] = [0, -1, 0, 0];
    let w: [i32; 4] = [0, 0, 0, 1];
    let root = VoxTransform::from_rows(x, z, neg_y, w);
    assert(root@ =~= root_transform());
    match parse_scene_impl(vox, 0, root, vox.scenes.len(), &mut out) {
        Ok(()) => {
            assert(placements(out@) =~= Seq::<Placement>::empty() + spec_parse_scene(vox@)->Ok_0);
            Ok(out)
        },
        Err(e) => Err(e),
    }
}

/// A group node places what its children place, each child reached with the
/// transform that reached the group.
pub proof fn lemma_group_places_children(vox: VoxFile, node: u32, t: Seq<int>, fuel: nat)
    requires
        node < vox.scenes.len(),
        fuel > 0,
        vox.scenes[node as int] is Group,
    ensures
        spec_scene_node(vox, node, t, fuel) == spec_scene_children(
            vox,
            vox.scenes[node as int]->children,
            t,
            (fuel - 1) as nat,
        ),
{
}

/// A single child places what its node places.
pub proof fn lemma_one_child(vox: VoxFile, c: u32, t: Seq<int>, fuel: nat)
    ensures
        spec_scene_children(vox, seq![c], t, fuel) == spec_scene_node(vox, c, t, fuel),
{
    assert(seq![c].drop_last() =~= Seq::<u32>::empty());
    assert(seq![c].last() == c);
    assert(spec_scene_children(vox, Seq::<u32>::empty(), t, fuel) == Ok::<Seq<Placement>, VoxError>(
        Seq::empty(),
    ));
    assert(spec_scene_children(vox, seq![c].drop_last(), t, fuel) == Ok::<Seq<Placement>, VoxError>(
        Seq::empty(),
    ));
    match spec_scene_node(vox, c, t, fuel) {
        Ok(b) => {
            assert(Seq::<Placement>::empty() + b =~= b);
        },
        Err(_) => {},
    }
}

/// Children place their models one after another: what `cs1 + cs2` places is
/// what `cs1` places followed by what `cs2` places, and the first error, in that
/// order, is the one reported.
pub proof fn lemma_children_concatenate(vox: VoxFile, cs1: Seq<u32>, cs2: Seq<u32>, t: Seq<int>, fuel: nat)
    ensures
        spec_scene_children(vox, cs1 + cs2, t, fuel) == match spec_scene_children(vox, cs1, t, fuel) {
            Err(e) => Err(e),
            Ok(a) => match spec_scene_children(vox, cs2, t, fuel) {
                Err(e) => Err(e),
                Ok(b) => Ok(a + b),
            },
        },
    decreases cs2.len(),
{
    if cs2.len() == 0 {
        assert(cs1 + cs2 =~= cs1);
        match spec_scene_children(vox, cs1, t, fuel) {
            Ok(a) => {
                assert(a + Seq::<Placement>::empty() =~= a);
            },
            Err(_) => {},
        }
    } else {
        lemma_children_concatenate(vox, cs1, cs2.drop_last(), t, fuel);
        assert((cs1 + cs2).drop_last() =~= cs1 + cs2.drop_last());
        assert((cs1 + cs2).last() == cs2.last());
        match spec_scene_children(vox, cs1, t, fuel) {
            Ok(a) => match spec_scene_children(vox, cs2.drop_last(), t, fuel) {
                Ok(b) => match spec_scene_node(vox, cs2.last(), t, fuel) {
                    Ok(c) => {
                        assert((a + b) + c =~= a + (b + c));
                    },
                    Err(_) => {},
                },
                Err(_) => {},
            },
            Err(_) => {},
        }
    }
}

/// A transform node applies its frames, in order, to the transform it is
/// reached with, and walks its child with the result.
pub proof fn lemma_transform_walks_child(vox: VoxFile, node: u32, t: Seq<int>, fuel: nat)
    requires
        node < vox.scenes.len(),
        fuel > 0,
        vox.scenes[node as int] is Transform,
    ensures
        spec_scene_node(vox, node, t, fuel) == match spec_frames(vox.scenes[node as int]->frames, t) {
            Err(e) => Err(e),
            Ok(t1) => spec_scene_node(vox, vox.scenes[node as int]->child, t1, (fuel - 1) as nat),
        },
{
}

/// Frames apply in order: the last frame acts on what the frames before it give.
pub proof fn lemma_frames_in_order(fs: Seq<VoxFrameView>, f: VoxFrameView, t: Seq<int>)
    ensures
        spec_frames(fs.push(f), t) == match spec_frames(fs, t) {
            Err(e) => Err(e),
            Ok(t1) => spec_frame(f, t1),
        },
{
    assert(fs.push(f).drop_last() =~= fs);
}

/// A frame whose `_t` holds the numbers `v` moves `t` by `v` first, on the right,
/// and then turns the result by its `_r` rotation, if it has one.
pub proof fn lemma_frame_translates_then_rotates(f: VoxFrameView, ts: Seq<char>, v: Seq<int>, t: Seq<int>)
    requires
        f.translation == Some(ts),
        spec_parse_translation(ts) == Ok::<Seq<int>, VoxError>(v),
        all_fit(mat_mul(t, translation(v[0], v[1], v[2]))),
    ensures
        spec_frame(f, t) == match f.rotation {
            None => Ok(mat_mul(t, translation(v[0], v[1], v[2]))),
            Some(rs) => match spec_parse_rotation(rs) {
                Err(e) => Err(e),
                Ok(rot) => checked(mat_mul(mat_mul(t, translation(v[0], v[1], v[2])), rot)),
            },
        },
{
}

/// The text `"x y z"`: three numbers in decimal, joined by single spaces.
pub open spec fn translation_text(x: int, y: int, z: int) -> Seq<char> {
    decimal(x) + seq![' '] + decimal(y) + seq![' '] + decimal(z)
}

/// The decimal text of three `i32`s, joined by single spaces, is read as the
/// translation by those three values.
pub proof fn lemma_translation_text_reads_back(x: int, y: int, z: int)
    requires
        i32::MIN <= x <= i32::MAX,
        i32::MIN <= y <= i32::MAX,
        i32::MIN <= z <= i32::MAX,
    ensures
        spec_parse_translation(translation_text(x, y, z)) == Ok::<Seq<int>, VoxError>(seq![x, y, z]),
{
    lemma_decimal_reads_back(x);
    lemma_decimal_reads_back(y);
    lemma_decimal_reads_back(z);
    lemma_split_three_words(decimal(x), decimal(y), decimal(z));
    let parts = split_spaces(translation_text(x, y, z));
    assert(parts == seq![decimal(x), decimal(y), decimal(z)]);
    assert forall|i: int| 0 <= i < parts.len() implies (#[trigger] spec_parse_i32(parts[i])) is Some by {
        if i == 0 {
            assert(parts[i] == decimal(x));
        } else if i == 1 {
            assert(parts[i] == decimal(y));
        } else {
            assert(parts[i] == decimal(z));
        }
    }
    assert(parts[0] == decimal(x));
    assert(parts[1] == decimal(y));
    assert(parts[2] == decimal(z));
}

/// A transform node whose one frame has `_t` = `"x y z"` walks its child with
/// `t` moved by `(x, y, z)`; where the frame also has an `_r`, the moved
/// transform is then turned by the rotation that `_r` names.
pub proof fn lemma_transform_moves_child(vox: VoxFile, node: u32, t: Seq<int>, fuel: nat, x: int, y: int, z: int)
    requires
        node < vox.scenes.len(),
        fuel > 0,
        vox.scenes[node as int] is Transform,
        vox.scenes[node as int]->frames.len() == 1,
        vox.scenes[node as int]->frames[0].translation == Some(translation_text(x, y, z)),
        i32::MIN <= x <= i32::MAX,
        i32::MIN <= y <= i32::MAX,
        i32::MIN <= z <= i32::MAX,
        all_fit(mat_mul(t, translation(x, y, z))),
    ensures
        ({
            let child = vox.scenes[node as int]->child;
            let moved = mat_mul(t, translation(x, y, z));
            spec_scene_node(vox, node, t, fuel) == match vox.scenes[node as int]->frames[0].rotation {
                None => spec_scene_node(vox, child, moved, (fuel - 1) as nat),
                Some(rs) => match spec_parse_rotation(rs) {
                    Err(e) => Err(e),
                    Ok(rot) => match checked(mat_mul(moved, rot)) {
                        Err(e) => Err(e),
                        Ok(m) => spec_scene_node(vox, child, m, (fuel - 1) as nat),
                    },
                },
            }
        }),
{
    let fs = vox.scenes[node as int]->frames;
    lemma_translation_text_reads_back(x, y, z);
    let v = seq![x, y, z];
    assert(v[0] == x && v[1] == y && v[2] == z);
    lemma_frame_translates_then_rotates(fs[0], translation_text(x, y, z), v, t);
    assert(fs =~= Seq::<VoxFrameView>::empty().push(fs[0]));
    lemma_frames_in_order(Seq::<VoxFrameView>::empty(), fs[0], t);
    assert(spec_frames(Seq::<VoxFrameView>::empty(), t) == Ok::<Seq<int>, VoxError>(t));
}

/// On a scene without cycles, the walk from a node does not depend on the fuel
/// that bounds it, once the fuel exceeds the node's rank.
pub proof fn lemma_walk_ignores_fuel(vox: VoxFile, rank: Seq<nat>, node: u32, t: Seq<int>, f1: nat, f2: nat)
    requires
        ranked(vox, rank),
        node < rank.len(),
        rank[node as int] < f1,
        rank[node as int] < f2,
    ensures
        spec_scene_node(vox, node, t, f1) == spec_scene_node(vox, node, t, f2),
    decreases f1, 0nat,
{
    let g1 = (f1 - 1) as nat;
    let g2 = (f2 - 1) as nat;
    match vox.scenes[node as int] {
        VoxNodeView::Transform { frames, child } => {
            if spec_frames(frames, t) is Ok && child < rank.len() {
                lemma_walk_ignores_fuel(vox, rank, child, spec_frames(frames, t)->Ok_0, g1, g2);
            }
        },
        VoxNodeView::Group { children } => {
            assert forall|k: int| 0 <= k < children.len() && children[k] < rank.len() implies rank[
                #[trigger] children[k] as int] < rank[node as int] by {}
            lemma_children_ignore_fuel(vox, rank, children, t, g1, g2, rank[node as int]);
        },
        VoxNodeView::Shape { .. } => {},
    }
}

/// On a scene without cycles, children whose ranks are below `bound` place the
/// same models with any fuel of at least `bound`.
pub proof fn lemma_children_ignore_fuel(
    vox: VoxFile,
    rank: Seq<nat>,
    cs: Seq<u32>,
    t: Seq<int>,
    f1: nat,
    f2: nat,
    bound: nat,
)
    requires
        ranked(vox, rank),
        forall|k: int| 0 <= k < cs.len() && cs[k] < rank.len() ==> rank[#[trigger] cs[k] as int] < bound,
        bound <= f1,
        bound <= f2,
    ensures
        spec_scene_children(vox, cs, t, f1) == spec_scene_children(vox, cs, t, f2),
    decreases f1, cs.len() + 1,
{
    if cs.len() > 0 {
        lemma_children_ignore_fuel(vox, rank, cs.drop_last(), t, f1, f2, bound);
        let c = cs.last();
        assert(cs[cs.len() - 1] == c);
        if c < rank.len() {
            lemma_walk_ignores_fuel(vox, rank, c, t, f1, f2);
        }
    }
}

/// On a scene without cycles, a group node places what a walk from each of its
/// children places, one child after another, whatever fuel reached the group:
/// each child is walked as the whole scene would be, with one unit of fuel per node.
pub proof fn lemma_ranked_group_places_children(vox: VoxFile, rank: Seq<nat>, node: u32, t: Seq<int>, fuel: nat)
    requires
        ranked(vox, rank),
        node < vox.scenes.len(),
        vox.scenes[node as int] is Group,
        rank[node as int] < fuel,
    ensures
        spec_scene_node(vox, node, t, fuel) == spec_scene_children(
            vox,
            vox.scenes[node as int]->children,
            t,
            vox.scenes.len(),
        ),
{
    let children = vox.scenes[node as int]->children;
    assert(rank[node as int] < rank.len());
    assert forall|k: int| 0 <= k < children.len() && children[k] < rank.len() implies rank[
        #[trigger] children[k] as int] < rank[node as int] by {}
    lemma_children_ignore_fuel(vox, rank, children, t, (fuel - 1) as nat, vox.scenes.len(), rank[node as int]);
}

/// The axis that row `i` of a base permutation reads, for the low four bits `m`
/// of an `_r` value: row 0 the axis in bits 0-1, row 1 the axis in bits 2-3,
/// row 2 the axis left over.
pub open spec fn row_axis(m: int, i: int) -> int {
    if i == 0 {
        m % 4
    } else if i == 1 {
        m / 4
    } else {
        3 - m % 4 - m / 4
    }
}

/// The sign of row `i` of the rotation `r`: `-1` where bit `4 + i` is set.
pub open spec fn row_sign(r: int, i: int) -> int {
    let bit = if i == 0 {
        (r / 16) % 2
    } else if i == 1 {
        (r / 32) % 2
    } else {
        (r / 64) % 2
    };
    if bit == 1 {
        -1
    } else {
        1
    }
}

/// Multiplying by a diagonal on the left scales each row.
proof fn lemma_diagonal_scales_rows(d0: int, d1: int, d2: int, b: Seq<int>)
    requires
        b.len() == 16,
    ensures
        forall|i: int, c: int|
            0 <= i < 4 && 0 <= c < 4 ==> #[trigger] mat_at(mat_mul(diagonal(d0, d1, d2, 1), b), i, c) == (
            if i == 0 {
                d0
            } else if i == 1 {
                d1
            } else if i == 2 {
                d2
            } else {
                1
            }) * mat_at(b, i, c),
{
    let d = diagonal(d0, d1, d2, 1);
    assert forall|i: int, c: int|
        0 <= i < 4 && 0 <= c < 4 implies #[trigger] mat_at(mat_mul(d, b), i, c) == (if i == 0 {
        d0
    } else if i == 1 {
        d1
    } else if i == 2 {
        d2
    } else {
        1
    }) * mat_at(b, i, c) by {
        assert((4 * i + c) / 4 == i);
        assert((4 * i + c) % 4 == c);
        assert(mat_at(mat_mul(d, b), i, c) == mul_entry(d, b, i, c));
        let e0 = mat_at(d, i, 0);
        let e1 = mat_at(d, i, 1);
        let e2 = mat_at(d, i, 2);
        let e3 = mat_at(d, i, 3);
        let x0 = mat_at(b, 0, c);
        let x1 = mat_at(b, 1, c);
        let x2 = mat_at(b, 2, c);
        let x3 = mat_at(b, 3, c);
        assert(mul_entry(d, b, i, c) == e0 * x0 + e1 * x1 + e2 * x2 + e3 * x3);
        if i == 0 {
            assert(e0 == d0 && e1 == 0 && e2 == 0 && e3 == 0);
            assert(e0 * x0 + e1 * x1 + e2 * x2 + e3 * x3 == d0 * x0) by (nonlinear_arith)
                requires
                    e0 == d0 && e1 == 0 && e2 == 0 && e3 == 0,
            ;
        } else if i == 1 {
            assert(e0 == 0 && e1 == d1 && e2 == 0 && e3 == 0);
            assert(e0 * x0 + e1 * x1 + e2 * x2 + e3 * x3 == d1 * x1) by (nonlinear_arith)
                requires
                    e0 == 0 && e1 == d1 && e2 == 0 && e3 == 0,
            ;
        } else if i == 2 {
            assert(e0 == 0 && e1 == 0 && e2 == d2 && e3 == 0);
            assert(e0 * x0 + e1 * x1 + e2 * x2 + e3 * x3 == d2 * x2) by (nonlinear_arith)
                requires
                    e0 == 0 && e1 == 0 && e2 == d2 && e3 == 0,
            ;
        } else {
            assert(e0 == 0 && e1 == 0 && e2 == 0 && e3 == 1);
            assert(e0 * x0 + e1 * x1 + e2 * x2 + e3 * x3 == 1 * x3) by (nonlinear_arith)
                requires
                    e0 == 0 && e1 == 0 && e2 == 0 && e3 == 1,
            ;
        }
    }
}

/// The rows of a base permutation, read off the low four bits of `_r`.
proof fn lemma_base_rows(m: u8)
    requires
        m == 1 || m == 4 || m == 6 || m == 8 || m == 9,
    ensures
        rotation_base(m) is Some,
        rotation_base(m)->0.len() == 16,
        forall|i: int, c: int|
            0 <= i < 3 && 0 <= c < 4 ==> #[trigger] mat_at(rotation_base(m)->0, i, c) == if c
                == row_axis(m as int, i) {
                1int
            } else {
                0
            },
        forall|c: int| 0 <= c < 4 ==> #[trigger] mat_at(rotation_base(m)->0, 3, c) == if c == 3 {
            1int
        } else {
            0
        },
{
    lemma_base_unit_entries(m);
    let b = rotation_base(m)->0;
    if m == 0b0100 {
        assert(b =~= seq![1, 0, 0, 0, 0, 1, 0, 0, 0, 0, 1, 0, 0, 0, 0, 1]);
    } else if m == 0b0001 {
        assert(b =~= seq![0, 1, 0, 0, 1, 0, 0, 0, 0, 0, 1, 0, 0, 0, 0, 1]);
    } else if m == 0b1000 {
        assert(b =~= seq![1, 0, 0, 0, 0, 0, 1, 0, 0, 1, 0, 0, 0, 0, 0, 1]);
    } else if m == 0b0110 {
        assert(b =~= seq![0, 0, 1, 0, 0, 1, 0, 0, 1, 0, 0, 0, 0, 0, 0, 1]);
    } else {
        assert(b =~= seq![0, 1, 0, 0, 0, 0, 1, 0, 1, 0, 0, 0, 0, 0, 0, 1]);
    }
}

/// An `_r` value names a rotation exactly when its two axis fields (bits 0-1 and
/// bits 2-3) name two different axes among x, y and z. Then, apart from the code
/// `0b0010` (see below), row `i` of the rotation has its one non-zero entry in
/// the column `row_axis` gives, `-1` where bit `4 + i` is set and `1` otherwise,
/// and the last row is `(0, 0, 0, 1)`.
///
/// For the code `0b0010` the rotation has rows z, y, x (the rows of `0b0110`)
/// where the fields name z, x, y; the law is stated without that code.
pub proof fn lemma_rotation_rows(r: u8)
    ensures
        spec_rotation(r) is Ok <==> (r % 4 < 3 && (r % 16) / 4 < 3 && r % 4 != (r % 16) / 4),
        spec_rotation(r) is Ok && r % 16 != 2 ==> {
            let rot = spec_rotation(r)->Ok_0;
            &&& forall|i: int, c: int|
                0 <= i < 3 && 0 <= c < 4 ==> #[trigger] mat_at(rot, i, c) == if c == row_axis(
                    (r % 16) as int,
                    i,
                ) {
                    row_sign(r as int, i)
                } else {
                    0
                }
            &&& forall|c: int| 0 <= c < 4 ==> #[trigger] mat_at(rot, 3, c) == if c == 3 {
                1int
            } else {
                0
            }
        },
{
    let m = r & 0b1111u8;
    assert(r & 0b1111u8 == r % 16) by (bit_vector);
    assert((r & 0b0010000u8 != 0) == ((r / 16) % 2 == 1)) by (bit_vector);
    assert((r & 0b0100000u8 != 0) == ((r / 32) % 2 == 1)) by (bit_vector);
    assert((r & 0b1000000u8 != 0) == ((r / 64) % 2 == 1)) by (bit_vector);
    assert(r % 4 == m % 4);
    if m == 1 || m == 4 || m == 6 || m == 8 || m == 9 {
        lemma_base_rows(m);
        let base = rotation_base(m)->0;
        let s0 = row_sign(r as int, 0);
        let s1 = row_sign(r as int, 1);
        let s2 = row_sign(r as int, 2);
        let a = if r & 0b0010000u8 != 0 {
            mat_mul(diagonal(-1, 1, 1, 1), base)
        } else {
            base
        };
        lemma_diagonal_scales_rows(-1, 1, 1, base);
        assert(a.len() == 16);
        assert forall|i: int, c: int| 0 <= i < 4 && 0 <= c < 4 implies #[trigger] mat_at(a, i, c) == (
        if i == 0 {
            s0
        } else {
            1
        }) * mat_at(base, i, c) by {}
        let b = if r & 0b0100000u8 != 0 {
            mat_mul(diagonal(1, -1, 1, 1), a)
        } else {
            a
        };
        lemma_diagonal_scales_rows(1, -1, 1, a);
        assert(b.len() == 16);
        assert forall|i: int, c: int| 0 <= i < 4 && 0 <= c < 4 implies #[trigger] mat_at(b, i, c) == (
        if i == 1 {
            s1
        } else {
            1
        }) * mat_at(a, i, c) by {}
        let c3 = if r & 0b1000000u8 != 0 {
            mat_mul(diagonal(1, 1, -1, 1), b)
        } else {
            b
        };
        lemma_diagonal_scales_rows(1, 1, -1, b);
        assert forall|i: int, c: int| 0 <= i < 4 && 0 <= c < 4 implies #[trigger] mat_at(c3, i, c) == (
        if i == 2 {
            s2
        } else {
            1
        }) * mat_at(b, i, c) by {}
        assert(spec_rotation(r) == Ok::<Seq<int>, VoxError>(c3));
        assert forall|i: int, c: int| 0 <= i < 3 && 0 <= c < 4 implies #[trigger] mat_at(c3, i, c)
            == if c == row_axis((r % 16) as int, i) {
            row_sign(r as int, i)
        } else {
            0
        } by {
            assert(mat_at(a, i, c) == (if i == 0 { s0 } else { 1 }) * mat_at(base, i, c));
            assert(mat_at(b, i, c) == (if i == 1 { s1 } else { 1 }) * mat_at(a, i, c));
            assert(mat_at(c3, i, c) == (if i == 2 { s2 } else { 1 }) * mat_at(b, i, c));
        }
        assert forall|c: int| 0 <= c < 4 implies #[trigger] mat_at(c3, 3, c) == if c == 3 {
            1int
        } else {
            0
        } by {
            assert(mat_at(a, 3, c) == mat_at(base, 3, c));
            assert(mat_at(b, 3, c) == mat_at(a, 3, c));
            assert(mat_at(c3, 3, c) == mat_at(b, 3, c));
        }
    } else if m == 2 {
        lemma_base_unit_entries(m);
    } else {
        assert(rotation_base(m) is None);
    }
}

/// Every placement is a grid transform of an existing model.
pub open spec fn well_placed(vox: VoxFile, ps: Seq<Placement>) -> bool {
    forall|i: int|
        0 <= i < ps.len() ==> is_grid_transform((#[trigger] ps[i]).0) && 0 <= ps[i].1
            < vox.models.len()
}

proof fn lemma_translation_grid(x: int, y: int, z: int)
    ensures
        is_grid_transform(translation(x, y, z)),
{
}

proof fn lemma_frame_grid(f: VoxFrameView, t: Seq<int>)
    requires
        is_grid_transform(t),
        spec_frame(f, t) is Ok,
    ensures
        is_grid_transform(spec_frame(f, t)->Ok_0),
{
    let moved = match f.translation {
        None => t,
        Some(s) => {
            let v = spec_parse_translation(s)->Ok_0;
            lemma_translation_grid(v[0], v[1], v[2]);
            lemma_grid_transform_mul(t, translation(v[0], v[1], v[2]));
            mat_mul(t, translation(v[0], v[1], v[2]))
        },
    };
    match f.rotation {
        None => {},
        Some(s) => {
            let v = spec_parse_u8(s)->0;
            lemma_rotation_is_grid_transform(v as u8);
            lemma_grid_transform_mul(moved, spec_rotation(v as u8)->Ok_0);
        },
    }
}

proof fn lemma_frames_grid(fs: Seq<VoxFrameView>, t: Seq<int>)
    requires
        is_grid_transform(t),
        spec_frames(fs, t) is Ok,
    ensures
        is_grid_transform(spec_frames(fs, t)->Ok_0),
    decreases fs.len(),
{
    if fs.len() > 0 {
        lemma_frames_grid(fs.drop_last(), t);
        lemma_frame_grid(fs.last(), spec_frames(fs.drop_last(), t)->Ok_0);
    }
}

proof fn lemma_shapes_grid(vox: VoxFile, ms: Seq<u32>, t: Seq<int>)
    requires
        is_grid_transform(t),
        spec_shapes(vox, ms, t) is Ok,
    ensures
        is_grid_transform(spec_shapes(vox, ms, t)->Ok_0.0),
        well_placed(vox, spec_shapes(vox, ms, t)->Ok_0.1),
    decreases ms.len(),
{
    if ms.len() > 0 {
        lemma_shapes_grid(vox, ms.drop_last(), t);
        let (t1, acc) = spec_shapes(vox, ms.drop_last(), t)->Ok_0;
        let id = ms.last();
        let m = vox.models[id as int];
        let off = translation(
            shape_offset(m.size_x, column_negative(t1, 0)),
            shape_offset(m.size_y, column_negative(t1, 1)),
            shape_offset(m.size_z, column_negative(t1, 2)),
        );
        lemma_translation_grid(
            shape_offset(m.size_x, column_negative(t1, 0)),
            shape_offset(m.size_y, column_negative(t1, 1)),
            shape_offset(m.size_z, column_negative(t1, 2)),
        );
        lemma_grid_transform_mul(t1, off);
        assert(id < vox.models.len());
        assert(spec_shape_step(vox, id, t1) == checked(mat_mul(t1, off)));
        let t2 = mat_mul(t1, off);
        let ps = spec_shapes(vox, ms, t)->Ok_0.1;
        assert(ps == acc.push((t2, id as int)));
        assert forall|i: int| 0 <= i < ps.len() implies is_grid_transform((#[trigger] ps[i]).0) && 0
            <= ps[i].1 < vox.models.len() by {
            if i < acc.len() {
                assert(ps[i] == acc[i]);
            } else {
                assert(ps[i] == (t2, id as int));
            }
        }
    }
}

proof fn lemma_scene_node_grid(vox: VoxFile, node: u32, t: Seq<int>, fuel: nat)
    requires
        is_grid_transform(t),
        spec_scene_node(vox, node, t, fuel) is Ok,
    ensures
        well_placed(vox, spec_scene_node(vox, node, t, fuel)->Ok_0),
    decreases fuel, 0nat,
{
    match vox.scenes[node as int] {
        VoxNodeView::Transform { frames, child } => {
            lemma_frames_grid(frames, t);
            lemma_scene_node_grid(vox, child, spec_frames(frames, t)->Ok_0, (fuel - 1) as nat);
        },
        VoxNodeView::Group { children } => {
            lemma_scene_children_grid(vox, children, t, (fuel - 1) as nat);
        },
        VoxNodeView::Shape { models } => {
            lemma_shapes_grid(vox, models, t);
        },
    }
}

proof fn lemma_scene_children_grid(vox: VoxFile, cs: Seq<u32>, t: Seq<int>, fuel: nat)
    requires
        is_grid_transform(t),
        spec_scene_children(vox, cs, t, fuel) is Ok,
    ensures
        well_placed(vox, spec_scene_children(vox, cs, t, fuel)->Ok_0),
    decreases fuel, cs.len() + 1,
{
    if cs.len() > 0 {
        lemma_scene_children_grid(vox, cs.drop_last(), t, fuel);
        lemma_scene_node_grid(vox, cs.last(), t, fuel);
        let a = spec_scene_children(vox, cs.drop_last(), t, fuel)->Ok_0;
        let b = spec_scene_node(vox, cs.last(), t, fuel)->Ok_0;
        let ps = a + b;
        assert forall|i: int| 0 <= i < ps.len() implies is_grid_transform((#[trigger] ps[i]).0) && 0
            <= ps[i].1 < vox.models.len() by {
            if i < a.len() {
                assert(ps[i] == a[i]);
            } else {
                assert(ps[i] == b[i - a.len()]);
            }
        }
    }
}

/// Every model that a scene places is moved by a grid transform (a signed
/// permutation of the axes plus a translation), and names a model of the file.
pub proof fn lemma_scene_is_well_placed(vox: VoxFile)
    requires
        spec_parse_scene(vox) is Ok,
    ensures
        well_placed(vox, spec_parse_scene(vox)->Ok_0),
{
    if vox.scenes.len() > 0 {
        assert(is_grid_transform(root_transform()));
        lemma_scene_node_grid(vox, 0, root_transform(), vox.scenes.len());
    }
}


proof fn lemma_frames_error_kind(fs: Seq<VoxFrameView>, t: Seq<int>)
    ensures
        spec_frames(fs, t) != Err::<Seq<int>, VoxError>(VoxError::VoxelOutsideBounds),
        spec_frames(fs, t) != Err::<Seq<int>, VoxError>(VoxError::CyclicScene),
    decreases fs.len(),
{
    if fs.len() > 0 {
        lemma_frames_error_kind(fs.drop_last(), t);
    }
}

proof fn lemma_shapes_error_kind(vox: VoxFile, ms: Seq<u32>, t: Seq<int>)
    ensures
        !(spec_shapes(vox, ms, t) matches Err(e) && e == VoxError::VoxelOutsideBounds),
        !(spec_shapes(vox, ms, t) matches Err(e) && e == VoxError::CyclicScene),
    decreases ms.len(),
{
    if ms.len() > 0 {
        lemma_shapes_error_kind(vox, ms.drop_last(), t);
    }
}

proof fn lemma_node_error_kind(vox: VoxFile, node: u32, t: Seq<int>, fuel: nat)
    ensures
        spec_scene_node(vox, node, t, fuel) != Err::<Seq<Placement>, VoxError>(
            VoxError::VoxelOutsideBounds,
        ),
    decreases fuel, 0nat,
{
    if fuel > 0 && node < vox.scenes.len() {
        match vox.scenes[node as int] {
            VoxNodeView::Transform { frames, child } => {
                lemma_frames_error_kind(frames, t);
                if spec_frames(frames, t) is Ok {
                    lemma_node_error_kind(vox, child, spec_frames(frames, t)->Ok_0, (fuel - 1) as nat);
                }
            },
            VoxNodeView::Group { children } => {
                lemma_children_error_kind(vox, children, t, (fuel - 1) as nat);
            },
            VoxNodeView::Shape { models } => {
                lemma_shapes_error_kind(vox, models, t);
            },
        }
    }
}

proof fn lemma_children_error_kind(vox: VoxFile, cs: Seq<u32>, t: Seq<int>, fuel: nat)
    ensures
        spec_scene_children(vox, cs, t, fuel) != Err::<Seq<Placement>, VoxError>(
            VoxError::VoxelOutsideBounds,
        ),
    decreases fuel, cs.len() + 1,
{
    if cs.len() > 0 {
        lemma_children_error_kind(vox, cs.drop_last(), t, fuel);
        lemma_node_error_kind(vox, cs.last(), t, fuel);
    }
}

/// Walking the scene never reports a voxel outside the bounds (that check
/// belongs to building the grid).
pub proof fn lemma_parse_never_outside(vox: VoxFile)
    ensures
        spec_parse_scene(vox) != Err::<Seq<Placement>, VoxError>(VoxError::VoxelOutsideBounds),
{
    if vox.scenes.len() > 0 {
        lemma_node_error_kind(vox, 0, root_transform(), vox.scenes.len());
    }
}

/// `rank` orders the scene's nodes so that every child that exists ranks below
/// its parent: the scene has no cycle.
pub open spec fn ranked(vox: VoxFile, rank: Seq<nat>) -> bool {
    &&& rank.len() == vox.scenes.len()
    &&& forall|n: int| 0 <= n < rank.len() ==> #[trigger] rank[n] < rank.len()
    &&& forall|n: int|
        0 <= n < vox.scenes.len() ==> match #[trigger] vox.scenes[n] {
            VoxNodeView::Transform { child, .. } => child < rank.len() ==> rank[child as int] < rank[n],
            VoxNodeView::Group { children } => forall|k: int|
                0 <= k < children.len() && children[k] < rank.len() ==> rank[
                    #[trigger] children[k] as int] < rank[n],
            VoxNodeView::Shape { .. } => true,
        }
}

proof fn lemma_children_not_cyclic(vox: VoxFile, rank: Seq<nat>, cs: Seq<u32>, t: Seq<int>, fuel: nat, bound: nat)
    requires
        ranked(vox, rank),
        forall|k: int| 0 <= k < cs.len() && cs[k] < rank.len() ==> rank[#[trigger] cs[k] as int] < bound,
        bound <= fuel,
    ensures
        spec_scene_children(vox, cs, t, fuel) != Err::<Seq<Placement>, VoxError>(VoxError::CyclicScene),
    decreases fuel, cs.len() + 1,
{
    if cs.len() > 0 {
        lemma_children_not_cyclic(vox, rank, cs.drop_last(), t, fuel, bound);
        let c = cs.last();
        assert(cs[cs.len() - 1] == c);
        if c < rank.len() {
            lemma_node_not_cyclic(vox, rank, c, t, fuel);
        }
    }
}

proof fn lemma_node_not_cyclic(vox: VoxFile, rank: Seq<nat>, node: u32, t: Seq<int>, fuel: nat)
    requires
        ranked(vox, rank),
        node < rank.len(),
        rank[node as int] < fuel,
    ensures
        spec_scene_node(vox, node, t, fuel) != Err::<Seq<Placement>, VoxError>(VoxError::CyclicScene),
    decreases fuel, 0nat,
{
    let f = (fuel - 1) as nat;
    match vox.scenes[node as int] {
        VoxNodeView::Transform { frames, child } => {
            lemma_frames_error_kind(frames, t);
            if spec_frames(frames, t) is Ok && child < rank.len() {
                lemma_node_not_cyclic(vox, rank, child, spec_frames(frames, t)->Ok_0, f);
            }
        },
        VoxNodeView::Group { children } => {
            assert forall|k: int| 0 <= k < children.len() && children[k] < rank.len() implies rank[
                #[trigger] children[k] as int] < rank[node as int] by {}
            lemma_children_not_cyclic(vox, rank, children, t, f, rank[node as int]);
        },
        VoxNodeView::Shape { models } => {
            lemma_shapes_error_kind(vox, models, t);
        },
    }
}

/// A scene without cycles never fails as cyclic: the check only stops walks
/// that would go round a cycle for ever.
pub proof fn lemma_acyclic_scene_is_not_cyclic(vox: VoxFile, rank: Seq<nat>)
    requires
        ranked(vox, rank),
    ensures
        spec_parse_scene(vox) != Err::<Seq<Placement>, VoxError>(VoxError::CyclicScene),
{
    if vox.scenes.len() > 0 {
        assert(rank[0] < rank.len());
        lemma_node_not_cyclic(vox, rank, 0, root_transform(), vox.scenes.len());
    }
}
} // verus!
