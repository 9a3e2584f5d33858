//! The world's palette: which colour and which material each of its 256 slots
//! holds. Slot 0 is empty, so that a grid cell of 0 shows nothing; slot `n + 1`
//! holds entry `n` of the file's palette.
use vstd::prelude::*;
use crate::vox::scene::{text_view, VoxData, VoxFile, VoxMaterial, VoxMaterialView};
use crate::vox::text::chars_of;

verus! {

/// The number of slots of the world's palette.
pub const PALETTE_SLOTS: usize = 256;

/// How the material of a slot looks, with the properties that this look reads,
/// as text.
pub enum Look {
    /// No special material: the colour alone.
    Plain,
    /// A metal (`_type` is `_metal`): its roughness, index of refraction and metalness.
    Metal { rough: Option<String>, ior: Option<String>, metal: Option<String> },
    /// A light (`_type` is `_emit`): its emission and its flux.
    Emit { emit: Option<String>, flux: Option<String> },
}

/// A look with its properties as character sequences.
pub enum LookView {
    Plain,
    Metal { rough: Option<Seq<char>>, ior: Option<Seq<char>>, metal: Option<Seq<char>> },
    Emit { emit: Option<Seq<char>>, flux: Option<Seq<char>> },
}

impl View for Look {
    type V = LookView;

    open spec fn view(&self) -> LookView {
        match self {
            Look::Plain => LookView::Plain,
            Look::Metal { rough, ior, metal } => LookView::Metal {
                rough: text_view(*rough),
                ior: text_view(*ior),
                metal: text_view(*metal),
            },
            Look::Emit { emit, flux } => LookView::Emit {
                emit: text_view(*emit),
                flux: text_view(*flux),
            },
        }
    }
}

/// A filled slot: its colour (red, green, blue, alpha) and its look.
pub struct PaletteSlot {
    pub color: [u8; 4],
    pub look: Look,
}

/// A filled slot with its look as a view.
pub struct PaletteSlotView {
    pub color: [u8; 4],
    pub look: LookView,
}

/// The view of a slot; `None` is an empty (transparent) slot.
pub open spec fn slot_view(s: Option<PaletteSlot>) -> Option<PaletteSlotView> {
    match s {
        Some(p) => Some(PaletteSlotView { color: p.color, look: p.look@ }),
        None => None,
    }
}

/// The look that a material's `_type` names.
pub open spec fn spec_look(m: VoxMaterialView) -> LookView {
    match m.kind {
        Some(k) => if k == "_metal"@ {
            LookView::Metal { rough: m.rough, ior: m.ior, metal: m.metal }
        } else if k == "_emit"@ {
            LookView::Emit { emit: m.emit, flux: m.flux }
        } else {
            LookView::Plain
        },
        None => LookView::Plain,
    }
}

/// Slot `k` of the world's palette: empty for slot 0 and for slots past the
/// file's palette; otherwise entry `k - 1` of the file's palette, with the look
/// of the material of the same index where the file has one.
pub open spec fn spec_slot(f: VoxFile, k: int) -> Option<PaletteSlotView> {
    if 1 <= k < PALETTE_SLOTS && k - 1 < f.palette.len() {
        Some(
            PaletteSlotView {
                color: f.palette[k - 1],
                look: if k - 1 < f.materials.len() {
                    spec_look(f.materials[k - 1])
                } else {
                    LookView::Plain
                },
            },
        )
    } else {
        None
    }
}

/// Whether `s` is exactly the text `lit`.
fn text_is(s: &str, lit: &str) -> (b: bool)
    ensures
        b == (s@ == lit@),
{
    let a = chars_of(s);
    let c = chars_of(lit);
    if a.len() != c.len() {
        return false;
    }
    let mut i: usize = 0;
    while i < a.len()
        invariant
            i <= a.len(),
            a.len() == c.len(),
            a@ == s@,
            c@ == lit@,
            forall|j: int| 0 <= j < i ==> a@[j] == c@[j],
        decreases a.len() - i,
    {
        if a[i] != c[i] {
            assert(s@[i as int] != lit@[i as int]);
            return false;
        }
        i = i + 1;
    }
    assert(a@ =~= c@);
    true
}

/// A copy of an optional attribute.
fn copy_text(t: &Option<String>) -> (r: Option<String>)
    ensures
        text_view(r) == text_view(*t),
{
    match t {
        Some(s) => Some(s.clone()),
        None => None,
    }
}

/// The look of a material.
pub fn look_of(m: &VoxMaterial) -> (l: Look)
    ensures
        l@ == spec_look(m@),
{
    match &m.kind {
        None => Look::Plain,
        Some(k) => if text_is(k.as_str(), "_metal") {
            Look::Metal { rough: copy_text(&m.rough), ior: copy_text(&m.ior), metal: copy_text(&m.metal) }
        } else if text_is(k.as_str(), "_emit") {
            Look::Emit { emit: copy_text(&m.emit), flux: copy_text(&m.flux) }
        } else {
            Look::Plain
        },
    }
}

/// The 256 slots of the world's palette, built from a file's palette and materials.
pub fn palette_slots(vox: &VoxData) -> (r: Vec<Option<PaletteSlot>>)
    ensures
        r.len() == PALETTE_SLOTS,
        forall|k: int| 0 <= k < PALETTE_SLOTS ==> #[trigger] slot_view(r@[k]) == spec_slot(vox@, k),
{
    let mut slots: Vec<Option<PaletteSlot>> = Vec::new();
    slots.push(None);
    let mut k: usize = 1;
    while k < PALETTE_SLOTS
        invariant
            1 <= k <= PALETTE_SLOTS,
            slots.len() == k,
            forall|j: int| 0 <= j < k ==> #[trigger] slot_view(slots@[j]) == spec_slot(vox@, j),
        decreases PALETTE_SLOTS - k,
    {
        let n = k - 1;
        if n < vox.palette.len() {
            let look = if n < vox.materials.len() {
                look_of(&vox.materials[n])
            } else {
                Look::Plain
            };
            slots.push(Some(PaletteSlot { color: vox.palette[n], look }));
        } else {
            slots.push(None);
        }
        k = k + 1;
    }
    slots
}

} // verus!
