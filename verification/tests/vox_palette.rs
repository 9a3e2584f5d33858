use voxer::vox::palette::{look_of, palette_slots, Look, PALETTE_SLOTS};
use voxer::vox::scene::{VoxData, VoxMaterial};

fn material(kind: Option<&str>) -> VoxMaterial {
    let t = |s: &str| Some(s.to_string());
    VoxMaterial {
        kind: kind.map(String::from),
        rough: t("0.25"),
        ior: t("1.5"),
        metal: t("0.75"),
        emit: t("2"),
        flux: t("1"),
    }
}

fn data(colors: usize, materials: Vec<VoxMaterial>) -> VoxData {
    VoxData {
        models: vec![],
        scenes: vec![],
        palette: (0..colors).map(|n| [n as u8, 1, 2, 255]).collect(),
        materials,
    }
}

#[test]
fn slot_zero_is_empty_and_entries_shift_by_one() {
    let slots = palette_slots(&data(3, vec![]));
    assert_eq!(slots.len(), PALETTE_SLOTS);
    assert!(slots[0].is_none());
    for k in 1..4 {
        let slot = slots[k].as_ref().unwrap();
        assert_eq!(slot.color, [(k - 1) as u8, 1, 2, 255]);
        assert!(matches!(slot.look, Look::Plain));
    }
    assert!(slots[4..].iter().all(|s| s.is_none()));
}

#[test]
fn only_the_first_255_entries_are_used() {
    let slots = palette_slots(&data(300, vec![]));
    assert_eq!(slots.len(), 256);
    assert_eq!(slots[255].as_ref().unwrap().color, [254, 1, 2, 255]);
}

#[test]
fn material_type_picks_the_look() {
    let slots = palette_slots(&data(
        4,
        vec![material(Some("_metal")), material(Some("_emit")), material(Some("_glass")), material(None)],
    ));
    match &slots[1].as_ref().unwrap().look {
        Look::Metal { rough, ior, metal } => {
            assert_eq!(rough.as_deref(), Some("0.25"));
            assert_eq!(ior.as_deref(), Some("1.5"));
            assert_eq!(metal.as_deref(), Some("0.75"));
        },
        _ => panic!("slot 1 is metal"),
    }
    match &slots[2].as_ref().unwrap().look {
        Look::Emit { emit, flux } => {
            assert_eq!(emit.as_deref(), Some("2"));
            assert_eq!(flux.as_deref(), Some("1"));
        },
        _ => panic!("slot 2 emits"),
    }
    assert!(matches!(slots[3].as_ref().unwrap().look, Look::Plain));
    assert!(matches!(slots[4].as_ref().unwrap().look, Look::Plain));
    assert!(matches!(look_of(&material(Some("_metalx"))), Look::Plain));
}
