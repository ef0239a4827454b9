use etb_save_core::model::{FStr, Properties, PropertyInner, PropertyValue, StructValue, TagData};
use etb_save_core::players::{inventory_slots, player_struct, update_player_data, PlayerData};

fn names(vs: &[PropertyValue]) -> Vec<FStr> {
    vs.iter()
        .map(|v| match v {
            PropertyValue::Name(s) => s.clone(),
            _ => panic!("not a name"),
        })
        .collect()
}

#[test]
fn inventory_has_twelve_slots() {
    let slots = inventory_slots(&[3, 99, 18]);
    let mut expected = vec![FStr::narrow("Camera"), FStr::narrow("None"), FStr::narrow("LiDAR")];
    expected.resize(12, FStr::narrow("None"));
    assert_eq!(names(&slots), expected);
    let many: Vec<i32> = (1..=20).collect();
    let slots = inventory_slots(&many);
    assert_eq!(slots.len(), 12);
    assert_eq!(names(&slots)[11], FStr::narrow("GlowStick"));
}

#[test]
fn player_struct_and_map() {
    let bag = player_struct(&[1], 100.0f32.to_bits());
    assert_eq!(bag.0.len(), 2);
    assert_eq!(bag.0[0].1.inner, PropertyInner::Float(100.0f32.to_bits()));
    let mut root = Properties::new();
    update_player_data(&mut root, &[]);
    assert_eq!(root.0.len(), 0);
    let players = vec![
        PlayerData { steam_id: "1".to_string(), inventory: vec![5] },
        PlayerData { steam_id: "2".to_string(), inventory: vec![] },
    ];
    update_player_data(&mut root, &players);
    let map = root.get_by_name("PlayerData").unwrap();
    assert!(matches!(map.tag.data, TagData::MapOf { .. }));
    match &map.inner {
        PropertyInner::MapOf(es) => {
            assert_eq!(es.len(), 2);
            assert_eq!(es[1].key, PropertyValue::Str(FStr::narrow("2")));
            assert!(matches!(es[0].value, PropertyValue::Struct(StructValue::Struct(_))));
        }
        _ => panic!("not a map"),
    }
    let bytes = {
        let mut out = Vec::new();
        etb_save_core::encode::encode_bag(&mut out, &root.0).unwrap();
        out
    };
    let (back, _) = etb_save_core::decode::decode_bag(&bytes, 0).unwrap();
    assert_eq!(back, root.0);
}
