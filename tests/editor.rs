use etb_save_core::decode::decode_bag;
use etb_save_core::encode::encode_bag;
use etb_save_core::editor::{
    make_bool_property, make_enum_byte_property, make_name_property, make_struct_property,
    add_save_name, apply_level_choice, current_level, difficulty_label_of, modify_current_level,
    remove_current_level, remove_save_name, update_difficulty, visible_saves,
};
use etb_save_core::model::{
    Byte, FStr, Guid, Properties, Property, PropertyInner, PropertyKey, PropertyTag, PropertyValue,
    TagData,
};

fn key(name: &str) -> PropertyKey {
    PropertyKey(0, FStr::narrow(name))
}

fn prop(data: TagData, inner: PropertyInner) -> Property {
    Property { tag: PropertyTag { id: None, data }, inner }
}

fn names(p: &Properties) -> Vec<FStr> {
    p.0.iter().map(|(k, _)| k.1.clone()).collect()
}

fn saves(p: &Properties) -> Vec<FStr> {
    match &p.get_by_name("SingleplayerSaves").unwrap().inner {
        PropertyInner::Array(vs) => vs
            .iter()
            .map(|v| match v {
                PropertyValue::Str(s) => s.clone(),
                _ => panic!("not a string"),
            })
            .collect(),
        _ => panic!("not a list"),
    }
}

#[test]
fn save_list_add_and_remove() {
    let mut root = Properties::new();
    assert_eq!(add_save_name(&mut root, "A").unwrap(), true);
    assert_eq!(add_save_name(&mut root, "B").unwrap(), true);
    assert_eq!(add_save_name(&mut root, "A").unwrap(), false);
    assert_eq!(saves(&root), vec![FStr::narrow("A"), FStr::narrow("B")]);
    assert!(remove_save_name(&mut root, "A"));
    assert!(!remove_save_name(&mut root, "A"));
    assert_eq!(saves(&root), vec![FStr::narrow("B")]);
    assert_eq!(visible_saves(&root), vec![FStr::narrow("B")]);
    assert!(visible_saves(&Properties::new()).is_empty());
    let mut wrong = Properties(vec![(key("SingleplayerSaves"), prop(TagData::Int, PropertyInner::Int(1)))]);
    assert!(add_save_name(&mut wrong, "A").is_err());
    assert!(!remove_save_name(&mut wrong, "A"));
}

#[test]
fn current_level_edits() {
    let mut root = Properties::new();
    assert_eq!(current_level(&root), FStr::narrow("Level0"));
    assert!(modify_current_level(&mut root, "Level1"));
    assert_eq!(current_level(&root), FStr::narrow("Level1"));
    assert_eq!(apply_level_choice(&mut root, "Pipes2"), "Pipes");
    assert!(modify_current_level(&mut root, "Pipes"));
    assert_eq!(current_level(&root), FStr::narrow("Pipes2"));
    assert_eq!(apply_level_choice(&mut root, "Pipes1"), "Pipes");
    assert_eq!(current_level(&root), FStr::narrow("Pipes1"));
    assert_eq!(apply_level_choice(&mut root, "Level3"), "");
    assert!(remove_current_level(&mut root));
    assert!(!remove_current_level(&mut root));
    assert_eq!(current_level(&root), FStr::narrow("Level0"));
    let mut wrong = Properties(vec![(key("CurrentLevel"), prop(TagData::Int, PropertyInner::Int(1)))]);
    assert!(!modify_current_level(&mut wrong, "Level1"));
}

#[test]
fn difficulty_edits() {
    let mut root = Properties(vec![
        (key("Difficulty"), prop(TagData::Int, PropertyInner::Int(1))),
        (key("Other"), prop(TagData::Int, PropertyInner::Int(2))),
        (PropertyKey(3, FStr::narrow("DifficultyOld")), prop(TagData::Int, PropertyInner::Int(3))),
    ]);
    assert_eq!(difficulty_label_of(&root), "普通难度");
    update_difficulty(&mut root, "Hard");
    assert_eq!(names(&root), vec![FStr::narrow("Other"), FStr::narrow("Difficulty")]);
    assert_eq!(
        root.0[1].1.inner,
        PropertyInner::Byte(Byte::Label(FStr::narrow("E_Difficulty::NewEnumerator1")))
    );
    assert_eq!(root.0[1].1.tag.data, TagData::Byte(Some(FStr::narrow("E_Difficulty"))));
    assert_eq!(difficulty_label_of(&root), "困难难度");
    update_difficulty(&mut root, "Nightmare");
    assert_eq!(difficulty_label_of(&root), "噩梦难度");
    update_difficulty(&mut root, "Whatever");
    assert_eq!(difficulty_label_of(&root), "简单难度");
    update_difficulty(&mut root, "Normal");
    assert_eq!(names(&root), vec![FStr::narrow("Other")]);
    assert_eq!(difficulty_label_of(&root), "普通难度");
}

#[test]
fn builders_pair_tag_and_value() {
    let fields = Properties(vec![(key("Flag"), make_bool_property(false))]);
    let bag = vec![
        (key("Level"), make_name_property("Level2")),
        (key("Mode"), make_enum_byte_property("E_Mode", "E_Mode::Solo")),
        (key("Inner"), make_struct_property("MyStruct", fields)),
    ];
    assert_eq!(bag[2].1.tag.data, TagData::Struct { struct_type: FStr::narrow("MyStruct"), id: Guid::nil() });
    let mut out = Vec::new();
    encode_bag(&mut out, &bag).unwrap();
    let (back, end) = decode_bag(&out, 0).unwrap();
    assert_eq!(end, out.len());
    assert_eq!(back, bag);
}
