use etb_save_core::container::{decode, encode, reencode};
use etb_save_core::decode::{decode_bag, decode_property};
use etb_save_core::encode::encode_bag;
use etb_save_core::error::ErrorKind;
use etb_save_core::model::{
    Byte, FStr, Guid, MapEntry, Properties, Property, PropertyInner, PropertyKey, PropertyTag,
    PropertyValue, Save, StructValue, TagData, ValueType,
};

fn fstr(out: &mut Vec<u8>, s: &str) {
    out.extend_from_slice(&((s.len() + 1) as u32).to_le_bytes());
    out.extend_from_slice(s.as_bytes());
    out.push(0);
}

fn header(out: &mut Vec<u8>, name: &str, ty: &str, size: u32, index: u32) {
    fstr(out, name);
    fstr(out, ty);
    out.extend_from_slice(&size.to_le_bytes());
    out.extend_from_slice(&index.to_le_bytes());
}

fn none(out: &mut Vec<u8>) {
    fstr(out, "None");
}

fn flag_and_name_bag() -> Vec<u8> {
    let mut b = Vec::new();
    header(&mut b, "Flag", "BoolProperty", 0, 0);
    b.push(1);
    b.push(0);
    header(&mut b, "Name", "StrProperty", 9, 0);
    b.push(0);
    fstr(&mut b, "Test");
    none(&mut b);
    b
}

fn key(index: u32, name: &str) -> PropertyKey {
    PropertyKey(index, FStr::narrow(name))
}

fn prop(data: TagData, inner: PropertyInner) -> Property {
    Property { tag: PropertyTag { id: None, data }, inner }
}

fn save_with(root: Properties) -> Save {
    let mut h = Vec::new();
    h.extend_from_slice(b"GVAS");
    h.extend_from_slice(&2u32.to_le_bytes());
    h.extend_from_slice(&522u32.to_le_bytes());
    h.extend_from_slice(&4u16.to_le_bytes());
    h.extend_from_slice(&27u16.to_le_bytes());
    h.extend_from_slice(&2u16.to_le_bytes());
    h.extend_from_slice(&0u32.to_le_bytes());
    fstr(&mut h, "++UE4+Release-4.27");
    h.extend_from_slice(&3u32.to_le_bytes());
    h.extend_from_slice(&1u32.to_le_bytes());
    h.extend_from_slice(&[7u8; 20]);
    Save {
        header: h,
        save_game_type: FStr::narrow("/Script/Game.MySave_C"),
        root,
        extra: vec![0, 0, 0, 0],
    }
}

#[test]
fn minimal_bag_decodes_and_reencodes() {
    let input = flag_and_name_bag();
    let (props, end) = decode_bag(&input, 0).unwrap();
    assert_eq!(end, input.len());
    assert_eq!(props.len(), 2);
    assert_eq!(props[0].0, key(0, "Flag"));
    assert_eq!(props[0].1.inner, PropertyInner::Bool(true));
    assert_eq!(props[0].1.tag.data, TagData::Bool);
    assert_eq!(props[1].0, key(0, "Name"));
    assert_eq!(props[1].1.inner, PropertyInner::Str(FStr::narrow("Test")));
    let mut out = Vec::new();
    encode_bag(&mut out, &props).unwrap();
    assert_eq!(out, input);
}

#[test]
fn unknown_type_names_the_property() {
    let mut b = Vec::new();
    header(&mut b, "Flag", "BoolProperty", 0, 0);
    b.push(1);
    b.push(0);
    header(&mut b, "Weird", "TextProperty", 0, 0);
    b.extend_from_slice(&[9, 9, 9]);
    none(&mut b);
    let err = decode_bag(&b, 0).unwrap_err();
    assert_eq!(err.kind, ErrorKind::UnknownPropertyType);
    assert_eq!(err.path, vec![FStr::narrow("Weird")]);
    let second = 4 + 5 + 4 + 13 + 4 + 4 + 1 + 1;
    let err = decode_property(&b, second).unwrap_err();
    assert_eq!(err.kind, ErrorKind::UnknownPropertyType);
    assert_eq!(err.path, vec![FStr::narrow("Weird")]);
}

#[test]
fn nested_error_path() {
    let mut inner = Vec::new();
    header(&mut inner, "Deep", "FancyProperty", 0, 0);
    let mut b = Vec::new();
    header(&mut b, "Outer", "StructProperty", inner.len() as u32, 0);
    fstr(&mut b, "Thing");
    b.extend_from_slice(&[0u8; 16]);
    b.push(0);
    b.extend_from_slice(&inner);
    let err = decode_bag(&b, 0).unwrap_err();
    assert_eq!(err.kind, ErrorKind::UnknownPropertyType);
    assert_eq!(err.path, vec![FStr::narrow("Outer"), FStr::narrow("Deep")]);
}

#[test]
fn length_mismatch_and_truncation() {
    let mut b = Vec::new();
    header(&mut b, "N", "IntProperty", 5, 0);
    b.push(0);
    b.extend_from_slice(&7i32.to_le_bytes());
    none(&mut b);
    assert_eq!(decode_bag(&b, 0).unwrap_err().kind, ErrorKind::MalformedLength);
    let good = flag_and_name_bag();
    let cut = &good[..good.len() - 3];
    assert_eq!(decode_bag(cut, 0).unwrap_err().kind, ErrorKind::UnexpectedEnd);
    let mut bad_bool = Vec::new();
    header(&mut bad_bool, "B", "BoolProperty", 0, 0);
    bad_bool.push(2);
    bad_bool.push(0);
    none(&mut bad_bool);
    assert_eq!(decode_bag(&bad_bool, 0).unwrap_err().kind, ErrorKind::InvalidValue);
}

#[test]
fn bool_value_is_one_byte() {
    for (v, byte) in [(true, 1u8), (false, 0u8)] {
        let bag = Properties(vec![(key(0, "B"), prop(TagData::Bool, PropertyInner::Bool(v)))]);
        let mut out = Vec::new();
        encode_bag(&mut out, &bag.0).unwrap();
        let mut expected = Vec::new();
        header(&mut expected, "B", "BoolProperty", 0, 0);
        expected.push(byte);
        expected.push(0);
        none(&mut expected);
        assert_eq!(out, expected);
    }
}

#[test]
fn float_and_double_bits_round_trip() {
    let floats = [-0.0f32, f32::NAN, f32::MAX, f32::MIN, f32::MIN_POSITIVE, 1.5];
    let doubles = [-0.0f64, f64::NAN, f64::MAX, f64::MIN, -1.0];
    let mut entries = Vec::new();
    for (i, f) in floats.iter().enumerate() {
        entries.push((key(i as u32, "F"), prop(TagData::Float, PropertyInner::Float(f.to_bits()))));
    }
    for (i, d) in doubles.iter().enumerate() {
        entries.push((key(i as u32, "D"), prop(TagData::Double, PropertyInner::Double(d.to_bits()))));
    }
    let mut out = Vec::new();
    encode_bag(&mut out, &entries).unwrap();
    let (back, _) = decode_bag(&out, 0).unwrap();
    for (i, f) in floats.iter().enumerate() {
        assert_eq!(back[i].1.inner, PropertyInner::Float(f.to_bits()));
    }
    for (i, d) in doubles.iter().enumerate() {
        assert_eq!(back[floats.len() + i].1.inner, PropertyInner::Double(d.to_bits()));
    }
    assert_eq!(back[0].1.inner, PropertyInner::Float(0x8000_0000));
}

#[test]
fn empty_array_keeps_element_type() {
    let bag = vec![(
        key(0, "Items"),
        prop(TagData::Array(ValueType::Name), PropertyInner::Array(vec![])),
    )];
    let mut out = Vec::new();
    encode_bag(&mut out, &bag).unwrap();
    let mut expected = Vec::new();
    header(&mut expected, "Items", "ArrayProperty", 4, 0);
    fstr(&mut expected, "NameProperty");
    expected.push(0);
    expected.extend_from_slice(&0u32.to_le_bytes());
    none(&mut expected);
    assert_eq!(out, expected);
    let (back, _) = decode_bag(&out, 0).unwrap();
    assert_eq!(back[0].1.tag.data, TagData::Array(ValueType::Name));
    assert_eq!(back[0].1.inner, PropertyInner::Array(vec![]));
}

#[test]
fn map_with_equal_keys_keeps_both() {
    let entry = |v: i32| MapEntry {
        key: PropertyValue::Str(FStr::narrow("same")),
        value: PropertyValue::Int(v),
    };
    let bag = vec![(
        key(0, "M"),
        prop(
            TagData::MapOf { key_type: ValueType::Str, value_type: ValueType::Int },
            PropertyInner::MapOf(vec![entry(1), entry(2)]),
        ),
    )];
    let mut out = Vec::new();
    encode_bag(&mut out, &bag).unwrap();
    let (back, end) = decode_bag(&out, 0).unwrap();
    assert_eq!(end, out.len());
    assert_eq!(back[0].1.inner, PropertyInner::MapOf(vec![entry(1), entry(2)]));
    let mut again = Vec::new();
    encode_bag(&mut again, &back).unwrap();
    assert_eq!(again, out);
}

fn rich_root() -> Properties {
    let player = Properties(vec![
        (
            key(0, "Inventory"),
            prop(
                TagData::Array(ValueType::Name),
                PropertyInner::Array(vec![
                    PropertyValue::Name(FStr::narrow("Rope")),
                    PropertyValue::Name(FStr::narrow("None")),
                ]),
            ),
        ),
        (key(0, "Sanity"), prop(TagData::Float, PropertyInner::Float(100.0f32.to_bits()))),
    ]);
    let mut wide = FStr::narrow("");
    wide.wide = true;
    wide.body = vec![0x41, 0x00, 0x00, 0x00];
    Properties(vec![
        (key(0, "CurrentLevel"), prop(TagData::Name, PropertyInner::Name(FStr::narrow("Pipes")))),
        (
            key(0, "Difficulty"),
            prop(
                TagData::Byte(Some(FStr::narrow("E_Difficulty"))),
                PropertyInner::Byte(Byte::Label(FStr::narrow("E_Difficulty::NewEnumerator1"))),
            ),
        ),
        (key(2, "Level"), prop(TagData::Byte(None), PropertyInner::Byte(Byte::Value(7)))),
        (key(0, "Count"), prop(TagData::Int, PropertyInner::Int(-5))),
        (key(0, "Big"), prop(TagData::Int64, PropertyInner::Int64(-1))),
        (key(0, "U"), prop(TagData::UInt32, PropertyInner::UInt32(u32::MAX))),
        (key(0, "Wide"), prop(TagData::Str, PropertyInner::Str(wide))),
        (key(0, "Empty"), prop(TagData::Str, PropertyInner::Str(FStr::narrow("")))),
        (
            key(0, "Mode"),
            prop(
                TagData::Enum(FStr::narrow("E_Mode")),
                PropertyInner::Enum(FStr::narrow("E_Mode::Solo")),
            ),
        ),
        (
            key(0, "Pos"),
            prop(
                TagData::Struct { struct_type: FStr::narrow("Vector"), id: Guid::nil() },
                PropertyInner::Struct(StructValue::Vector { x: 1, y: 2, z: 3 }),
            ),
        ),
        (
            key(0, "When"),
            prop(
                TagData::Struct { struct_type: FStr::narrow("DateTime"), id: Guid::nil() },
                PropertyInner::Struct(StructValue::DateTime(638_000_000_000_000_000)),
            ),
        ),
        (
            key(0, "Tags"),
            Property {
                tag: PropertyTag {
                    id: Some(Guid { a: 1, b: 2, c: 3, d: 4 }),
                    data: TagData::SetOf(ValueType::Str),
                },
                inner: PropertyInner::SetOf(vec![PropertyValue::Str(FStr::narrow("x"))]),
            },
        ),
        (
            key(0, "PlayerData"),
            prop(
                TagData::MapOf {
                    key_type: ValueType::Str,
                    value_type: ValueType::Struct {
                        struct_type: FStr::narrow("PlayerStruct"),
                        id: Guid::nil(),
                    },
                },
                PropertyInner::MapOf(vec![MapEntry {
                    key: PropertyValue::Str(FStr::narrow("76561199536995340")),
                    value: PropertyValue::Struct(StructValue::Struct(player)),
                }]),
            ),
        ),
    ])
}

#[test]
fn whole_save_round_trip() {
    let save = save_with(rich_root());
    let bytes = encode(&save).unwrap();
    let back = decode(&bytes).unwrap();
    assert_eq!(back, save);
    assert_eq!(reencode(&bytes).unwrap(), bytes);
    assert_eq!(encode(&back).unwrap(), bytes);
}

#[test]
fn encoding_twice_gives_same_bytes() {
    let save = save_with(rich_root());
    assert_eq!(encode(&save).unwrap(), encode(&save).unwrap());
}

#[test]
fn bad_magic_is_invalid_header() {
    let save = save_with(Properties(vec![]));
    let mut bytes = encode(&save).unwrap();
    bytes[0] = b'X';
    assert_eq!(decode(&bytes).unwrap_err().kind, ErrorKind::InvalidHeader);
}

#[test]
fn tag_value_mismatch_is_rejected() {
    let bag = vec![(key(0, "N"), prop(TagData::Int, PropertyInner::Bool(true)))];
    let mut out = Vec::new();
    let err = encode_bag(&mut out, &bag).unwrap_err();
    assert_eq!(err.kind, ErrorKind::TagValueMismatch);
    assert_eq!(err.path, vec![FStr::narrow("N")]);
    let shape = vec![(
        key(0, "P"),
        prop(
            TagData::Struct { struct_type: FStr::narrow("Vector"), id: Guid::nil() },
            PropertyInner::Struct(StructValue::DateTime(1)),
        ),
    )];
    assert_eq!(encode_bag(&mut Vec::new(), &shape).unwrap_err().kind, ErrorKind::TagValueMismatch);
    let label_without_enum = vec![(
        key(0, "B"),
        prop(TagData::Byte(None), PropertyInner::Byte(Byte::Label(FStr::narrow("x")))),
    )];
    assert_eq!(
        encode_bag(&mut Vec::new(), &label_without_enum).unwrap_err().kind,
        ErrorKind::TagValueMismatch
    );
}

#[test]
fn main_save_as_the_engine_writes_it() {
    let mut file = Vec::new();
    file.extend_from_slice(b"GVAS");
    file.extend_from_slice(&2u32.to_le_bytes());
    file.extend_from_slice(&522u32.to_le_bytes());
    file.extend_from_slice(&4u16.to_le_bytes());
    file.extend_from_slice(&27u16.to_le_bytes());
    file.extend_from_slice(&2u16.to_le_bytes());
    file.extend_from_slice(&0u32.to_le_bytes());
    fstr(&mut file, "++UE4+Release-4.27");
    file.extend_from_slice(&3u32.to_le_bytes());
    file.extend_from_slice(&0u32.to_le_bytes());
    fstr(&mut file, "/Game/MainSave.MainSave_C");
    let mut payload = Vec::new();
    payload.extend_from_slice(&2u32.to_le_bytes());
    fstr(&mut payload, "SINGLEPLAYER_a_Easy");
    fstr(&mut payload, "SINGLEPLAYER_b_Hard");
    header(&mut file, "SingleplayerSaves", "ArrayProperty", payload.len() as u32, 0);
    fstr(&mut file, "StrProperty");
    file.push(0);
    file.extend_from_slice(&payload);
    header(&mut file, "UnlockedFun", "BoolProperty", 0, 0);
    file.push(1);
    file.push(0);
    none(&mut file);
    file.extend_from_slice(&[0, 0, 0, 0]);
    let save = decode(&file).unwrap();
    assert_eq!(save.root.0.len(), 2);
    assert_eq!(
        save.root.0[0].1.inner,
        PropertyInner::Array(vec![
            PropertyValue::Str(FStr::narrow("SINGLEPLAYER_a_Easy")),
            PropertyValue::Str(FStr::narrow("SINGLEPLAYER_b_Hard")),
        ])
    );
    assert_eq!(save.root.0[1].1.inner, PropertyInner::Bool(true));
    assert_eq!(encode(&save).unwrap(), file);
    let mut unknown = file.clone();
    let at = unknown.windows(12).position(|w| w == b"BoolProperty").unwrap();
    unknown[at] = b'X';
    let err = decode(&unknown).unwrap_err();
    assert_eq!(err.kind, ErrorKind::UnknownPropertyType);
    assert_eq!(err.path, vec![FStr::narrow("UnlockedFun")]);
}
