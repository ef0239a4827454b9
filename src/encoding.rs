//! What the bytes of a value are: the layout of every part of a save, as spec
//! functions, and which trees can be written at all.
//!
//! A property is laid out as the engine writes it: its name, its type name,
//! the length of its payload (four bytes), its array index (four bytes), the
//! data of its tag (for a truth value, the value itself, one byte), a byte that
//! says whether a property identifier follows (and the identifier), and then
//! the payload, which is empty for a truth value. A bag is its properties
//! followed by the name `None`.

use crate::model::{Byte, FStr, Guid, MapEntry, Property, PropertyInner, PropertyKey, PropertyValue, Save, StructValue, TagData, ValueType};
use crate::wire::{le32, le64};
use vstd::prelude::*;

verus! {

/// The length prefix of an engine string: the byte count of a narrow body, or
/// the negated unit count of a wide one, as a 32-bit two's complement word.
pub open spec fn fstr_len_field(s: FStr) -> u32 {
    if s.wide {
        (0x1_0000_0000 - s.body@.len() / 2) as u32
    } else {
        s.body@.len() as u32
    }
}

pub open spec fn enc_fstr(s: FStr) -> Seq<u8> {
    le32(fstr_len_field(s)) + s.body@
}

/// The length prefix of a string of the given width and body.
pub open spec fn text_len_field(wide: bool, body: Seq<u8>) -> u32 {
    if wide {
        (0x1_0000_0000 - body.len() / 2) as u32
    } else {
        body.len() as u32
    }
}

/// The bytes of a string of the given width and body.
pub open spec fn enc_text(wide: bool, body: Seq<u8>) -> Seq<u8> {
    le32(text_len_field(wide, body)) + body
}

/// A body of the given width fits the length prefix.
pub open spec fn text_wf(wide: bool, body: Seq<u8>) -> bool {
    if wide {
        &&& body.len() > 0
        &&& body.len() % 2 == 0
        &&& body.len() / 2 <= crate::model::WIDE_UNITS_MAX
    } else {
        body.len() <= crate::model::NARROW_MAX
    }
}

/// The bytes of the narrow string with the given body.
pub open spec fn enc_narrow(body: Seq<u8>) -> Seq<u8> {
    le32(body.len() as u32) + body
}

pub open spec fn enc_guid(g: Guid) -> Seq<u8> {
    le32(g.a) + le32(g.b) + le32(g.c) + le32(g.d)
}

pub open spec fn enc_bool(b: bool) -> Seq<u8> {
    seq![if b { 1u8 } else { 0u8 }]
}

/// `None`, with its terminator: the name that ends a bag, and the enum name of a plain byte.
pub open spec fn none_name() -> Seq<u8> {
    seq![78u8, 111, 110, 101, 0]
}

/// `Vector`, the struct type of three coordinates.
pub open spec fn vector_name() -> Seq<u8> {
    seq![86u8, 101, 99, 116, 111, 114, 0]
}

/// `Guid`, the struct type of a bare identifier.
pub open spec fn guid_name() -> Seq<u8> {
    seq![71u8, 117, 105, 100, 0]
}

/// `DateTime`, the struct type of a tick count.
pub open spec fn date_time_name() -> Seq<u8> {
    seq![68u8, 97, 116, 101, 84, 105, 109, 101, 0]
}

/// The type names of the format, each with its terminator.
pub open spec fn bool_property() -> Seq<u8> {
    seq![66u8, 111, 111, 108, 80, 114, 111, 112, 101, 114, 116, 121, 0]
}

pub open spec fn byte_property() -> Seq<u8> {
    seq![66u8, 121, 116, 101, 80, 114, 111, 112, 101, 114, 116, 121, 0]
}

pub open spec fn int_property() -> Seq<u8> {
    seq![73u8, 110, 116, 80, 114, 111, 112, 101, 114, 116, 121, 0]
}

pub open spec fn int64_property() -> Seq<u8> {
    seq![73u8, 110, 116, 54, 52, 80, 114, 111, 112, 101, 114, 116, 121, 0]
}

pub open spec fn uint32_property() -> Seq<u8> {
    seq![85u8, 73, 110, 116, 51, 50, 80, 114, 111, 112, 101, 114, 116, 121, 0]
}

pub open spec fn float_property() -> Seq<u8> {
    seq![70u8, 108, 111, 97, 116, 80, 114, 111, 112, 101, 114, 116, 121, 0]
}

pub open spec fn double_property() -> Seq<u8> {
    seq![68u8, 111, 117, 98, 108, 101, 80, 114, 111, 112, 101, 114, 116, 121, 0]
}

pub open spec fn str_property() -> Seq<u8> {
    seq![83u8, 116, 114, 80, 114, 111, 112, 101, 114, 116, 121, 0]
}

pub open spec fn name_property() -> Seq<u8> {
    seq![78u8, 97, 109, 101, 80, 114, 111, 112, 101, 114, 116, 121, 0]
}

pub open spec fn enum_property() -> Seq<u8> {
    seq![69u8, 110, 117, 109, 80, 114, 111, 112, 101, 114, 116, 121, 0]
}

pub open spec fn struct_property() -> Seq<u8> {
    seq![83u8, 116, 114, 117, 99, 116, 80, 114, 111, 112, 101, 114, 116, 121, 0]
}

pub open spec fn array_property() -> Seq<u8> {
    seq![65u8, 114, 114, 97, 121, 80, 114, 111, 112, 101, 114, 116, 121, 0]
}

pub open spec fn set_property() -> Seq<u8> {
    seq![83u8, 101, 116, 80, 114, 111, 112, 101, 114, 116, 121, 0]
}

pub open spec fn map_property() -> Seq<u8> {
    seq![77u8, 97, 112, 80, 114, 111, 112, 101, 114, 116, 121, 0]
}

/// The type name written for a property with this tag.
pub open spec fn tag_type_name(d: TagData) -> Seq<u8> {
    match d {
        TagData::Bool => bool_property(),
        TagData::Byte(_) => byte_property(),
        TagData::Int => int_property(),
        TagData::Int64 => int64_property(),
        TagData::UInt32 => uint32_property(),
        TagData::Float => float_property(),
        TagData::Double => double_property(),
        TagData::Str => str_property(),
        TagData::Name => name_property(),
        TagData::Enum(_) => enum_property(),
        TagData::Struct { .. } => struct_property(),
        TagData::Array(_) => array_property(),
        TagData::SetOf(_) => set_property(),
        TagData::MapOf { .. } => map_property(),
    }
}

/// The type name written for an element of this type.
pub open spec fn value_type_name(t: ValueType) -> Seq<u8> {
    match t {
        ValueType::Bool => bool_property(),
        ValueType::Byte => byte_property(),
        ValueType::Int => int_property(),
        ValueType::Int64 => int64_property(),
        ValueType::UInt32 => uint32_property(),
        ValueType::Float => float_property(),
        ValueType::Double => double_property(),
        ValueType::Str => str_property(),
        ValueType::Name => name_property(),
        ValueType::Enum => enum_property(),
        ValueType::Struct { .. } => struct_property(),
    }
}

/// Whether `b` is one of the type names of the format.
pub open spec fn is_known_type_name(b: Seq<u8>) -> bool {
    b == bool_property() || b == byte_property() || b == int_property() || b == int64_property()
        || b == uint32_property() || b == float_property() || b == double_property() || b
        == str_property() || b == name_property() || b == enum_property() || b
        == struct_property() || b == array_property() || b == set_property() || b
        == map_property()
}

/// An element type: its type name, then for a struct its struct type and identifier.
pub open spec fn enc_value_type(t: ValueType) -> Seq<u8> {
    match t {
        ValueType::Struct { struct_type, id } => enc_narrow(value_type_name(t)) + enc_fstr(
            struct_type,
        ) + enc_guid(id),
        _ => enc_narrow(value_type_name(t)),
    }
}

/// The data a tag carries after the common header.
pub open spec fn enc_tag_data(d: TagData) -> Seq<u8> {
    match d {
        TagData::Byte(None) => enc_narrow(none_name()),
        TagData::Byte(Some(e)) => enc_fstr(e),
        TagData::Enum(e) => enc_fstr(e),
        TagData::Struct { struct_type, id } => enc_fstr(struct_type) + enc_guid(id),
        TagData::Array(t) => enc_value_type(t),
        TagData::SetOf(t) => enc_value_type(t),
        TagData::MapOf { key_type, value_type } => enc_value_type(key_type) + enc_value_type(
            value_type,
        ),
        _ => Seq::empty(),
    }
}

pub open spec fn enc_property_id(id: Option<Guid>) -> Seq<u8> {
    match id {
        None => seq![0u8],
        Some(g) => seq![1u8] + enc_guid(g),
    }
}

/// The fixed layouts, chosen by struct type name; any other name is a bag of fields.
pub enum StructShape {
    Vector,
    Guid,
    DateTime,
    Bag,
}

pub open spec fn struct_shape(struct_type: FStr) -> StructShape {
    if !struct_type.wide && struct_type.body@ == vector_name() {
        StructShape::Vector
    } else if !struct_type.wide && struct_type.body@ == guid_name() {
        StructShape::Guid
    } else if !struct_type.wide && struct_type.body@ == date_time_name() {
        StructShape::DateTime
    } else {
        StructShape::Bag
    }
}

pub open spec fn enc_struct(v: StructValue) -> Seq<u8>
    decreases v, 0nat,
{
    match v {
        StructValue::Vector { x, y, z } => le32(x) + le32(y) + le32(z),
        StructValue::Guid(g) => enc_guid(g),
        StructValue::DateTime(t) => le64(t),
        StructValue::Struct(p) => enc_bag(p.0@),
    }
}

pub open spec fn enc_value(v: PropertyValue) -> Seq<u8>
    decreases v, 0nat,
{
    match v {
        PropertyValue::Bool(b) => enc_bool(b),
        PropertyValue::Byte(b) => seq![b],
        PropertyValue::Int(i) => le32(i as u32),
        PropertyValue::Int64(i) => le64(i as u64),
        PropertyValue::UInt32(u) => le32(u),
        PropertyValue::Float(f) => le32(f),
        PropertyValue::Double(d) => le64(d),
        PropertyValue::Str(s) => enc_fstr(s),
        PropertyValue::Name(s) => enc_fstr(s),
        PropertyValue::Enum(s) => enc_fstr(s),
        PropertyValue::Struct(sv) => enc_struct(sv),
    }
}

/// The first `n` elements, one after another.
pub open spec fn enc_values(s: Seq<PropertyValue>, n: nat) -> Seq<u8>
    decreases s, n,
{
    if n == 0 || n > s.len() {
        Seq::empty()
    } else {
        enc_values(s, (n - 1) as nat) + enc_value(s[n - 1])
    }
}

/// The first `n` entries of a map, each key before its value.
pub open spec fn enc_entries(s: Seq<MapEntry>, n: nat) -> Seq<u8>
    decreases s, n,
{
    if n == 0 || n > s.len() {
        Seq::empty()
    } else {
        enc_entries(s, (n - 1) as nat) + enc_value(s[n - 1].key) + enc_value(s[n - 1].value)
    }
}

/// The payload of a property.
pub open spec fn enc_inner(i: PropertyInner) -> Seq<u8>
    decreases i, 0nat,
{
    match i {
        PropertyInner::Bool(_) => Seq::empty(),
        PropertyInner::Byte(Byte::Value(b)) => seq![b],
        PropertyInner::Byte(Byte::Label(s)) => enc_fstr(s),
        PropertyInner::Int(x) => le32(x as u32),
        PropertyInner::Int64(x) => le64(x as u64),
        PropertyInner::UInt32(u) => le32(u),
        PropertyInner::Float(f) => le32(f),
        PropertyInner::Double(d) => le64(d),
        PropertyInner::Str(s) => enc_fstr(s),
        PropertyInner::Name(s) => enc_fstr(s),
        PropertyInner::Enum(s) => enc_fstr(s),
        PropertyInner::Struct(sv) => enc_struct(sv),
        PropertyInner::Array(vs) => le32(vs@.len() as u32) + enc_values(vs@, vs@.len()),
        PropertyInner::SetOf(vs) => le32(vs@.len() as u32) + enc_values(vs@, vs@.len()),
        PropertyInner::MapOf(es) => le32(es@.len() as u32) + enc_entries(es@, es@.len()),
    }
}

/// One property, from its name to the end of its payload.
pub open spec fn enc_property(k: PropertyKey, p: Property) -> Seq<u8>
    decreases p, 0nat,
{
    let payload = enc_inner(p.inner);
    enc_fstr(k.1) + enc_narrow(tag_type_name(p.tag.data)) + le32(payload.len() as u32) + le32(k.0)
        + enc_tag_data(p.tag.data) + enc_flag(p.inner) + enc_property_id(p.tag.id) + payload
}

/// The value of a truth-value property, which its tag carries.
pub open spec fn enc_flag(i: PropertyInner) -> Seq<u8> {
    match i {
        PropertyInner::Bool(b) => enc_bool(b),
        _ => Seq::empty(),
    }
}

/// The first `n` properties of a bag, one after another.
pub open spec fn enc_properties(s: Seq<(PropertyKey, Property)>, n: nat) -> Seq<u8>
    decreases s, n,
{
    if n == 0 || n > s.len() {
        Seq::empty()
    } else {
        enc_properties(s, (n - 1) as nat) + enc_property(s[n - 1].0, s[n - 1].1)
    }
}

/// A whole bag: its properties and the closing `None`.
pub open spec fn enc_bag(s: Seq<(PropertyKey, Property)>) -> Seq<u8>
    decreases s, s.len() + 1,
{
    enc_properties(s, s.len()) + enc_narrow(none_name())
}

/// A whole save file.
pub open spec fn enc_save(s: Save) -> Seq<u8> {
    s.header@ + enc_fstr(s.save_game_type) + enc_bag(s.root.0@) + s.extra@
}

/// Whether `s` is the narrow string `None`.
pub open spec fn is_none(s: FStr) -> bool {
    !s.wide && s.body@ == none_name()
}

pub open spec fn value_type_ok(t: ValueType) -> bool {
    match t {
        ValueType::Struct { struct_type, .. } => struct_type.wf(),
        _ => true,
    }
}

/// A struct value has the shape that its struct type name calls for.
pub open spec fn struct_ok(struct_type: FStr, v: StructValue) -> bool
    decreases v, 0nat,
{
    match v {
        StructValue::Vector { .. } => struct_shape(struct_type) is Vector,
        StructValue::Guid(_) => struct_shape(struct_type) is Guid,
        StructValue::DateTime(_) => struct_shape(struct_type) is DateTime,
        StructValue::Struct(p) => struct_shape(struct_type) is Bag && bag_ok(p.0@),
    }
}

/// An element has the type that its container's tag names.
pub open spec fn value_ok(t: ValueType, v: PropertyValue) -> bool
    decreases v, 0nat,
{
    match (t, v) {
        (ValueType::Bool, PropertyValue::Bool(_)) => true,
        (ValueType::Byte, PropertyValue::Byte(_)) => true,
        (ValueType::Int, PropertyValue::Int(_)) => true,
        (ValueType::Int64, PropertyValue::Int64(_)) => true,
        (ValueType::UInt32, PropertyValue::UInt32(_)) => true,
        (ValueType::Float, PropertyValue::Float(_)) => true,
        (ValueType::Double, PropertyValue::Double(_)) => true,
        (ValueType::Str, PropertyValue::Str(s)) => s.wf(),
        (ValueType::Name, PropertyValue::Name(s)) => s.wf(),
        (ValueType::Enum, PropertyValue::Enum(s)) => s.wf(),
        (ValueType::Struct { struct_type, .. }, PropertyValue::Struct(sv)) => struct_ok(
            struct_type,
            sv,
        ),
        _ => false,
    }
}

/// Every element has type `t`, and the count fits its four-byte field.
pub open spec fn values_ok(t: ValueType, s: Seq<PropertyValue>) -> bool
    decreases s, 0nat,
{
    &&& s.len() <= u32::MAX
    &&& forall|i: int| 0 <= i < s.len() ==> value_ok(t, #[trigger] s[i])
}

pub open spec fn entries_ok(k: ValueType, v: ValueType, s: Seq<MapEntry>) -> bool
    decreases s, 0nat,
{
    &&& s.len() <= u32::MAX
    &&& forall|i: int|
        0 <= i < s.len() ==> value_ok(k, (#[trigger] s[i]).key) && value_ok(v, s[i].value)
}

/// A payload agrees with the tag that describes it.
pub open spec fn inner_ok(d: TagData, i: PropertyInner) -> bool
    decreases i, 0nat,
{
    match (d, i) {
        (TagData::Bool, PropertyInner::Bool(_)) => true,
        (TagData::Byte(None), PropertyInner::Byte(Byte::Value(_))) => true,
        (TagData::Byte(Some(e)), PropertyInner::Byte(Byte::Label(s))) => e.wf() && !is_none(e)
            && s.wf(),
        (TagData::Int, PropertyInner::Int(_)) => true,
        (TagData::Int64, PropertyInner::Int64(_)) => true,
        (TagData::UInt32, PropertyInner::UInt32(_)) => true,
        (TagData::Float, PropertyInner::Float(_)) => true,
        (TagData::Double, PropertyInner::Double(_)) => true,
        (TagData::Str, PropertyInner::Str(s)) => s.wf(),
        (TagData::Name, PropertyInner::Name(s)) => s.wf(),
        (TagData::Enum(e), PropertyInner::Enum(s)) => e.wf() && s.wf(),
        (TagData::Struct { struct_type, .. }, PropertyInner::Struct(sv)) => struct_type.wf()
            && struct_ok(struct_type, sv),
        (TagData::Array(t), PropertyInner::Array(vs)) => value_type_ok(t) && values_ok(t, vs@),
        (TagData::SetOf(t), PropertyInner::SetOf(vs)) => value_type_ok(t) && values_ok(t, vs@),
        (TagData::MapOf { key_type, value_type }, PropertyInner::MapOf(es)) => value_type_ok(
            key_type,
        ) && value_type_ok(value_type) && entries_ok(key_type, value_type, es@),
        _ => false,
    }
}

/// A property can be written: its name is a proper string other than `None`,
/// its payload agrees with its tag, and the payload's length fits four bytes.
pub open spec fn property_ok(k: PropertyKey, p: Property) -> bool
    decreases p, 0nat,
{
    k.1.wf() && !is_none(k.1) && inner_ok(p.tag.data, p.inner) && enc_inner(p.inner).len()
        <= u32::MAX
}

pub open spec fn bag_ok(s: Seq<(PropertyKey, Property)>) -> bool
    decreases s, 0nat,
{
    forall|i: int| 0 <= i < s.len() ==> property_ok((#[trigger] s[i]).0, s[i].1)
}

/// A save can be written.
pub open spec fn save_ok(s: Save) -> bool {
    s.save_game_type.wf() && bag_ok(s.root.0@)
}

/// The exec copies of the names above.

pub fn none_name_bytes() -> (r: Vec<u8>)
    ensures
        r@ == none_name(),
{
    let r = vec![78u8, 111, 110, 101, 0];
    assert(r@ =~= none_name());
    r
}

pub fn vector_name_bytes() -> (r: Vec<u8>)
    ensures
        r@ == vector_name(),
{
    let r = vec![86u8, 101, 99, 116, 111, 114, 0];
    assert(r@ =~= vector_name());
    r
}

pub fn guid_name_bytes() -> (r: Vec<u8>)
    ensures
        r@ == guid_name(),
{
    let r = vec![71u8, 117, 105, 100, 0];
    assert(r@ =~= guid_name());
    r
}

pub fn date_time_name_bytes() -> (r: Vec<u8>)
    ensures
        r@ == date_time_name(),
{
    let r = vec![68u8, 97, 116, 101, 84, 105, 109, 101, 0];
    assert(r@ =~= date_time_name());
    r
}

pub fn bool_property_bytes() -> (r: Vec<u8>)
    ensures
        r@ == bool_property(),
{
    let r = vec![66u8, 111, 111, 108, 80, 114, 111, 112, 101, 114, 116, 121, 0];
    assert(r@ =~= bool_property());
    r
}

pub fn byte_property_bytes() -> (r: Vec<u8>)
    ensures
        r@ == byte_property(),
{
    let r = vec![66u8, 121, 116, 101, 80, 114, 111, 112, 101, 114, 116, 121, 0];
    assert(r@ =~= byte_property());
    r
}

pub fn int_property_bytes() -> (r: Vec<u8>)
    ensures
        r@ == int_property(),
{
    let r = vec![73u8, 110, 116, 80, 114, 111, 112, 101, 114, 116, 121, 0];
    assert(r@ =~= int_property());
    r
}

pub fn int64_property_bytes() -> (r: Vec<u8>)
    ensures
        r@ == int64_property(),
{
    let r = vec![73u8, 110, 116, 54, 52, 80, 114, 111, 112, 101, 114, 116, 121, 0];
    assert(r@ =~= int64_property());
    r
}

pub fn uint32_property_bytes() -> (r: Vec<u8>)
    ensures
        r@ == uint32_property(),
{
    let r = vec![85u8, 73, 110, 116, 51, 50, 80, 114, 111, 112, 101, 114, 116, 121, 0];
    assert(r@ =~= uint32_property());
    r
}

pub fn float_property_bytes() -> (r: Vec<u8>)
    ensures
        r@ == float_property(),
{
    let r = vec![70u8, 108, 111, 97, 116, 80, 114, 111, 112, 101, 114, 116, 121, 0];
    assert(r@ =~= float_property());
    r
}

pub fn double_property_bytes() -> (r: Vec<u8>)
    ensures
        r@ == double_property(),
{
    let r = vec![68u8, 111, 117, 98, 108, 101, 80, 114, 111, 112, 101, 114, 116, 121, 0];
    assert(r@ =~= double_property());
    r
}

pub fn str_property_bytes() -> (r: Vec<u8>)
    ensures
        r@ == str_property(),
{
    let r = vec![83u8, 116, 114, 80, 114, 111, 112, 101, 114, 116, 121, 0];
    assert(r@ =~= str_property());
    r
}

pub fn name_property_bytes() -> (r: Vec<u8>)
    ensures
        r@ == name_property(),
{
    let r = vec![78u8, 97, 109, 101, 80, 114, 111, 112, 101, 114, 116, 121, 0];
    assert(r@ =~= name_property());
    r
}

pub fn enum_property_bytes() -> (r: Vec<u8>)
    ensures
        r@ == enum_property(),
{
    let r = vec![69u8, 110, 117, 109, 80, 114, 111, 112, 101, 114, 116, 121, 0];
    assert(r@ =~= enum_property());
    r
}

pub fn struct_property_bytes() -> (r: Vec<u8>)
    ensures
        r@ == struct_property(),
{
    let r = vec![83u8, 116, 114, 117, 99, 116, 80, 114, 111, 112, 101, 114, 116, 121, 0];
    assert(r@ =~= struct_property());
    r
}

pub fn array_property_bytes() -> (r: Vec<u8>)
    ensures
        r@ == array_property(),
{
    let r = vec![65u8, 114, 114, 97, 121, 80, 114, 111, 112, 101, 114, 116, 121, 0];
    assert(r@ =~= array_property());
    r
}

pub fn set_property_bytes() -> (r: Vec<u8>)
    ensures
        r@ == set_property(),
{
    let r = vec![83u8, 101, 116, 80, 114, 111, 112, 101, 114, 116, 121, 0];
    assert(r@ =~= set_property());
    r
}

pub fn map_property_bytes() -> (r: Vec<u8>)
    ensures
        r@ == map_property(),
{
    let r = vec![77u8, 97, 112, 80, 114, 111, 112, 101, 114, 116, 121, 0];
    assert(r@ =~= map_property());
    r
}

} // verus!
