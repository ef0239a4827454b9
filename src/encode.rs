//! Writing a property tree: each function appends the bytes that `encoding`
//! gives for its value, or fails when a payload does not agree with its tag.

use crate::encoding::{
    enc_flag,
    StructShape, array_property_bytes, bag_ok, bool_property_bytes, byte_property_bytes,
    date_time_name_bytes, double_property_bytes, enc_bag, enc_bool, enc_entries, enc_fstr, enc_guid,
    enc_inner, enc_narrow, enc_properties, enc_property, enc_property_id, enc_struct, enc_tag_data,
    enc_value, enc_value_type, enc_values, enum_property_bytes, float_property_bytes,
    guid_name_bytes, inner_ok, int64_property_bytes, int_property_bytes, is_none,
    map_property_bytes, name_property_bytes, none_name_bytes, property_ok, set_property_bytes,
    str_property_bytes, struct_ok, struct_property_bytes, struct_shape, tag_type_name,
    uint32_property_bytes, value_ok, value_type_name, value_type_ok, vector_name_bytes,
};
use crate::error::{CodecError, ErrorKind};
use crate::model::{
    bytes_equal, Byte, FStr, Guid, MapEntry, Property, PropertyInner, PropertyKey,
    PropertyValue, StructValue, TagData, ValueType,
};
use crate::wire::{write_bytes, write_u32, write_u64, write_u8};
use vstd::prelude::*;

verus! {

pub fn write_fstr(out: &mut Vec<u8>, s: &FStr)
    requires
        s.wf(),
    ensures
        final(out)@ == old(out)@ + enc_fstr(*s),
{
    let n = s.body.len();
    let field: u32 = if s.wide {
        (0x1_0000_0000u64 - (n / 2) as u64) as u32
    } else {
        n as u32
    };
    write_u32(out, field);
    write_bytes(out, s.body.as_slice());
    assert(final(out)@ =~= old(out)@ + enc_fstr(*s));
}

pub fn write_narrow(out: &mut Vec<u8>, body: &Vec<u8>)
    requires
        body@.len() <= u32::MAX,
    ensures
        final(out)@ == old(out)@ + enc_narrow(body@),
{
    write_u32(out, body.len() as u32);
    write_bytes(out, body.as_slice());
    assert(final(out)@ =~= old(out)@ + enc_narrow(body@));
}

pub fn write_guid(out: &mut Vec<u8>, g: &Guid)
    ensures
        final(out)@ == old(out)@ + enc_guid(*g),
{
    write_u32(out, g.a);
    write_u32(out, g.b);
    write_u32(out, g.c);
    write_u32(out, g.d);
    assert(final(out)@ =~= old(out)@ + enc_guid(*g));
}

pub fn tag_type_name_bytes(d: &TagData) -> (r: Vec<u8>)
    ensures
        r@ == tag_type_name(*d),
{
    match d {
        TagData::Bool => bool_property_bytes(),
        TagData::Byte(_) => byte_property_bytes(),
        TagData::Int => int_property_bytes(),
        TagData::Int64 => int64_property_bytes(),
        TagData::UInt32 => uint32_property_bytes(),
        TagData::Float => float_property_bytes(),
        TagData::Double => double_property_bytes(),
        TagData::Str => str_property_bytes(),
        TagData::Name => name_property_bytes(),
        TagData::Enum(_) => enum_property_bytes(),
        TagData::Struct { .. } => struct_property_bytes(),
        TagData::Array(_) => array_property_bytes(),
        TagData::SetOf(_) => set_property_bytes(),
        TagData::MapOf { .. } => map_property_bytes(),
    }
}

pub fn value_type_name_bytes(t: &ValueType) -> (r: Vec<u8>)
    ensures
        r@ == value_type_name(*t),
{
    match t {
        ValueType::Bool => bool_property_bytes(),
        ValueType::Byte => byte_property_bytes(),
        ValueType::Int => int_property_bytes(),
        ValueType::Int64 => int64_property_bytes(),
        ValueType::UInt32 => uint32_property_bytes(),
        ValueType::Float => float_property_bytes(),
        ValueType::Double => double_property_bytes(),
        ValueType::Str => str_property_bytes(),
        ValueType::Name => name_property_bytes(),
        ValueType::Enum => enum_property_bytes(),
        ValueType::Struct { .. } => struct_property_bytes(),
    }
}

/// Whether `s` is the narrow string `None`.
pub fn check_none(s: &FStr) -> (r: bool)
    ensures
        r == is_none(*s),
{
    let none = none_name_bytes();
    !s.wide && bytes_equal(s.body.as_slice(), none.as_slice())
}

/// The layout that a struct type name calls for.
pub fn shape_of(struct_type: &FStr) -> (r: StructShape)
    ensures
        r == struct_shape(*struct_type),
{
    if struct_type.wide {
        return StructShape::Bag;
    }
    let v = vector_name_bytes();
    let g = guid_name_bytes();
    let d = date_time_name_bytes();
    if bytes_equal(struct_type.body.as_slice(), v.as_slice()) {
        StructShape::Vector
    } else if bytes_equal(struct_type.body.as_slice(), g.as_slice()) {
        StructShape::Guid
    } else if bytes_equal(struct_type.body.as_slice(), d.as_slice()) {
        StructShape::DateTime
    } else {
        StructShape::Bag
    }
}

pub fn check_value_type(t: &ValueType) -> (r: bool)
    ensures
        r == value_type_ok(*t),
{
    match t {
        ValueType::Struct { struct_type, .. } => struct_type.is_wf(),
        _ => true,
    }
}

pub fn write_value_type(out: &mut Vec<u8>, t: &ValueType)
    requires
        value_type_ok(*t),
    ensures
        final(out)@ == old(out)@ + enc_value_type(*t),
{
    let name = value_type_name_bytes(t);
    write_narrow(out, &name);
    match t {
        ValueType::Struct { struct_type, id } => {
            write_fstr(out, struct_type);
            write_guid(out, id);
            assert(final(out)@ =~= old(out)@ + enc_value_type(*t));
        },
        _ => {},
    }
}

/// The tag data of a payload that agrees with its tag is well formed.
pub open spec fn tag_data_ok(d: TagData) -> bool {
    match d {
        TagData::Byte(Some(e)) => e.wf(),
        TagData::Enum(e) => e.wf(),
        TagData::Struct { struct_type, .. } => struct_type.wf(),
        TagData::Array(t) => value_type_ok(t),
        TagData::SetOf(t) => value_type_ok(t),
        TagData::MapOf { key_type, value_type } => value_type_ok(key_type) && value_type_ok(
            value_type,
        ),
        _ => true,
    }
}

pub fn write_tag_data(out: &mut Vec<u8>, d: &TagData)
    requires
        tag_data_ok(*d),
    ensures
        final(out)@ == old(out)@ + enc_tag_data(*d),
{
    match d {
        TagData::Byte(None) => {
            let none = none_name_bytes();
            write_narrow(out, &none);
        },
        TagData::Byte(Some(e)) => write_fstr(out, e),
        TagData::Enum(e) => write_fstr(out, e),
        TagData::Struct { struct_type, id } => {
            write_fstr(out, struct_type);
            write_guid(out, id);
        },
        TagData::Array(t) => write_value_type(out, t),
        TagData::SetOf(t) => write_value_type(out, t),
        TagData::MapOf { key_type, value_type } => {
            write_value_type(out, key_type);
            write_value_type(out, value_type);
        },
        _ => {},
    }
    assert(final(out)@ =~= old(out)@ + enc_tag_data(*d));
}

pub fn write_property_id(out: &mut Vec<u8>, id: &Option<Guid>)
    ensures
        final(out)@ == old(out)@ + enc_property_id(*id),
{
    match id {
        None => write_u8(out, 0),
        Some(g) => {
            write_u8(out, 1);
            write_guid(out, g);
        },
    }
    assert(final(out)@ =~= old(out)@ + enc_property_id(*id));
}

fn write_bool(out: &mut Vec<u8>, b: bool)
    ensures
        final(out)@ == old(out)@ + enc_bool(b),
{
    write_u8(out, if b { 1u8 } else { 0u8 });
    assert(final(out)@ =~= old(out)@ + enc_bool(b));
}

fn mismatch() -> (r: CodecError)
    ensures
        r.kind == ErrorKind::TagValueMismatch,
{
    CodecError::new(ErrorKind::TagValueMismatch)
}

/// Appends a struct value laid out as its struct type name calls for.
pub fn encode_struct(out: &mut Vec<u8>, struct_type: &FStr, v: &StructValue) -> (r: Result<
    (),
    CodecError,
>)
    ensures
        r is Ok <==> struct_ok(*struct_type, *v),
        r is Ok ==> final(out)@ == old(out)@ + enc_struct(*v),
    decreases v,
{
    let shape = shape_of(struct_type);
    match v {
        StructValue::Vector { x, y, z } => {
            if !matches!(shape, StructShape::Vector) {
                return Err(mismatch());
            }
            write_u32(out, *x);
            write_u32(out, *y);
            write_u32(out, *z);
            assert(final(out)@ =~= old(out)@ + enc_struct(*v));
            Ok(())
        },
        StructValue::Guid(g) => {
            if !matches!(shape, StructShape::Guid) {
                return Err(mismatch());
            }
            write_guid(out, g);
            Ok(())
        },
        StructValue::DateTime(t) => {
            if !matches!(shape, StructShape::DateTime) {
                return Err(mismatch());
            }
            write_u64(out, *t);
            Ok(())
        },
        StructValue::Struct(p) => {
            if !matches!(shape, StructShape::Bag) {
                return Err(mismatch());
            }
            encode_bag(out, &p.0)
        },
    }
}

/// Appends one element of a container whose tag names type `t`.
pub fn encode_value(out: &mut Vec<u8>, t: &ValueType, v: &PropertyValue) -> (r: Result<
    (),
    CodecError,
>)
    ensures
        r is Ok <==> value_ok(*t, *v),
        r is Ok ==> final(out)@ == old(out)@ + enc_value(*v),
    decreases v,
{
    match (t, v) {
        (ValueType::Bool, PropertyValue::Bool(b)) => {
            write_bool(out, *b);
            Ok(())
        },
        (ValueType::Byte, PropertyValue::Byte(b)) => {
            write_u8(out, *b);
            assert(final(out)@ =~= old(out)@ + enc_value(*v));
            Ok(())
        },
        (ValueType::Int, PropertyValue::Int(i)) => {
            write_u32(out, #[verifier::truncate] (*i as u32));
            Ok(())
        },
        (ValueType::Int64, PropertyValue::Int64(i)) => {
            write_u64(out, #[verifier::truncate] (*i as u64));
            Ok(())
        },
        (ValueType::UInt32, PropertyValue::UInt32(u)) => {
            write_u32(out, *u);
            Ok(())
        },
        (ValueType::Float, PropertyValue::Float(f)) => {
            write_u32(out, *f);
            Ok(())
        },
        (ValueType::Double, PropertyValue::Double(d)) => {
            write_u64(out, *d);
            Ok(())
        },
        (ValueType::Str, PropertyValue::Str(s)) | (ValueType::Name, PropertyValue::Name(s)) | (
            ValueType::Enum,
            PropertyValue::Enum(s),
        ) => {
            if !s.is_wf() {
                return Err(CodecError::new(ErrorKind::InvalidValue));
            }
            write_fstr(out, s);
            Ok(())
        },
        (ValueType::Struct { struct_type, .. }, PropertyValue::Struct(sv)) => {
            encode_struct(out, struct_type, sv)
        },
        _ => Err(mismatch()),
    }
}

/// Appends the elements of an array or set, in order.
pub fn encode_values(out: &mut Vec<u8>, t: &ValueType, vs: &Vec<PropertyValue>) -> (r: Result<
    (),
    CodecError,
>)
    ensures
        r is Ok <==> (forall|i: int| 0 <= i < vs@.len() ==> value_ok(*t, #[trigger] vs@[i])),
        r is Ok ==> final(out)@ == old(out)@ + enc_values(vs@, vs@.len()),
    decreases vs,
{
    let mut i: usize = 0;
    while i < vs.len()
        invariant
            i <= vs@.len(),
            out@ == old(out)@ + enc_values(vs@, i as nat),
            forall|j: int| 0 <= j < i ==> value_ok(*t, #[trigger] vs@[j]),
        decreases vs@.len() - i,
    {
        let ghost before = out@;
        match encode_value(out, t, &vs[i]) {
            Ok(()) => {},
            Err(e) => {
                return Err(e);
            },
        }
        assert(enc_values(vs@, (i + 1) as nat) == enc_values(vs@, i as nat) + enc_value(vs@[i as int]));
        assert(out@ =~= old(out)@ + enc_values(vs@, (i + 1) as nat));
        i += 1;
    }
    Ok(())
}

/// Appends the entries of a map, in order, each key before its value.
pub fn encode_entries(
    out: &mut Vec<u8>,
    k: &ValueType,
    v: &ValueType,
    es: &Vec<MapEntry>,
) -> (r: Result<(), CodecError>)
    ensures
        r is Ok <==> (forall|i: int|
            0 <= i < es@.len() ==> value_ok(*k, (#[trigger] es@[i]).key) && value_ok(
                *v,
                es@[i].value,
            )),
        r is Ok ==> final(out)@ == old(out)@ + enc_entries(es@, es@.len()),
    decreases es,
{
    let mut i: usize = 0;
    while i < es.len()
        invariant
            i <= es@.len(),
            out@ == old(out)@ + enc_entries(es@, i as nat),
            forall|j: int|
                0 <= j < i ==> value_ok(*k, (#[trigger] es@[j]).key) && value_ok(*v, es@[j].value),
        decreases es@.len() - i,
    {
        let e = &es[i];
        match encode_value(out, k, &e.key) {
            Ok(()) => {},
            Err(err) => {
                return Err(err);
            },
        }
        match encode_value(out, v, &e.value) {
            Ok(()) => {},
            Err(err) => {
                return Err(err);
            },
        }
        assert(enc_entries(es@, (i + 1) as nat) == enc_entries(es@, i as nat) + enc_value(
            es@[i as int].key,
        ) + enc_value(es@[i as int].value));
        assert(out@ =~= old(out)@ + enc_entries(es@, (i + 1) as nat));
        i += 1;
    }
    Ok(())
}

/// Appends the payload of a property whose tag data is `d`.
pub fn encode_inner(out: &mut Vec<u8>, d: &TagData, v: &PropertyInner) -> (r: Result<
    (),
    CodecError,
>)
    ensures
        r is Ok <==> inner_ok(*d, *v),
        r is Ok ==> final(out)@ == old(out)@ + enc_inner(*v),
    decreases v,
{
    match (d, v) {
        (TagData::Bool, PropertyInner::Bool(_)) => {
            assert(final(out)@ =~= old(out)@ + enc_inner(*v));
            Ok(())
        },
        (TagData::Byte(None), PropertyInner::Byte(Byte::Value(b))) => {
            write_u8(out, *b);
            assert(final(out)@ =~= old(out)@ + enc_inner(*v));
            Ok(())
        },
        (TagData::Byte(Some(e)), PropertyInner::Byte(Byte::Label(s))) => {
            if !e.is_wf() || check_none(e) || !s.is_wf() {
                return Err(CodecError::new(ErrorKind::InvalidValue));
            }
            write_fstr(out, s);
            Ok(())
        },
        (TagData::Int, PropertyInner::Int(i)) => {
            write_u32(out, #[verifier::truncate] (*i as u32));
            Ok(())
        },
        (TagData::Int64, PropertyInner::Int64(i)) => {
            write_u64(out, #[verifier::truncate] (*i as u64));
            Ok(())
        },
        (TagData::UInt32, PropertyInner::UInt32(u)) => {
            write_u32(out, *u);
            Ok(())
        },
        (TagData::Float, PropertyInner::Float(f)) => {
            write_u32(out, *f);
            Ok(())
        },
        (TagData::Double, PropertyInner::Double(x)) => {
            write_u64(out, *x);
            Ok(())
        },
        (TagData::Str, PropertyInner::Str(s)) | (TagData::Name, PropertyInner::Name(s)) => {
            if !s.is_wf() {
                return Err(CodecError::new(ErrorKind::InvalidValue));
            }
            write_fstr(out, s);
            Ok(())
        },
        (TagData::Enum(e), PropertyInner::Enum(s)) => {
            if !e.is_wf() || !s.is_wf() {
                return Err(CodecError::new(ErrorKind::InvalidValue));
            }
            write_fstr(out, s);
            Ok(())
        },
        (TagData::Struct { struct_type, .. }, PropertyInner::Struct(sv)) => {
            if !struct_type.is_wf() {
                return Err(CodecError::new(ErrorKind::InvalidValue));
            }
            encode_struct(out, struct_type, sv)
        },
        (TagData::Array(t), PropertyInner::Array(vs)) | (TagData::SetOf(t), PropertyInner::SetOf(
            vs,
        )) => {
            if !check_value_type(t) || vs.len() > 0xffff_ffff {
                return Err(CodecError::new(ErrorKind::InvalidValue));
            }
            write_u32(out, vs.len() as u32);
            let r = encode_values(out, t, vs);
            assert(r is Ok ==> final(out)@ =~= old(out)@ + enc_inner(*v));
            r
        },
        (TagData::MapOf { key_type, value_type }, PropertyInner::MapOf(es)) => {
            if !check_value_type(key_type) || !check_value_type(value_type) || es.len()
                > 0xffff_ffff {
                return Err(CodecError::new(ErrorKind::InvalidValue));
            }
            write_u32(out, es.len() as u32);
            let r = encode_entries(out, key_type, value_type, es);
            assert(r is Ok ==> final(out)@ =~= old(out)@ + enc_inner(*v));
            r
        },
        _ => Err(mismatch()),
    }
}

/// Appends one property: its header, computed anew from the payload, then the payload.
/// An error names the property and, inside it, where it was met.
pub fn encode_property(out: &mut Vec<u8>, k: &PropertyKey, p: &Property) -> (r: Result<
    (),
    CodecError,
>)
    ensures
        r is Ok <==> property_ok(*k, *p),
        r is Ok ==> final(out)@ == old(out)@ + enc_property(*k, *p),
    decreases p,
{
    if !k.1.is_wf() || check_none(&k.1) {
        return Err(CodecError::new(ErrorKind::InvalidValue).within(&k.1));
    }
    let mut payload: Vec<u8> = Vec::new();
    match encode_inner(&mut payload, &p.tag.data, &p.inner) {
        Ok(()) => {},
        Err(e) => {
            return Err(e.within(&k.1));
        },
    }
    assert(payload@ =~= enc_inner(p.inner));
    assert(tag_data_ok(p.tag.data));
    if payload.len() > 0xffff_ffff {
        return Err(CodecError::new(ErrorKind::InvalidValue).within(&k.1));
    }
    write_fstr(out, &k.1);
    let name = tag_type_name_bytes(&p.tag.data);
    write_narrow(out, &name);
    write_u32(out, payload.len() as u32);
    write_u32(out, k.0);
    write_tag_data(out, &p.tag.data);
    let ghost before_flag = out@;
    if let PropertyInner::Bool(b) = &p.inner {
        write_bool(out, *b);
    }
    assert(out@ =~= before_flag + enc_flag(p.inner));
    write_property_id(out, &p.tag.id);
    out.append(&mut payload);
    assert(final(out)@ =~= old(out)@ + enc_property(*k, *p));
    Ok(())
}

/// Appends a bag: its properties in order, then the closing `None`.
pub fn encode_bag(out: &mut Vec<u8>, props: &Vec<(PropertyKey, Property)>) -> (r: Result<
    (),
    CodecError,
>)
    ensures
        r is Ok <==> bag_ok(props@),
        r is Ok ==> final(out)@ == old(out)@ + enc_bag(props@),
    decreases props,
{
    let mut i: usize = 0;
    while i < props.len()
        invariant
            i <= props@.len(),
            out@ == old(out)@ + enc_properties(props@, i as nat),
            forall|j: int| 0 <= j < i ==> property_ok((#[trigger] props@[j]).0, props@[j].1),
        decreases props@.len() - i,
    {
        let entry = &props[i];
        match encode_property(out, &entry.0, &entry.1) {
            Ok(()) => {},
            Err(e) => {
                return Err(e);
            },
        }
        assert(enc_properties(props@, (i + 1) as nat) == enc_properties(props@, i as nat)
            + enc_property(props@[i as int].0, props@[i as int].1));
        assert(out@ =~= old(out)@ + enc_properties(props@, (i + 1) as nat));
        i += 1;
    }
    let none = none_name_bytes();
    write_narrow(out, &none);
    assert(final(out)@ =~= old(out)@ + enc_bag(props@));
    Ok(())
}

} // verus!
