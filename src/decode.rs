//! Reading a property tree. Whatever a reader accepts, the matching writer
//! gives back byte for byte: each reader ensures that the bytes it consumed
//! are the encoding of the value it returns, and that the value can be written.

use crate::encoding::{
    enc_flag,
    entries_ok, values_ok,
    enc_text, text_len_field, text_wf,
    array_property_bytes, bag_ok, bool_property_bytes, byte_property_bytes,
    double_property_bytes, enc_bag, enc_bool, enc_entries, enc_fstr, enc_guid, enc_inner,
    enc_narrow, enc_properties, enc_property, enc_property_id, enc_struct, enc_tag_data,
    enc_value, enc_value_type, enc_values, enum_property_bytes, float_property_bytes,
    fstr_len_field, inner_ok, int64_property_bytes, int_property_bytes, is_known_type_name,
    is_none, map_property_bytes, name_property_bytes, none_name, property_ok,
    set_property_bytes, str_property_bytes, struct_ok, struct_property_bytes, struct_shape,
    tag_type_name, uint32_property_bytes, value_ok, value_type_name, value_type_ok,
    StructShape, array_property, bool_property, byte_property, double_property, enum_property,
    float_property, int64_property, int_property, map_property, name_property, set_property,
    str_property, struct_property, uint32_property,
};
use crate::encode::{check_none, shape_of, tag_data_ok};
use crate::error::{CodecError, ErrorKind};
use crate::model::{
    bytes_equal, Byte, FStr, Guid, MapEntry, Properties, Property, PropertyInner, PropertyKey,
    PropertyTag, PropertyValue, StructValue, TagData, ValueType,
};
use crate::wire::{
    le32, le64, lemma_i32_bits, lemma_le32_injective, lemma_i64_bits, lemma_le32_len, lemma_le64_len, read_bytes,
    read_u32, read_u64, read_u8, span,
};
use vstd::prelude::*;

verus! {

pub proof fn lemma_span_join(s: Seq<u8>, a: int, b: int, c: int)
    requires
        0 <= a <= b <= c <= s.len(),
    ensures
        span(s, a, b) + span(s, b, c) == span(s, a, c),
{
    assert(span(s, a, b) + span(s, b, c) =~= span(s, a, c));
}

fn end_of_input() -> (r: CodecError)
    ensures
        r.kind == ErrorKind::UnexpectedEnd,
        r.path@.len() == 0,
{
    CodecError::new(ErrorKind::UnexpectedEnd)
}

/// The bytes of `input` from `pos` on begin with `b`.
pub open spec fn starts_with_at(input: Seq<u8>, pos: int, b: Seq<u8>) -> bool {
    0 <= pos && pos + b.len() <= input.len() && input.subrange(pos, pos + b.len()) == b
}

/// Reads an engine string: its length prefix, then its body. Where the input
/// holds the encoding of a string, that string is what is read.
pub fn read_fstr(input: &[u8], pos: usize) -> (r: Result<(FStr, usize), CodecError>)
    ensures
        r matches Ok((s, end)) ==> pos < end <= input@.len() && span(input@, pos as int, end as int)
            == enc_fstr(s) && s.wf(),
        r matches Err(e) ==> e.path@.len() == 0,
        forall|s: FStr|
            s.wf() && #[trigger] starts_with_at(input@, pos as int, enc_fstr(s)) ==> (r matches Ok(
                (t, end),
            ) && t.same(&s) && end == pos + enc_fstr(s).len()),
        forall|w: bool, b: Seq<u8>|
            text_wf(w, b) && #[trigger] starts_with_at(input@, pos as int, enc_text(w, b)) ==> (r matches Ok(
                (t, end),
            ) && t.wide == w && t.body@ == b && end == pos + enc_text(w, b).len()),
{
    proof {
        assert forall|s: FStr|
            s.wf() && #[trigger] starts_with_at(input@, pos as int, enc_fstr(s)) implies pos + 4
            <= input@.len() && span(input@, pos as int, pos + 4) == le32(fstr_len_field(s))
            && span(input@, pos + 4, pos + enc_fstr(s).len()) == s.body@ by {
            lemma_le32_len(fstr_len_field(s));
            assert(span(input@, pos as int, pos + 4) =~= enc_fstr(s).subrange(0, 4));
            assert(span(input@, pos + 4, pos + enc_fstr(s).len()) =~= enc_fstr(s).subrange(
                4,
                enc_fstr(s).len() as int,
            ));
        }
        assert forall|w: bool, b: Seq<u8>|
            text_wf(w, b) && #[trigger] starts_with_at(input@, pos as int, enc_text(w, b)) implies pos + 4
            <= input@.len() && span(input@, pos as int, pos + 4) == le32(text_len_field(w, b))
            && span(input@, pos + 4, pos + enc_text(w, b).len()) == b by {
            lemma_le32_len(text_len_field(w, b));
            assert(span(input@, pos as int, pos + 4) =~= enc_text(w, b).subrange(0, 4));
            assert(span(input@, pos + 4, pos + enc_text(w, b).len()) =~= enc_text(w, b).subrange(
                4,
                enc_text(w, b).len() as int,
            ));
        }
    }
    let len = input.len();
    let u = match read_u32(input, pos) {
        Some(u) => u,
        None => {
            return Err(end_of_input());
        },
    };
    proof {
        lemma_le32_len(u);
    }
    let start = pos + 4;
    if u < 0x8000_0000 {
        let n = u as usize;
        let body = match read_bytes(input, start, n) {
            Some(b) => b,
            None => {
                proof {
                    assert forall|s2: FStr|
                        s2.wf() && #[trigger] starts_with_at(input@, pos as int, enc_fstr(s2)) implies false by {
                        lemma_le32_injective(u, fstr_len_field(s2));
                    }
                    assert forall|w: bool, b: Seq<u8>|
                        text_wf(w, b) && #[trigger] starts_with_at(input@, pos as int, enc_text(w, b)) implies false by {
                        lemma_le32_injective(u, text_len_field(w, b));
                    }
                }
                return Err(end_of_input());
            },
        };
        let s = FStr { wide: false, body };
        proof {
            assert(fstr_len_field(s) == u);
            lemma_span_join(input@, pos as int, start as int, start + n);
            assert forall|s2: FStr|
                s2.wf() && #[trigger] starts_with_at(input@, pos as int, enc_fstr(s2)) implies s.same(
                &s2,
            ) && start + n == pos + enc_fstr(s2).len() by {
                lemma_le32_injective(u, fstr_len_field(s2));
            }
            assert forall|w: bool, b: Seq<u8>|
                text_wf(w, b) && #[trigger] starts_with_at(input@, pos as int, enc_text(w, b)) implies s.wide
                == w && s.body@ == b && start + n == pos + enc_text(w, b).len() by {
                lemma_le32_injective(u, text_len_field(w, b));
            }
        }
        Ok((s, start + n))
    } else {
        let units = (0x1_0000_0000u64 - u as u64) as usize;
        if units > (usize::MAX - start) / 2 {
            proof {
                assert forall|s2: FStr|
                    s2.wf() && #[trigger] starts_with_at(input@, pos as int, enc_fstr(s2)) implies false by {
                    lemma_le32_injective(u, fstr_len_field(s2));
                }
                assert forall|w: bool, b: Seq<u8>|
                    text_wf(w, b) && #[trigger] starts_with_at(input@, pos as int, enc_text(w, b)) implies false by {
                    lemma_le32_injective(u, text_len_field(w, b));
                }
            }
            return Err(end_of_input());
        }
        let n = units * 2;
        let body = match read_bytes(input, start, n) {
            Some(b) => b,
            None => {
                proof {
                    assert forall|s2: FStr|
                        s2.wf() && #[trigger] starts_with_at(input@, pos as int, enc_fstr(s2)) implies false by {
                        lemma_le32_injective(u, fstr_len_field(s2));
                    }
                    assert forall|w: bool, b: Seq<u8>|
                        text_wf(w, b) && #[trigger] starts_with_at(input@, pos as int, enc_text(w, b)) implies false by {
                        lemma_le32_injective(u, text_len_field(w, b));
                    }
                }
                return Err(end_of_input());
            },
        };
        let s = FStr { wide: true, body };
        proof {
            assert(s.body@.len() / 2 == units);
            assert(fstr_len_field(s) == u);
            lemma_span_join(input@, pos as int, start as int, start + n);
            assert forall|s2: FStr|
                s2.wf() && #[trigger] starts_with_at(input@, pos as int, enc_fstr(s2)) implies s.same(
                &s2,
            ) && start + n == pos + enc_fstr(s2).len() by {
                lemma_le32_injective(u, fstr_len_field(s2));
            }
            assert forall|w: bool, b: Seq<u8>|
                text_wf(w, b) && #[trigger] starts_with_at(input@, pos as int, enc_text(w, b)) implies s.wide
                == w && s.body@ == b && start + n == pos + enc_text(w, b).len() by {
                lemma_le32_injective(u, text_len_field(w, b));
            }
        }
        Ok((s, start + n))
    }
}

pub fn read_guid(input: &[u8], pos: usize) -> (r: Option<(Guid, usize)>)
    ensures
        r matches Some((g, end)) ==> end == pos + 16 && end <= input@.len() && span(
            input@,
            pos as int,
            end as int,
        ) == enc_guid(g),
        forall|g: Guid| #[trigger] starts_with_at(input@, pos as int, enc_guid(g)) ==> (r matches Some(
            (g2, end),
        ) && g2 == g && end == pos + 16),
{
    proof {
        assert forall|g: Guid| #[trigger] starts_with_at(input@, pos as int, enc_guid(g)) implies span(
            input@,
            pos as int,
            pos + 4,
        ) == le32(g.a) && span(input@, pos + 4, pos + 8) == le32(g.b) && span(
            input@,
            pos + 8,
            pos + 12,
        ) == le32(g.c) && span(input@, pos + 12, pos + 16) == le32(g.d) && enc_guid(g).len() == 16 by {
            lemma_le32_len(g.a);
            lemma_le32_len(g.b);
            lemma_le32_len(g.c);
            lemma_le32_len(g.d);
            let e = enc_guid(g);
            let w = input@.subrange(pos as int, pos + 16);
            assert(w == e);
            assert(span(input@, pos as int, pos + 4) =~= e.subrange(0, 4));
            assert(e.subrange(0, 4) =~= le32(g.a));
            assert(span(input@, pos + 4, pos + 8) =~= e.subrange(4, 8));
            assert(e.subrange(4, 8) =~= le32(g.b));
            assert(span(input@, pos + 8, pos + 12) =~= e.subrange(8, 12));
            assert(e.subrange(8, 12) =~= le32(g.c));
            assert(span(input@, pos + 12, pos + 16) =~= e.subrange(12, 16));
            assert(e.subrange(12, 16) =~= le32(g.d));
        }
    }
    if pos > input.len() || input.len() - pos < 16 {
        return None;
    }
    let a = read_u32(input, pos)?;
    let b = read_u32(input, pos + 4)?;
    let c = read_u32(input, pos + 8)?;
    let d = read_u32(input, pos + 12)?;
    let g = Guid { a, b, c, d };
    proof {
        lemma_le32_len(a);
        assert(span(input@, pos as int, pos + 16) =~= enc_guid(g));
        assert forall|g2: Guid| #[trigger] starts_with_at(input@, pos as int, enc_guid(g2)) implies g2
            == g by {
            lemma_le32_injective(a, g2.a);
            lemma_le32_injective(b, g2.b);
            lemma_le32_injective(c, g2.c);
            lemma_le32_injective(d, g2.d);
        }
    }
    Some((g, pos + 16))
}

/// The kinds of property that the format knows, by type name.
#[derive(Clone, Copy, Debug, PartialEq, Eq)]
pub enum TypeKind {
    Bool,
    Byte,
    Int,
    Int64,
    UInt32,
    Float,
    Double,
    Str,
    Name,
    Enum,
    Struct,
    Array,
    SetOf,
    MapOf,
}

pub open spec fn kind_name(k: TypeKind) -> Seq<u8> {
    match k {
        TypeKind::Bool => bool_property(),
        TypeKind::Byte => byte_property(),
        TypeKind::Int => int_property(),
        TypeKind::Int64 => int64_property(),
        TypeKind::UInt32 => uint32_property(),
        TypeKind::Float => float_property(),
        TypeKind::Double => double_property(),
        TypeKind::Str => str_property(),
        TypeKind::Name => name_property(),
        TypeKind::Enum => enum_property(),
        TypeKind::Struct => struct_property(),
        TypeKind::Array => array_property(),
        TypeKind::SetOf => set_property(),
        TypeKind::MapOf => map_property(),
    }
}

/// The kind that a type name names, if the format knows it.
pub fn type_kind(name: &FStr) -> (r: Option<TypeKind>)
    ensures
        r matches Some(k) ==> !name.wide && name.body@ == kind_name(k),
        r is None <==> !(!name.wide && is_known_type_name(name.body@)),
        forall|k: TypeKind| !name.wide && name.body@ == #[trigger] kind_name(k) ==> r == Some(k),
{
    if name.wide {
        return None;
    }
    let b = name.body.as_slice();
    if bytes_equal(b, bool_property_bytes().as_slice()) {
        Some(TypeKind::Bool)
    } else if bytes_equal(b, byte_property_bytes().as_slice()) {
        Some(TypeKind::Byte)
    } else if bytes_equal(b, int_property_bytes().as_slice()) {
        Some(TypeKind::Int)
    } else if bytes_equal(b, int64_property_bytes().as_slice()) {
        Some(TypeKind::Int64)
    } else if bytes_equal(b, uint32_property_bytes().as_slice()) {
        Some(TypeKind::UInt32)
    } else if bytes_equal(b, float_property_bytes().as_slice()) {
        Some(TypeKind::Float)
    } else if bytes_equal(b, double_property_bytes().as_slice()) {
        Some(TypeKind::Double)
    } else if bytes_equal(b, str_property_bytes().as_slice()) {
        Some(TypeKind::Str)
    } else if bytes_equal(b, name_property_bytes().as_slice()) {
        Some(TypeKind::Name)
    } else if bytes_equal(b, enum_property_bytes().as_slice()) {
        Some(TypeKind::Enum)
    } else if bytes_equal(b, struct_property_bytes().as_slice()) {
        Some(TypeKind::Struct)
    } else if bytes_equal(b, array_property_bytes().as_slice()) {
        Some(TypeKind::Array)
    } else if bytes_equal(b, set_property_bytes().as_slice()) {
        Some(TypeKind::SetOf)
    } else if bytes_equal(b, map_property_bytes().as_slice()) {
        Some(TypeKind::MapOf)
    } else {
        None
    }
}

/// Reads the type of the elements of a container: a scalar or struct type name,
/// and for a struct its struct type and identifier.
/// The kind whose name an element type is written under.
pub open spec fn vt_kind(t: ValueType) -> TypeKind {
    match t {
        ValueType::Bool => TypeKind::Bool,
        ValueType::Byte => TypeKind::Byte,
        ValueType::Int => TypeKind::Int,
        ValueType::Int64 => TypeKind::Int64,
        ValueType::UInt32 => TypeKind::UInt32,
        ValueType::Float => TypeKind::Float,
        ValueType::Double => TypeKind::Double,
        ValueType::Str => TypeKind::Str,
        ValueType::Name => TypeKind::Name,
        ValueType::Enum => TypeKind::Enum,
        ValueType::Struct { .. } => TypeKind::Struct,
    }
}

/// Where the input at `pos` holds an element type, the parts of its encoding follow one another.
proof fn lemma_value_type_parts(input: Seq<u8>, pos: int, t: ValueType)
    requires
        value_type_ok(t),
        starts_with_at(input, pos, enc_value_type(t)),
    ensures
        starts_with_at(input, pos, enc_text(false, value_type_name(t))),
        text_wf(false, value_type_name(t)),
        kind_name(vt_kind(t)) == value_type_name(t),
        t matches ValueType::Struct { struct_type, id } ==> starts_with_at(
            input,
            pos + enc_narrow(value_type_name(t)).len(),
            enc_fstr(struct_type),
        ) && starts_with_at(
            input,
            pos + enc_narrow(value_type_name(t)).len() + enc_fstr(struct_type).len(),
            enc_guid(id),
        ),
{
    let n = enc_narrow(value_type_name(t));
    assert(n == enc_text(false, value_type_name(t)));
    match t {
        ValueType::Struct { struct_type, id } => {
            assert(enc_value_type(t) == n + enc_fstr(struct_type) + enc_guid(id));
            lemma_prefix_of_prefix(input, pos, n + enc_fstr(struct_type), enc_guid(id));
            lemma_prefix_of_prefix(input, pos, n, enc_fstr(struct_type));
        },
        _ => {},
    }
}

/// Reads the type of the elements of a container: a scalar or struct type name,
/// and for a struct its struct type and identifier.
pub fn read_value_type(input: &[u8], pos: usize) -> (r: Result<(ValueType, usize), CodecError>)
    ensures
        r matches Ok((t, end)) ==> pos < end <= input@.len() && span(input@, pos as int, end as int)
            == enc_value_type(t) && value_type_ok(t),
        r matches Err(e) ==> e.path@.len() == 0,
        forall|t: ValueType|
            value_type_ok(t) && #[trigger] starts_with_at(input@, pos as int, enc_value_type(t)) ==> (
            r matches Ok((t2, end)) && vt_same(t2, t) && end == pos + enc_value_type(t).len()),
{
    proof {
        assert forall|t: ValueType|
            value_type_ok(t) && #[trigger] starts_with_at(input@, pos as int, enc_value_type(t)) implies starts_with_at(
            input@,
            pos as int,
            enc_text(false, value_type_name(t)),
        ) by {
            lemma_value_type_parts(input@, pos as int, t);
        }
    }
    let (name, q1) = read_fstr(input, pos)?;
    proof {
        assert forall|t: ValueType|
            value_type_ok(t) && #[trigger] starts_with_at(input@, pos as int, enc_value_type(t)) implies !name.wide
            && name.body@ == kind_name(vt_kind(t)) && q1 == pos + enc_narrow(value_type_name(t)).len() by {
            lemma_value_type_parts(input@, pos as int, t);
        }
    }
    let kind = match type_kind(&name) {
        Some(k) => k,
        None => {
            return Err(CodecError::new(ErrorKind::UnknownPropertyType));
        },
    };
    let t = match kind {
        TypeKind::Bool => ValueType::Bool,
        TypeKind::Byte => ValueType::Byte,
        TypeKind::Int => ValueType::Int,
        TypeKind::Int64 => ValueType::Int64,
        TypeKind::UInt32 => ValueType::UInt32,
        TypeKind::Float => ValueType::Float,
        TypeKind::Double => ValueType::Double,
        TypeKind::Str => ValueType::Str,
        TypeKind::Name => ValueType::Name,
        TypeKind::Enum => ValueType::Enum,
        TypeKind::Struct => {
            proof {
                assert forall|t: ValueType|
                    value_type_ok(t) && #[trigger] starts_with_at(input@, pos as int, enc_value_type(t)) implies (t matches ValueType::Struct { struct_type, id } && starts_with_at(
                    input@,
                    q1 as int,
                    enc_fstr(struct_type),
                ) && struct_type.wf()) by {
                    lemma_value_type_parts(input@, pos as int, t);
                }
            }
            let (struct_type, q2) = read_fstr(input, q1)?;
            proof {
                assert forall|t: ValueType|
                    value_type_ok(t) && #[trigger] starts_with_at(input@, pos as int, enc_value_type(t)) implies (t matches ValueType::Struct { struct_type: st, id } && struct_type.same(&st) && q2 == q1 + enc_fstr(st).len() && starts_with_at(
                    input@,
                    q2 as int,
                    enc_guid(id),
                )) by {
                    lemma_value_type_parts(input@, pos as int, t);
                }
            }
            let (id, q3) = match read_guid(input, q2) {
                Some(x) => x,
                None => {
                    return Err(end_of_input());
                },
            };
            let t = ValueType::Struct { struct_type, id };
            proof {
                assert(enc_fstr(name) == enc_narrow(value_type_name(t)));
                lemma_span_join(input@, pos as int, q1 as int, q2 as int);
                lemma_span_join(input@, pos as int, q2 as int, q3 as int);
                assert forall|t2: ValueType|
                    value_type_ok(t2) && #[trigger] starts_with_at(input@, pos as int, enc_value_type(t2)) implies vt_same(t, t2)
                    && q3 == pos + enc_value_type(t2).len() by {
                    lemma_value_type_parts(input@, pos as int, t2);
                }
            }
            return Ok((t, q3));
        },
        _ => {
            return Err(CodecError::new(ErrorKind::UnknownPropertyType));
        },
    };
    assert(enc_fstr(name) == enc_narrow(value_type_name(t)));
    proof {
        assert forall|t2: ValueType|
            value_type_ok(t2) && #[trigger] starts_with_at(input@, pos as int, enc_value_type(t2)) implies vt_same(t, t2)
            && q1 == pos + enc_value_type(t2).len() by {
            lemma_value_type_parts(input@, pos as int, t2);
        }
    }
    Ok((t, q1))
}

/// Two element types agree up to the storage of their strings.
pub open spec fn vt_same(a: ValueType, b: ValueType) -> bool {
    match (a, b) {
        (ValueType::Struct { struct_type: s1, id: i1 }, ValueType::Struct { struct_type: s2, id: i2 }) => s1.same(&s2) && i1 == i2,
        (ValueType::Struct { .. }, _) => false,
        (_, ValueType::Struct { .. }) => false,
        _ => a == b,
    }
}

/// Two tags' data agree up to the storage of their strings.
pub open spec fn tag_same(a: TagData, b: TagData) -> bool {
    match (a, b) {
        (TagData::Byte(Some(x)), TagData::Byte(Some(y))) => x.same(&y),
        (TagData::Enum(x), TagData::Enum(y)) => x.same(&y),
        (TagData::Struct { struct_type: s1, id: i1 }, TagData::Struct { struct_type: s2, id: i2 }) => s1.same(&s2) && i1 == i2,
        (TagData::Array(x), TagData::Array(y)) => vt_same(x, y),
        (TagData::SetOf(x), TagData::SetOf(y)) => vt_same(x, y),
        (TagData::MapOf { key_type: k1, value_type: v1 }, TagData::MapOf { key_type: k2, value_type: v2 }) => vt_same(k1, k2) && vt_same(v1, v2),
        (TagData::Byte(Some(_)), _) | (TagData::Enum(_), _) | (TagData::Struct { .. }, _) | (TagData::Array(_), _) | (TagData::SetOf(_), _) | (TagData::MapOf { .. }, _) => false,
        _ => a == b,
    }
}

pub proof fn lemma_vt_same(a: ValueType, b: ValueType, v: PropertyValue)
    requires
        vt_same(a, b),
    ensures
        value_ok(a, v) == value_ok(b, v),
        value_type_ok(a) == value_type_ok(b),
        enc_value_type(a) == enc_value_type(b),
        forall|s: Seq<PropertyValue>| values_ok(a, s) == values_ok(b, s),
        forall|w: PropertyValue| value_ok(a, w) == value_ok(b, w),
{
    assert forall|w: PropertyValue| value_ok(a, w) == value_ok(b, w) by {
        match (a, b) {
            (ValueType::Struct { struct_type: s1, .. }, ValueType::Struct { struct_type: s2, .. }) => {
                assert(struct_shape(s1) == struct_shape(s2));
            },
            _ => {},
        }
    }
    assert forall|s: Seq<PropertyValue>| values_ok(a, s) == values_ok(b, s) by {
        assert(forall|i: int| 0 <= i < s.len() ==> value_ok(a, #[trigger] s[i]) == value_ok(b, s[i]));
    }
}

pub proof fn lemma_tag_same(a: TagData, b: TagData, v: PropertyInner)
    requires
        tag_same(a, b),
    ensures
        inner_ok(a, v) == inner_ok(b, v),
        tag_type_name(a) == tag_type_name(b),
        enc_tag_data(a) == enc_tag_data(b),
{
    match (a, b) {
        (TagData::Struct { struct_type: s1, .. }, TagData::Struct { struct_type: s2, .. }) => {
            assert(struct_shape(s1) == struct_shape(s2));
        },
        (TagData::Array(x), TagData::Array(y)) => {
            lemma_vt_same(x, y, PropertyValue::Bool(true));
        },
        (TagData::SetOf(x), TagData::SetOf(y)) => {
            lemma_vt_same(x, y, PropertyValue::Bool(true));
        },
        (TagData::MapOf { key_type: k1, value_type: v1 }, TagData::MapOf { key_type: k2, value_type: v2 }) => {
            lemma_vt_same(k1, k2, PropertyValue::Bool(true));
            lemma_vt_same(v1, v2, PropertyValue::Bool(true));
            match v {
                PropertyInner::MapOf(es) => {
                    assert(entries_ok(k1, v1, es@) == entries_ok(k2, v2, es@));
                },
                _ => {},
            }
        },
        _ => {},
    }
}

/// What a decoded tag guarantees to the payload reader.
pub open spec fn tag_read_ok(d: TagData) -> bool {
    &&& tag_data_ok(d)
    &&& d matches TagData::Byte(Some(e)) ==> !is_none(e)
}

/// Reads the data that a tag of kind `k` carries.
pub fn read_tag_data(input: &[u8], pos: usize, k: TypeKind) -> (r: Result<
    (TagData, usize),
    CodecError,
>)
    requires
        pos <= input@.len(),
    ensures
        r matches Ok((d, end)) ==> pos <= end <= input@.len() && span(input@, pos as int, end as int)
            == enc_tag_data(d) && tag_type_name(d) == kind_name(k) && tag_read_ok(d),
        r matches Err(e) ==> e.path@.len() == 0,
        forall|d: TagData|
            tag_type_name(d) == kind_name(k) && tag_read_ok(d) && #[trigger] starts_with_at(
                input@,
                pos as int,
                enc_tag_data(d),
            ) ==> (r matches Ok((d2, end)) && tag_same(d2, d) && end == pos + enc_tag_data(d).len()),
{
    proof {
        assert forall|d: TagData|
            tag_type_name(d) == kind_name(k) && tag_read_ok(d) && #[trigger] starts_with_at(
                input@,
                pos as int,
                enc_tag_data(d),
            ) implies tag_parts(input@, pos as int, d) by {
            lemma_tag_parts(input@, pos as int, d);
        }
    }
    let d = match k {
        TypeKind::Bool => TagData::Bool,
        TypeKind::Int => TagData::Int,
        TypeKind::Int64 => TagData::Int64,
        TypeKind::UInt32 => TagData::UInt32,
        TypeKind::Float => TagData::Float,
        TypeKind::Double => TagData::Double,
        TypeKind::Str => TagData::Str,
        TypeKind::Name => TagData::Name,
        TypeKind::Byte => {
            let (e, q1) = read_fstr(input, pos)?;
            if check_none(&e) {
                assert(enc_fstr(e) == enc_narrow(none_name()));
                return Ok((TagData::Byte(None), q1));
            }
            return Ok((TagData::Byte(Some(e)), q1));
        },
        TypeKind::Enum => {
            let (e, q1) = read_fstr(input, pos)?;
            return Ok((TagData::Enum(e), q1));
        },
        TypeKind::Struct => {
            let (struct_type, q1) = read_fstr(input, pos)?;
            let (id, q2) = match read_guid(input, q1) {
                Some(x) => x,
                None => {
                    return Err(end_of_input());
                },
            };
            proof {
                lemma_span_join(input@, pos as int, q1 as int, q2 as int);
            }
            return Ok((TagData::Struct { struct_type, id }, q2));
        },
        TypeKind::Array => {
            let (t, q1) = read_value_type(input, pos)?;
            return Ok((TagData::Array(t), q1));
        },
        TypeKind::SetOf => {
            let (t, q1) = read_value_type(input, pos)?;
            return Ok((TagData::SetOf(t), q1));
        },
        TypeKind::MapOf => {
            let (key_type, q1) = read_value_type(input, pos)?;
            let (value_type, q2) = read_value_type(input, q1)?;
            proof {
                lemma_span_join(input@, pos as int, q1 as int, q2 as int);
                assert forall|d: TagData|
                    tag_type_name(d) == kind_name(k) && tag_read_ok(d) && #[trigger] starts_with_at(
                        input@,
                        pos as int,
                        enc_tag_data(d),
                    ) implies (d matches TagData::MapOf { key_type: k1, value_type: v1 } && vt_same(key_type, k1) && vt_same(value_type, v1) && q2 == pos + enc_tag_data(d).len()) by {
                    lemma_tag_parts(input@, pos as int, d);
                    match d {
                        TagData::MapOf { key_type: k1, value_type: v1 } => {
                            lemma_vt_same(key_type, k1, PropertyValue::Bool(true));
                        },
                        _ => {},
                    }
                }
            }
            return Ok((TagData::MapOf { key_type, value_type }, q2));
        },
    };
    assert(span(input@, pos as int, pos as int) =~= enc_tag_data(d));
    Ok((d, pos))
}

/// The facts that the encoding of a tag's data at `pos` gives about the input.
pub open spec fn tag_parts(input: Seq<u8>, pos: int, d: TagData) -> bool {
    match d {
        TagData::Byte(None) => starts_with_at(input, pos, enc_text(false, none_name()))
            && text_wf(false, none_name()),
        TagData::Byte(Some(e)) => starts_with_at(input, pos, enc_fstr(e)) && e.wf(),
        TagData::Enum(e) => starts_with_at(input, pos, enc_fstr(e)) && e.wf(),
        TagData::Struct { struct_type, id } => starts_with_at(input, pos, enc_fstr(struct_type))
            && struct_type.wf() && starts_with_at(input, pos + enc_fstr(struct_type).len(), enc_guid(id))
            && enc_tag_data(d).len() == enc_fstr(struct_type).len() + enc_guid(id).len(),
        TagData::Array(t) => starts_with_at(input, pos, enc_value_type(t)) && value_type_ok(t),
        TagData::SetOf(t) => starts_with_at(input, pos, enc_value_type(t)) && value_type_ok(t),
        TagData::MapOf { key_type, value_type } => starts_with_at(input, pos, enc_value_type(key_type))
            && value_type_ok(key_type) && starts_with_at(
            input,
            pos + enc_value_type(key_type).len(),
            enc_value_type(value_type),
        ) && value_type_ok(value_type) && enc_tag_data(d).len() == enc_value_type(key_type).len()
            + enc_value_type(value_type).len(),
        _ => enc_tag_data(d).len() == 0,
    }
}

proof fn lemma_tag_parts(input: Seq<u8>, pos: int, d: TagData)
    requires
        tag_read_ok(d),
        starts_with_at(input, pos, enc_tag_data(d)),
    ensures
        tag_parts(input, pos, d),
{
    match d {
        TagData::Byte(None) => {
            assert(enc_narrow(none_name()) == enc_text(false, none_name()));
        },
        TagData::Struct { struct_type, id } => {
            lemma_prefix_of_prefix(input, pos, enc_fstr(struct_type), enc_guid(id));
        },
        TagData::MapOf { key_type, value_type } => {
            lemma_prefix_of_prefix(input, pos, enc_value_type(key_type), enc_value_type(value_type));
        },
        _ => {},
    }
}

/// Appending to a list does not change the encoding of its first `n` elements.
pub proof fn lemma_enc_values_push(s: Seq<PropertyValue>, x: PropertyValue, n: nat)
    requires
        n <= s.len(),
    ensures
        enc_values(s.push(x), n) == enc_values(s, n),
    decreases n,
{
    if n > 0 {
        lemma_enc_values_push(s, x, (n - 1) as nat);
        assert(s.push(x)[n - 1] == s[n - 1]);
    }
}

pub proof fn lemma_enc_entries_push(s: Seq<MapEntry>, x: MapEntry, n: nat)
    requires
        n <= s.len(),
    ensures
        enc_entries(s.push(x), n) == enc_entries(s, n),
    decreases n,
{
    if n > 0 {
        lemma_enc_entries_push(s, x, (n - 1) as nat);
        assert(s.push(x)[n - 1] == s[n - 1]);
    }
}

pub proof fn lemma_enc_properties_push(
    s: Seq<(PropertyKey, Property)>,
    x: (PropertyKey, Property),
    n: nat,
)
    requires
        n <= s.len(),
    ensures
        enc_properties(s.push(x), n) == enc_properties(s, n),
    decreases n,
{
    if n > 0 {
        lemma_enc_properties_push(s, x, (n - 1) as nat);
        assert(s.push(x)[n - 1] == s[n - 1]);
    }
}

/// A shorter list's encoding begins the longer one's.
pub proof fn lemma_values_prefix(vs: Seq<PropertyValue>, m: nat, n: nat)
    requires
        m <= n <= vs.len(),
    ensures
        enc_values(vs, n).len() >= enc_values(vs, m).len(),
        enc_values(vs, n).subrange(0, enc_values(vs, m).len() as int) == enc_values(vs, m),
    decreases n,
{
    if m < n {
        lemma_values_prefix(vs, m, (n - 1) as nat);
        let a = enc_values(vs, (n - 1) as nat);
        assert(enc_values(vs, n) == a + enc_value(vs[n - 1]));
        assert((a + enc_value(vs[n - 1])).subrange(0, enc_values(vs, m).len() as int) =~= a.subrange(
            0,
            enc_values(vs, m).len() as int,
        ));
    } else {
        assert(enc_values(vs, n).subrange(0, enc_values(vs, n).len() as int) =~= enc_values(vs, n));
    }
}

pub proof fn lemma_entries_prefix(es: Seq<MapEntry>, m: nat, n: nat)
    requires
        m <= n <= es.len(),
    ensures
        enc_entries(es, n).len() >= enc_entries(es, m).len(),
        enc_entries(es, n).subrange(0, enc_entries(es, m).len() as int) == enc_entries(es, m),
    decreases n,
{
    if m < n {
        lemma_entries_prefix(es, m, (n - 1) as nat);
        let a = enc_entries(es, (n - 1) as nat);
        let b = enc_value(es[n - 1].key) + enc_value(es[n - 1].value);
        assert(enc_entries(es, n) =~= a + b);
        assert((a + b).subrange(0, enc_entries(es, m).len() as int) =~= a.subrange(
            0,
            enc_entries(es, m).len() as int,
        ));
    } else {
        assert(enc_entries(es, n).subrange(0, enc_entries(es, n).len() as int) =~= enc_entries(es, n));
    }
}

pub proof fn lemma_properties_prefix(ps: Seq<(PropertyKey, Property)>, m: nat, n: nat)
    requires
        m <= n <= ps.len(),
    ensures
        enc_properties(ps, n).len() >= enc_properties(ps, m).len(),
        enc_properties(ps, n).subrange(0, enc_properties(ps, m).len() as int) == enc_properties(
            ps,
            m,
        ),
    decreases n,
{
    if m < n {
        lemma_properties_prefix(ps, m, (n - 1) as nat);
        let a = enc_properties(ps, (n - 1) as nat);
        assert(enc_properties(ps, n) == a + enc_property(ps[n - 1].0, ps[n - 1].1));
        assert((a + enc_property(ps[n - 1].0, ps[n - 1].1)).subrange(
            0,
            enc_properties(ps, m).len() as int,
        ) =~= a.subrange(0, enc_properties(ps, m).len() as int));
    } else {
        assert(enc_properties(ps, n).subrange(0, enc_properties(ps, n).len() as int)
            =~= enc_properties(ps, n));
    }
}

/// Where the input begins with `w`, and `u` begins `w`, the input begins with `u`.
pub proof fn lemma_starts_with_prefix(input: Seq<u8>, pos: int, w: Seq<u8>, u: Seq<u8>)
    requires
        starts_with_at(input, pos, w),
        u.len() <= w.len(),
        w.subrange(0, u.len() as int) == u,
    ensures
        starts_with_at(input, pos, u),
{
    assert(input.subrange(pos, pos + u.len()) =~= w.subrange(0, u.len() as int));
}

/// Element `i` of a list follows the encoding of the elements before it.
pub proof fn lemma_values_step(input: Seq<u8>, pos: int, vs: Seq<PropertyValue>, i: nat)
    requires
        i < vs.len(),
        starts_with_at(input, pos, enc_values(vs, vs.len())),
    ensures
        starts_with_at(input, pos + enc_values(vs, i).len(), enc_value(vs[i as int])),
        enc_values(vs, i + 1).len() == enc_values(vs, i).len() + enc_value(vs[i as int]).len(),
{
    lemma_values_prefix(vs, i + 1, vs.len());
    lemma_starts_with_prefix(input, pos, enc_values(vs, vs.len()), enc_values(vs, i + 1));
    assert(enc_values(vs, i + 1) == enc_values(vs, i) + enc_value(vs[i as int]));
    lemma_prefix_of_prefix(input, pos, enc_values(vs, i), enc_value(vs[i as int]));
}

pub proof fn lemma_entries_step(input: Seq<u8>, pos: int, es: Seq<MapEntry>, i: nat)
    requires
        i < es.len(),
        starts_with_at(input, pos, enc_entries(es, es.len())),
    ensures
        starts_with_at(input, pos + enc_entries(es, i).len(), enc_value(es[i as int].key)),
        starts_with_at(
            input,
            pos + enc_entries(es, i).len() + enc_value(es[i as int].key).len(),
            enc_value(es[i as int].value),
        ),
        enc_entries(es, i + 1).len() == enc_entries(es, i).len() + enc_value(es[i as int].key).len()
            + enc_value(es[i as int].value).len(),
{
    lemma_entries_prefix(es, i + 1, es.len());
    lemma_starts_with_prefix(input, pos, enc_entries(es, es.len()), enc_entries(es, i + 1));
    let a = enc_entries(es, i);
    let k = enc_value(es[i as int].key);
    let v = enc_value(es[i as int].value);
    assert(enc_entries(es, i + 1) == a + k + v);
    lemma_prefix_of_prefix(input, pos, a + k, v);
    lemma_prefix_of_prefix(input, pos, a, k);
}

pub proof fn lemma_properties_step(
    input: Seq<u8>,
    pos: int,
    ps: Seq<(PropertyKey, Property)>,
    i: nat,
)
    requires
        i < ps.len(),
        starts_with_at(input, pos, enc_properties(ps, ps.len())),
    ensures
        starts_with_at(input, pos + enc_properties(ps, i).len(), enc_property(ps[i as int].0, ps[i as int].1)),
        enc_properties(ps, i + 1).len() == enc_properties(ps, i).len() + enc_property(
            ps[i as int].0,
            ps[i as int].1,
        ).len(),
{
    lemma_properties_prefix(ps, i + 1, ps.len());
    lemma_starts_with_prefix(input, pos, enc_properties(ps, ps.len()), enc_properties(ps, i + 1));
    assert(enc_properties(ps, i + 1) == enc_properties(ps, i) + enc_property(ps[i as int].0, ps[i as int].1));
    lemma_prefix_of_prefix(input, pos, enc_properties(ps, i), enc_property(ps[i as int].0, ps[i as int].1));
}

/// Every little-endian word is four bytes, and every double word eight.
pub proof fn lemma_word_lengths()
    ensures
        forall|x: u32| #[trigger] le32(x).len() == 4,
        forall|x: u64| #[trigger] le64(x).len() == 8,
{
    assert forall|x: u32| #[trigger] le32(x).len() == 4 by {
        lemma_le32_len(x);
    }
    assert forall|x: u64| #[trigger] le64(x).len() == 8 by {
        lemma_le64_len(x);
    }
}

/// What the encoding of an element at `pos` says about the input.
pub open spec fn value_facts(input: Seq<u8>, pos: int, t: ValueType, v: PropertyValue) -> bool {
    match v {
        PropertyValue::Bool(b) => starts_with_at(input, pos, enc_bool(b)) && enc_value(v).len() == 1,
        PropertyValue::Byte(_) => pos + 1 <= input.len() && enc_value(v).len() == 1,
        PropertyValue::Int(_) => pos + 4 <= input.len() && enc_value(v).len() == 4,
        PropertyValue::Int64(_) => pos + 8 <= input.len() && enc_value(v).len() == 8,
        PropertyValue::UInt32(_) => pos + 4 <= input.len() && enc_value(v).len() == 4,
        PropertyValue::Float(_) => pos + 4 <= input.len() && enc_value(v).len() == 4,
        PropertyValue::Double(_) => pos + 8 <= input.len() && enc_value(v).len() == 8,
        PropertyValue::Str(x) => starts_with_at(input, pos, enc_fstr(x)) && x.wf(),
        PropertyValue::Name(x) => starts_with_at(input, pos, enc_fstr(x)) && x.wf(),
        PropertyValue::Enum(x) => starts_with_at(input, pos, enc_fstr(x)) && x.wf(),
        PropertyValue::Struct(sv) => starts_with_at(input, pos, enc_struct(sv)) && (t matches ValueType::Struct { struct_type, .. } && struct_ok(struct_type, sv)),
    }
}

pub proof fn lemma_value_facts(input: Seq<u8>, pos: int, t: ValueType, v: PropertyValue)
    requires
        value_ok(t, v),
        starts_with_at(input, pos, enc_value(v)),
    ensures
        value_facts(input, pos, t, v),
{
    lemma_word_lengths();
}

/// What the encoding of a struct value at `pos` says about the input.
pub open spec fn struct_facts(input: Seq<u8>, pos: int, v: StructValue) -> bool {
    match v {
        StructValue::Vector { .. } => pos + 12 <= input.len() && enc_struct(v).len() == 12,
        StructValue::Guid(g) => starts_with_at(input, pos, enc_guid(g)),
        StructValue::DateTime(_) => pos + 8 <= input.len() && enc_struct(v).len() == 8,
        StructValue::Struct(p) => starts_with_at(input, pos, enc_bag(p.0@)) && bag_ok(p.0@),
    }
}

pub proof fn lemma_struct_facts(input: Seq<u8>, pos: int, st: FStr, v: StructValue)
    requires
        struct_ok(st, v),
        starts_with_at(input, pos, enc_struct(v)),
    ensures
        struct_facts(input, pos, v),
{
    lemma_word_lengths();
}

/// Reads a struct value laid out as its struct type name calls for.
pub fn decode_struct(input: &[u8], pos: usize, struct_type: &FStr) -> (r: Result<
    (StructValue, usize),
    CodecError,
>)
    requires
        pos <= input@.len(),
    ensures
        r matches Ok((v, end)) ==> pos <= end <= input@.len() && span(input@, pos as int, end as int)
            == enc_struct(v) && struct_ok(*struct_type, v),
        forall|v: StructValue|
            struct_ok(*struct_type, v) && #[trigger] starts_with_at(input@, pos as int, enc_struct(v))
                ==> (r matches Ok((_, end)) && end == pos + enc_struct(v).len()),
    decreases input@.len() - pos, 2nat,
{
    proof {
        lemma_word_lengths();
        assert forall|v: StructValue|
            struct_ok(*struct_type, v) && #[trigger] starts_with_at(input@, pos as int, enc_struct(v))
                implies struct_facts(input@, pos as int, v) && struct_shape(*struct_type) == match v {
                StructValue::Vector { .. } => StructShape::Vector,
                StructValue::Guid(_) => StructShape::Guid,
                StructValue::DateTime(_) => StructShape::DateTime,
                StructValue::Struct(_) => StructShape::Bag,
            } by {
            lemma_struct_facts(input@, pos as int, *struct_type, v);
        }
    }
    match shape_of(struct_type) {
        StructShape::Vector => {
            let x = match read_u32(input, pos) {
                Some(x) => x,
                None => {
                    return Err(end_of_input());
                },
            };
            let y = match read_u32(input, pos + 4) {
                Some(x) => x,
                None => {
                    return Err(end_of_input());
                },
            };
            let z = match read_u32(input, pos + 8) {
                Some(x) => x,
                None => {
                    return Err(end_of_input());
                },
            };
            let v = StructValue::Vector { x, y, z };
            assert(span(input@, pos as int, pos + 12) =~= enc_struct(v));
            Ok((v, pos + 12))
        },
        StructShape::Guid => {
            let (g, end) = match read_guid(input, pos) {
                Some(x) => x,
                None => {
                    return Err(end_of_input());
                },
            };
            Ok((StructValue::Guid(g), end))
        },
        StructShape::DateTime => {
            let t = match read_u64(input, pos) {
                Some(x) => x,
                None => {
                    return Err(end_of_input());
                },
            };
            Ok((StructValue::DateTime(t), pos + 8))
        },
        StructShape::Bag => {
            let (p, end) = decode_bag(input, pos)?;
            Ok((StructValue::Struct(Properties(p)), end))
        },
    }
}

fn invalid_value() -> (r: CodecError)
    ensures
        r.kind == ErrorKind::InvalidValue,
{
    CodecError::new(ErrorKind::InvalidValue)
}

/// Reads a truth value: one byte, 0 or 1.
fn read_bool(input: &[u8], pos: usize) -> (r: Result<bool, CodecError>)
    ensures
        input@.len() <= usize::MAX,
        r matches Ok(b) ==> pos + 1 <= input@.len() && span(input@, pos as int, pos + 1) == enc_bool(
            b,
        ),
        forall|b: bool| #[trigger] starts_with_at(input@, pos as int, enc_bool(b)) ==> r is Ok,
{
    proof {
        assert forall|b: bool| #[trigger] starts_with_at(input@, pos as int, enc_bool(b)) implies pos
            < input@.len() && input@[pos as int] == enc_bool(b)[0] by {
            assert(input@.subrange(pos as int, pos + 1)[0] == input@[pos as int]);
        }
    }
    match read_u8(input, pos) {
        Some(0u8) => {
            assert(span(input@, pos as int, pos + 1) =~= enc_bool(false));
            Ok(false)
        },
        Some(1u8) => {
            assert(span(input@, pos as int, pos + 1) =~= enc_bool(true));
            Ok(true)
        },
        Some(_) => Err(invalid_value()),
        None => Err(end_of_input()),
    }
}

/// Reads one element of a container whose tag names type `t`.
pub fn decode_value(input: &[u8], pos: usize, t: &ValueType) -> (r: Result<
    (PropertyValue, usize),
    CodecError,
>)
    requires
        pos <= input@.len(),
        value_type_ok(*t),
    ensures
        r matches Ok((v, end)) ==> pos <= end <= input@.len() && span(input@, pos as int, end as int)
            == enc_value(v) && value_ok(*t, v),
        forall|v: PropertyValue|
            value_ok(*t, v) && #[trigger] starts_with_at(input@, pos as int, enc_value(v)) ==> (
            r matches Ok((_, end)) && end == pos + enc_value(v).len()),
    decreases input@.len() - pos, 3nat,
{
    proof {
        lemma_word_lengths();
        assert forall|v: PropertyValue|
            value_ok(*t, v) && #[trigger] starts_with_at(input@, pos as int, enc_value(v)) implies value_facts(
            input@,
            pos as int,
            *t,
            v,
        ) by {
            lemma_value_facts(input@, pos as int, *t, v);
        }
    }
    match t {
        ValueType::Bool => {
            let b = read_bool(input, pos)?;
            Ok((PropertyValue::Bool(b), pos + 1))
        },
        ValueType::Byte => {
            let b = match read_u8(input, pos) {
                Some(b) => b,
                None => {
                    return Err(end_of_input());
                },
            };
            assert(span(input@, pos as int, pos + 1) =~= enc_value(PropertyValue::Byte(b)));
            Ok((PropertyValue::Byte(b), pos + 1))
        },
        ValueType::Int => {
            let x = match read_u32(input, pos) {
                Some(x) => x,
                None => {
                    return Err(end_of_input());
                },
            };
            proof {
                lemma_i32_bits(x);
            }
            Ok((PropertyValue::Int(#[verifier::truncate] (x as i32)), pos + 4))
        },
        ValueType::Int64 => {
            let x = match read_u64(input, pos) {
                Some(x) => x,
                None => {
                    return Err(end_of_input());
                },
            };
            proof {
                lemma_i64_bits(x);
            }
            Ok((PropertyValue::Int64(#[verifier::truncate] (x as i64)), pos + 8))
        },
        ValueType::UInt32 => {
            let x = match read_u32(input, pos) {
                Some(x) => x,
                None => {
                    return Err(end_of_input());
                },
            };
            Ok((PropertyValue::UInt32(x), pos + 4))
        },
        ValueType::Float => {
            let x = match read_u32(input, pos) {
                Some(x) => x,
                None => {
                    return Err(end_of_input());
                },
            };
            Ok((PropertyValue::Float(x), pos + 4))
        },
        ValueType::Double => {
            let x = match read_u64(input, pos) {
                Some(x) => x,
                None => {
                    return Err(end_of_input());
                },
            };
            Ok((PropertyValue::Double(x), pos + 8))
        },
        ValueType::Str => {
            let (s, end) = read_fstr(input, pos)?;
            Ok((PropertyValue::Str(s), end))
        },
        ValueType::Name => {
            let (s, end) = read_fstr(input, pos)?;
            Ok((PropertyValue::Name(s), end))
        },
        ValueType::Enum => {
            let (s, end) = read_fstr(input, pos)?;
            Ok((PropertyValue::Enum(s), end))
        },
        ValueType::Struct { struct_type, .. } => {
            let (sv, end) = decode_struct(input, pos, struct_type)?;
            Ok((PropertyValue::Struct(sv), end))
        },
    }
}

/// The input at `pos` holds the encoding of `count` elements of type `t`.
pub open spec fn values_at(input: Seq<u8>, pos: int, t: ValueType, count: nat, vs: Seq<PropertyValue>) -> bool {
    &&& vs.len() == count
    &&& forall|j: int| 0 <= j < vs.len() ==> value_ok(t, #[trigger] vs[j])
    &&& starts_with_at(input, pos, enc_values(vs, vs.len()))
}

/// Reads `count` elements of type `t`, one after another.
pub fn decode_values(input: &[u8], pos: usize, t: &ValueType, count: u32) -> (r: Result<
    (Vec<PropertyValue>, usize),
    CodecError,
>)
    requires
        pos <= input@.len(),
        value_type_ok(*t),
    ensures
        r matches Ok((vs, end)) ==> pos <= end <= input@.len() && span(
            input@,
            pos as int,
            end as int,
        ) == enc_values(vs@, vs@.len()) && vs@.len() == count && (forall|i: int|
            0 <= i < vs@.len() ==> value_ok(*t, #[trigger] vs@[i])),
        forall|vs: Seq<PropertyValue>|
            #[trigger] values_at(input@, pos as int, *t, count as nat, vs) ==> (r matches Ok((_, end))
                && end == pos + enc_values(vs, vs.len()).len()),
    decreases input@.len() - pos, 4nat,
{
    let mut vs: Vec<PropertyValue> = Vec::new();
    let mut cur = pos;
    let mut i: u32 = 0;
    assert(span(input@, pos as int, pos as int) =~= enc_values(vs@, 0));
    while i < count
        invariant
            pos <= cur <= input@.len(),
            i <= count,
            vs@.len() == i,
            value_type_ok(*t),
            span(input@, pos as int, cur as int) == enc_values(vs@, vs@.len()),
            forall|j: int| 0 <= j < vs@.len() ==> value_ok(*t, #[trigger] vs@[j]),
            forall|ws: Seq<PropertyValue>|
                #[trigger] values_at(input@, pos as int, *t, count as nat, ws) ==> cur == pos
                    + enc_values(ws, i as nat).len(),
        decreases count - i,
    {
        proof {
            assert forall|ws: Seq<PropertyValue>|
                #[trigger] values_at(input@, pos as int, *t, count as nat, ws) implies starts_with_at(
                input@,
                cur as int,
                enc_value(ws[i as int]),
            ) && value_ok(*t, ws[i as int]) && enc_values(ws, (i + 1) as nat).len() == enc_values(
                ws,
                i as nat,
            ).len() + enc_value(ws[i as int]).len() by {
                lemma_values_step(input@, pos as int, ws, i as nat);
            }
        }
        let (v, end) = decode_value(input, cur, t)?;
        proof {
            lemma_enc_values_push(vs@, v, vs@.len());
            lemma_span_join(input@, pos as int, cur as int, end as int);
        }
        vs.push(v);
        cur = end;
        i += 1;
    }
    Ok((vs, cur))
}

/// The input at `pos` holds the encoding of `count` map entries of the given types.
pub open spec fn entries_at(
    input: Seq<u8>,
    pos: int,
    k: ValueType,
    v: ValueType,
    count: nat,
    es: Seq<MapEntry>,
) -> bool {
    &&& es.len() == count
    &&& forall|j: int| 0 <= j < es.len() ==> value_ok(k, (#[trigger] es[j]).key) && value_ok(v, es[j].value)
    &&& starts_with_at(input, pos, enc_entries(es, es.len()))
}

/// Reads `count` map entries, each key before its value.
pub fn decode_entries(
    input: &[u8],
    pos: usize,
    k: &ValueType,
    v: &ValueType,
    count: u32,
) -> (r: Result<(Vec<MapEntry>, usize), CodecError>)
    requires
        pos <= input@.len(),
        value_type_ok(*k),
        value_type_ok(*v),
    ensures
        r matches Ok((es, end)) ==> pos <= end <= input@.len() && span(
            input@,
            pos as int,
            end as int,
        ) == enc_entries(es@, es@.len()) && es@.len() == count && (forall|i: int|
            0 <= i < es@.len() ==> value_ok(*k, (#[trigger] es@[i]).key) && value_ok(
                *v,
                es@[i].value,
            )),
        forall|xs: Seq<MapEntry>|
            #[trigger] entries_at(input@, pos as int, *k, *v, count as nat, xs) ==> (r matches Ok(
                (_, end),
            ) && end == pos + enc_entries(xs, xs.len()).len()),
    decreases input@.len() - pos, 4nat,
{
    let mut es: Vec<MapEntry> = Vec::new();
    let mut cur = pos;
    let mut i: u32 = 0;
    assert(span(input@, pos as int, pos as int) =~= enc_entries(es@, 0));
    while i < count
        invariant
            pos <= cur <= input@.len(),
            i <= count,
            es@.len() == i,
            value_type_ok(*k),
            value_type_ok(*v),
            span(input@, pos as int, cur as int) == enc_entries(es@, es@.len()),
            forall|j: int|
                0 <= j < es@.len() ==> value_ok(*k, (#[trigger] es@[j]).key) && value_ok(
                    *v,
                    es@[j].value,
                ),
            forall|xs: Seq<MapEntry>|
                #[trigger] entries_at(input@, pos as int, *k, *v, count as nat, xs) ==> cur == pos
                    + enc_entries(xs, i as nat).len(),
        decreases count - i,
    {
        proof {
            assert forall|xs: Seq<MapEntry>|
                #[trigger] entries_at(input@, pos as int, *k, *v, count as nat, xs) implies starts_with_at(
                input@,
                cur as int,
                enc_value(xs[i as int].key),
            ) && value_ok(*k, xs[i as int].key) && value_ok(*v, xs[i as int].value) && starts_with_at(
                input@,
                cur + enc_value(xs[i as int].key).len(),
                enc_value(xs[i as int].value),
            ) && enc_entries(xs, (i + 1) as nat).len() == enc_entries(xs, i as nat).len() + enc_value(
                xs[i as int].key,
            ).len() + enc_value(xs[i as int].value).len() by {
                lemma_entries_step(input@, pos as int, xs, i as nat);
            }
        }
        let (key, q1) = decode_value(input, cur, k)?;
        proof {
            assert forall|xs: Seq<MapEntry>|
                #[trigger] entries_at(input@, pos as int, *k, *v, count as nat, xs) implies q1 == cur
                + enc_value(xs[i as int].key).len() by {}
        }
        let (value, q2) = decode_value(input, q1, v)?;
        let e = MapEntry { key, value };
        proof {
            lemma_enc_entries_push(es@, e, es@.len());
            lemma_span_join(input@, pos as int, cur as int, q1 as int);
            lemma_span_join(input@, pos as int, q1 as int, q2 as int);
        }
        es.push(e);
        cur = q2;
        i += 1;
    }
    Ok((es, cur))
}

/// What the encoding of a payload at `pos` says about the input.
pub open spec fn inner_facts(input: Seq<u8>, pos: int, d: TagData, v: PropertyInner) -> bool {
    match v {
        PropertyInner::Bool(_) => enc_inner(v).len() == 0,
        PropertyInner::Byte(Byte::Value(_)) => pos + 1 <= input.len() && enc_inner(v).len() == 1,
        PropertyInner::Byte(Byte::Label(x)) => starts_with_at(input, pos, enc_fstr(x)) && x.wf(),
        PropertyInner::Int(_) => pos + 4 <= input.len() && enc_inner(v).len() == 4,
        PropertyInner::Int64(_) => pos + 8 <= input.len() && enc_inner(v).len() == 8,
        PropertyInner::UInt32(_) => pos + 4 <= input.len() && enc_inner(v).len() == 4,
        PropertyInner::Float(_) => pos + 4 <= input.len() && enc_inner(v).len() == 4,
        PropertyInner::Double(_) => pos + 8 <= input.len() && enc_inner(v).len() == 8,
        PropertyInner::Str(x) => starts_with_at(input, pos, enc_fstr(x)) && x.wf(),
        PropertyInner::Name(x) => starts_with_at(input, pos, enc_fstr(x)) && x.wf(),
        PropertyInner::Enum(x) => starts_with_at(input, pos, enc_fstr(x)) && x.wf(),
        PropertyInner::Struct(sv) => starts_with_at(input, pos, enc_struct(sv)) && (d matches TagData::Struct { struct_type, .. } && struct_ok(struct_type, sv)),
        PropertyInner::Array(vs) => (d matches TagData::Array(t) && values_at(input, pos + 4, t, vs@.len(), vs@))
            && starts_with_at(input, pos, le32(vs@.len() as u32)) && vs@.len() <= u32::MAX
            && enc_inner(v).len() == 4 + enc_values(vs@, vs@.len()).len(),
        PropertyInner::SetOf(vs) => (d matches TagData::SetOf(t) && values_at(input, pos + 4, t, vs@.len(), vs@))
            && starts_with_at(input, pos, le32(vs@.len() as u32)) && vs@.len() <= u32::MAX
            && enc_inner(v).len() == 4 + enc_values(vs@, vs@.len()).len(),
        PropertyInner::MapOf(es) => (d matches TagData::MapOf { key_type, value_type } && entries_at(input, pos + 4, key_type, value_type, es@.len(), es@))
            && starts_with_at(input, pos, le32(es@.len() as u32)) && es@.len() <= u32::MAX
            && enc_inner(v).len() == 4 + enc_entries(es@, es@.len()).len(),
    }
}

pub proof fn lemma_inner_facts(input: Seq<u8>, pos: int, d: TagData, v: PropertyInner)
    requires
        inner_ok(d, v),
        starts_with_at(input, pos, enc_inner(v)),
    ensures
        inner_facts(input, pos, d, v),
{
    lemma_word_lengths();
    match v {
        PropertyInner::Array(vs) => {
            lemma_prefix_of_prefix(input, pos, le32(vs@.len() as u32), enc_values(vs@, vs@.len()));
        },
        PropertyInner::SetOf(vs) => {
            lemma_prefix_of_prefix(input, pos, le32(vs@.len() as u32), enc_values(vs@, vs@.len()));
        },
        PropertyInner::MapOf(es) => {
            lemma_prefix_of_prefix(input, pos, le32(es@.len() as u32), enc_entries(es@, es@.len()));
        },
        _ => {},
    }
}

/// Reads the payload of a property whose tag data is `d`; a truth value,
/// which its tag carries, is `flag`.
#[verifier::rlimit(80)]
pub fn decode_inner(input: &[u8], pos: usize, d: &TagData, flag: bool) -> (r: Result<
    (PropertyInner, usize),
    CodecError,
>)
    requires
        pos <= input@.len(),
        tag_read_ok(*d),
    ensures
        r matches Ok((v, end)) ==> pos <= end <= input@.len() && span(input@, pos as int, end as int)
            == enc_inner(v) && inner_ok(*d, v),
        r matches Ok((v, _)) ==> (v is Bool ==> v == PropertyInner::Bool(flag)),
        forall|v: PropertyInner|
            inner_ok(*d, v) && #[trigger] starts_with_at(input@, pos as int, enc_inner(v)) ==> (
            r matches Ok((_, end)) && end == pos + enc_inner(v).len()),
    decreases input@.len() - pos, 3nat,
{
    proof {
        lemma_word_lengths();
        assert forall|v: PropertyInner|
            inner_ok(*d, v) && #[trigger] starts_with_at(input@, pos as int, enc_inner(v)) implies inner_facts(
            input@,
            pos as int,
            *d,
            v,
        ) by {
            lemma_inner_facts(input@, pos as int, *d, v);
        }
    }
    match d {
        TagData::Bool => {
            assert(span(input@, pos as int, pos as int) =~= enc_inner(PropertyInner::Bool(flag)));
            Ok((PropertyInner::Bool(flag), pos))
        },
        TagData::Byte(None) => {
            let b = match read_u8(input, pos) {
                Some(b) => b,
                None => {
                    return Err(end_of_input());
                },
            };
            let v = PropertyInner::Byte(Byte::Value(b));
            assert(span(input@, pos as int, pos + 1) =~= enc_inner(v));
            Ok((v, pos + 1))
        },
        TagData::Byte(Some(_)) => {
            let (s, end) = read_fstr(input, pos)?;
            Ok((PropertyInner::Byte(Byte::Label(s)), end))
        },
        TagData::Int => {
            let x = match read_u32(input, pos) {
                Some(x) => x,
                None => {
                    return Err(end_of_input());
                },
            };
            proof {
                lemma_i32_bits(x);
            }
            Ok((PropertyInner::Int(#[verifier::truncate] (x as i32)), pos + 4))
        },
        TagData::Int64 => {
            let x = match read_u64(input, pos) {
                Some(x) => x,
                None => {
                    return Err(end_of_input());
                },
            };
            proof {
                lemma_i64_bits(x);
            }
            Ok((PropertyInner::Int64(#[verifier::truncate] (x as i64)), pos + 8))
        },
        TagData::UInt32 => {
            let x = match read_u32(input, pos) {
                Some(x) => x,
                None => {
                    return Err(end_of_input());
                },
            };
            Ok((PropertyInner::UInt32(x), pos + 4))
        },
        TagData::Float => {
            let x = match read_u32(input, pos) {
                Some(x) => x,
                None => {
                    return Err(end_of_input());
                },
            };
            Ok((PropertyInner::Float(x), pos + 4))
        },
        TagData::Double => {
            let x = match read_u64(input, pos) {
                Some(x) => x,
                None => {
                    return Err(end_of_input());
                },
            };
            Ok((PropertyInner::Double(x), pos + 8))
        },
        TagData::Str => {
            let (s, end) = read_fstr(input, pos)?;
            Ok((PropertyInner::Str(s), end))
        },
        TagData::Name => {
            let (s, end) = read_fstr(input, pos)?;
            Ok((PropertyInner::Name(s), end))
        },
        TagData::Enum(_) => {
            let (s, end) = read_fstr(input, pos)?;
            Ok((PropertyInner::Enum(s), end))
        },
        TagData::Struct { struct_type, .. } => {
            let (sv, end) = decode_struct(input, pos, struct_type)?;
            Ok((PropertyInner::Struct(sv), end))
        },
        TagData::Array(t) | TagData::SetOf(t) => {
            let count = match read_u32(input, pos) {
                Some(c) => c,
                None => {
                    return Err(end_of_input());
                },
            };
            proof {
                lemma_le32_len(count);
                assert forall|v: PropertyInner|
                    inner_ok(*d, v) && #[trigger] starts_with_at(input@, pos as int, enc_inner(v)) implies (v matches PropertyInner::Array(vs) ==> values_at(input@, pos + 4, *t, count as nat, vs@)) && (v matches PropertyInner::SetOf(vs) ==> values_at(input@, pos + 4, *t, count as nat, vs@)) by {
                    match v {
                        PropertyInner::Array(vs) => {
                            lemma_le32_injective(count, vs@.len() as u32);
                        },
                        PropertyInner::SetOf(vs) => {
                            lemma_le32_injective(count, vs@.len() as u32);
                        },
                        _ => {},
                    }
                }
            }
            let (vs, end) = decode_values(input, pos + 4, t, count)?;
            proof {
                lemma_span_join(input@, pos as int, pos + 4, end as int);
            }
            if matches!(d, TagData::Array(_)) {
                Ok((PropertyInner::Array(vs), end))
            } else {
                Ok((PropertyInner::SetOf(vs), end))
            }
        },
        TagData::MapOf { key_type, value_type } => {
            let count = match read_u32(input, pos) {
                Some(c) => c,
                None => {
                    return Err(end_of_input());
                },
            };
            proof {
                lemma_le32_len(count);
                assert forall|v: PropertyInner|
                    inner_ok(*d, v) && #[trigger] starts_with_at(input@, pos as int, enc_inner(v)) implies (v matches PropertyInner::MapOf(es) ==> entries_at(input@, pos + 4, *key_type, *value_type, count as nat, es@)) by {
                    match v {
                        PropertyInner::MapOf(es) => {
                            lemma_le32_injective(count, es@.len() as u32);
                        },
                        _ => {},
                    }
                }
            }
            let (es, end) = decode_entries(input, pos + 4, key_type, value_type, count)?;
            proof {
                lemma_span_join(input@, pos as int, pos + 4, end as int);
            }
            Ok((PropertyInner::MapOf(es), end))
        },
    }
}

/// The input at `pos` holds a property named `name` whose type name `t` is not
/// one that the format knows.
pub open spec fn unknown_type_at(input: Seq<u8>, pos: int, name: FStr, t: FStr) -> bool {
    &&& name.wf()
    &&& !is_none(name)
    &&& t.wf()
    &&& !(!t.wide && is_known_type_name(t.body@))
    &&& starts_with_at(input, pos, enc_fstr(name) + enc_fstr(t))
}

/// Where the input begins with `a + b`, it begins with `a`, and `b` follows.
pub proof fn lemma_prefix_of_prefix(input: Seq<u8>, pos: int, a: Seq<u8>, b: Seq<u8>)
    requires
        starts_with_at(input, pos, a + b),
    ensures
        starts_with_at(input, pos, a),
        starts_with_at(input, pos + a.len(), b),
{
    let w = input.subrange(pos, pos + (a + b).len());
    assert(w == a + b);
    assert(input.subrange(pos, pos + a.len()) =~= w.subrange(0, a.len() as int));
    assert(w.subrange(0, a.len() as int) =~= a);
    assert(input.subrange(pos + a.len(), pos + a.len() + b.len()) =~= w.subrange(
        a.len() as int,
        w.len() as int,
    ));
    assert(w.subrange(a.len() as int, w.len() as int) =~= b);
}

/// The kind whose name a tag is written under.
pub open spec fn tag_kind(d: TagData) -> TypeKind {
    match d {
        TagData::Bool => TypeKind::Bool,
        TagData::Byte(_) => TypeKind::Byte,
        TagData::Int => TypeKind::Int,
        TagData::Int64 => TypeKind::Int64,
        TagData::UInt32 => TypeKind::UInt32,
        TagData::Float => TypeKind::Float,
        TagData::Double => TypeKind::Double,
        TagData::Str => TypeKind::Str,
        TagData::Name => TypeKind::Name,
        TagData::Enum(_) => TypeKind::Enum,
        TagData::Struct { .. } => TypeKind::Struct,
        TagData::Array(_) => TypeKind::Array,
        TagData::SetOf(_) => TypeKind::SetOf,
        TagData::MapOf { .. } => TypeKind::MapOf,
    }
}

/// The input at `pos` holds the encoding of a property that can be written.
pub open spec fn property_at(input: Seq<u8>, pos: int, k: PropertyKey, p: Property) -> bool {
    property_ok(k, p) && starts_with_at(input, pos, enc_property(k, p))
}

/// Where each part of a property's encoding starts, and what is there.
pub open spec fn property_facts(input: Seq<u8>, pos: int, k: PropertyKey, p: Property) -> bool {
    let d = p.tag.data;
    let g = enc_inner(p.inner);
    let q1 = pos + enc_fstr(k.1).len();
    let q2 = q1 + enc_narrow(tag_type_name(d)).len();
    let q4 = q2 + 8;
    let qf = q4 + enc_tag_data(d).len();
    let q5 = qf + enc_flag(p.inner).len();
    let q6 = q5 + enc_property_id(p.tag.id).len();
    &&& starts_with_at(input, pos, enc_fstr(k.1))
    &&& k.1.wf()
    &&& !is_none(k.1)
    &&& starts_with_at(input, q1, enc_text(false, tag_type_name(d)))
    &&& text_wf(false, tag_type_name(d))
    &&& kind_name(tag_kind(d)) == tag_type_name(d)
    &&& starts_with_at(input, q2, le32(g.len() as u32))
    &&& g.len() <= u32::MAX
    &&& q2 + 8 <= input.len()
    &&& starts_with_at(input, q4, enc_tag_data(d))
    &&& tag_read_ok(d)
    &&& starts_with_at(input, qf, enc_flag(p.inner))
    &&& (d is Bool <==> p.inner is Bool)
    &&& enc_flag(p.inner).len() == if d is Bool { 1int } else { 0int }
    &&& starts_with_at(input, q5, enc_property_id(p.tag.id))
    &&& starts_with_at(input, q6, g)
    &&& enc_property(k, p).len() == q6 + g.len() - pos
}

pub proof fn lemma_property_facts(input: Seq<u8>, pos: int, k: PropertyKey, p: Property)
    requires
        property_at(input, pos, k, p),
    ensures
        property_facts(input, pos, k, p),
{
    lemma_word_lengths();
    let d = p.tag.data;
    let g = enc_inner(p.inner);
    let a = enc_fstr(k.1);
    let b = enc_narrow(tag_type_name(d));
    let c = le32(g.len() as u32);
    let e4 = le32(k.0);
    let e = enc_tag_data(d);
    let h = enc_flag(p.inner);
    let f = enc_property_id(p.tag.id);
    assert(enc_property(k, p) == a + b + c + e4 + e + h + f + g);
    lemma_prefix_of_prefix(input, pos, a + b + c + e4 + e + h + f, g);
    lemma_prefix_of_prefix(input, pos, a + b + c + e4 + e + h, f);
    lemma_prefix_of_prefix(input, pos, a + b + c + e4 + e, h);
    lemma_prefix_of_prefix(input, pos, a + b + c + e4, e);
    lemma_prefix_of_prefix(input, pos, a + b + c, e4);
    lemma_prefix_of_prefix(input, pos, a + b, c);
    lemma_prefix_of_prefix(input, pos, a, b);
    assert(b == enc_text(false, tag_type_name(d)));
    assert(tag_read_ok(d));
}

/// Equal encodings mean equal values.
pub proof fn lemma_le64_injective(x: u64, y: u64)
    requires
        le64(x) == le64(y),
    ensures
        x == y,
{
    vstd::bytes::lemma_auto_spec_u64_to_from_le_bytes();
    assert(vstd::bytes::spec_u64_to_le_bytes(x).len() == 8);
    assert(vstd::bytes::spec_u64_to_le_bytes(y).len() == 8);
}

/// The spans of a property's parts join into the property's encoding.
proof fn lemma_property_span(
    input: Seq<u8>,
    pos: int,
    q1: int,
    q2: int,
    q6: int,
    q7: int,
    k: PropertyKey,
    p: Property,
)
    requires
        0 <= pos <= q1 <= q2,
        q2 + 8 <= q6 <= q7 <= input.len(),
        span(input, pos, q1) == enc_fstr(k.1),
        span(input, q1, q2) == enc_narrow(tag_type_name(p.tag.data)),
        span(input, q2, q2 + 4) == le32(enc_inner(p.inner).len() as u32),
        span(input, q2 + 4, q2 + 8) == le32(k.0),
        span(input, q2 + 8, q6) == enc_tag_data(p.tag.data) + enc_flag(p.inner) + enc_property_id(
            p.tag.id,
        ),
        span(input, q6, q7) == enc_inner(p.inner),
    ensures
        span(input, pos, q7) == enc_property(k, p),
{
    assert(span(input, pos, q7) =~= span(input, pos, q1) + span(input, q1, q2) + span(
        input,
        q2,
        q2 + 4,
    ) + span(input, q2 + 4, q2 + 8) + span(input, q2 + 8, q6) + span(input, q6, q7));
}

/// Reads one property, or the `None` that closes a bag. Errors met after the
/// name name the property.
#[verifier::rlimit(100)]
#[verifier::spinoff_prover]
pub fn decode_property(input: &[u8], pos: usize) -> (r: Result<
    (Option<(PropertyKey, Property)>, usize),
    CodecError,
>)
    requires
        pos <= input@.len(),
    ensures
        r matches Ok((Some(e), end)) ==> pos < end <= input@.len() && span(
            input@,
            pos as int,
            end as int,
        ) == enc_property(e.0, e.1) && property_ok(e.0, e.1),
        r matches Ok((None, end)) ==> pos < end <= input@.len() && span(
            input@,
            pos as int,
            end as int,
        ) == enc_narrow(none_name()),
        forall|name: FStr, t: FStr|
            #[trigger] unknown_type_at(input@, pos as int, name, t) ==> (r matches Err(e) && e.kind
                == ErrorKind::UnknownPropertyType && e.path@.len() == 1 && e.path@[0].same(&name)),
        forall|k: PropertyKey, p: Property|
            #[trigger] property_at(input@, pos as int, k, p) ==> (r matches Ok((Some(_), end)) && end
                == pos + enc_property(k, p).len()),
        starts_with_at(input@, pos as int, enc_narrow(none_name())) ==> (r matches Ok((None, end))
            && end == pos + enc_narrow(none_name()).len()),
    decreases input@.len() - pos, 0nat,
{
    proof {
        lemma_word_lengths();
        assert forall|k: PropertyKey, p: Property| #[trigger] property_at(input@, pos as int, k, p) implies property_facts(
            input@,
            pos as int,
            k,
            p,
        ) by {
            lemma_property_facts(input@, pos as int, k, p);
        }
        assert(enc_narrow(none_name()) == enc_text(false, none_name()));
    }
    let (name, q1) = match read_fstr(input, pos) {
        Ok(x) => x,
        Err(e) => {
            proof {
                assert forall|name2: FStr, t: FStr| #[trigger]
                    unknown_type_at(input@, pos as int, name2, t) implies false by {
                    lemma_prefix_of_prefix(input@, pos as int, enc_fstr(name2), enc_fstr(t));
                }
            }
            return Err(e);
        },
    };
    proof {
        assert forall|name2: FStr, t: FStr| #[trigger]
            unknown_type_at(input@, pos as int, name2, t) implies name.same(&name2) && q1 == pos
            + enc_fstr(name2).len() && starts_with_at(input@, q1 as int, enc_fstr(t)) by {
            lemma_prefix_of_prefix(input@, pos as int, enc_fstr(name2), enc_fstr(t));
        }
    }
    if check_none(&name) {
        return Ok((None, q1));
    }
    proof {
        assert(!(starts_with_at(input@, pos as int, enc_narrow(none_name()))));
    }
    proof {
        assert forall|k: PropertyKey, p: Property| #[trigger] property_at(input@, pos as int, k, p) implies k.1.same(
            &name,
        ) by {}
    }
    match decode_property_rest(input, pos, q1, name) {
        Ok((e, end)) => Ok((Some(e), end)),
        Err(e) => Err(e),
    }
}

/// Reads the end of a property: the marker of its identifier (and the
/// identifier), then its payload, laid out as its tag data `d` calls for.
fn decode_property_tail(input: &[u8], pos: usize, d: &TagData, flag: bool) -> (r: Result<
    (Option<Guid>, PropertyInner, usize, usize),
    CodecError,
>)
    requires
        pos <= input@.len(),
        tag_read_ok(*d),
    ensures
        r matches Ok((id, v, q6, q7)) ==> pos < q6 <= q7 <= input@.len() && span(
            input@,
            pos as int,
            q6 as int,
        ) == enc_property_id(id) && span(input@, q6 as int, q7 as int) == enc_inner(v) && inner_ok(
            *d,
            v,
        ) && (v is Bool ==> v == PropertyInner::Bool(flag)),
        forall|id: Option<Guid>, v: PropertyInner|
            inner_ok(*d, v) && #[trigger] starts_with_at(
                input@,
                pos as int,
                enc_property_id(id) + enc_inner(v),
            ) ==> (r matches Ok((_, _, q6, q7)) && q6 == pos + enc_property_id(id).len() && q7 == q6
                + enc_inner(v).len()),
    decreases input@.len() - pos, 4nat,
{
    proof {
        assert forall|id: Option<Guid>, v: PropertyInner|
            inner_ok(*d, v) && #[trigger] starts_with_at(
                input@,
                pos as int,
                enc_property_id(id) + enc_inner(v),
            ) implies pos < input@.len() && input@[pos as int] == enc_property_id(id)[0] && (id matches Some(
            gid,
        ) ==> starts_with_at(input@, pos + 1, enc_guid(gid))) && starts_with_at(
            input@,
            pos + enc_property_id(id).len(),
            enc_inner(v),
        ) by {
            let f = enc_property_id(id);
            lemma_prefix_of_prefix(input@, pos as int, f, enc_inner(v));
            assert(input@.subrange(pos as int, pos + f.len())[0] == input@[pos as int]);
            match id {
                Some(gid) => {
                    lemma_prefix_of_prefix(input@, pos as int, seq![1u8], enc_guid(gid));
                },
                None => {},
            }
        }
    }
    let (id, q6) = match read_u8(input, pos) {
        Some(0u8) => (None, pos + 1),
        Some(1u8) => match read_guid(input, pos + 1) {
            Some((g, end)) => (Some(g), end),
            None => {
                return Err(end_of_input());
            },
        },
        Some(_) => {
            return Err(invalid_value());
        },
        None => {
            return Err(end_of_input());
        },
    };
    assert(span(input@, pos as int, q6 as int) =~= enc_property_id(id));
    proof {
        assert forall|id2: Option<Guid>, v: PropertyInner|
            inner_ok(*d, v) && #[trigger] starts_with_at(
                input@,
                pos as int,
                enc_property_id(id2) + enc_inner(v),
            ) implies q6 == pos + enc_property_id(id2).len() by {}
    }
    let (inner, q7) = decode_inner(input, q6, d, flag)?;
    Ok((id, inner, q6, q7))
}

/// Where the input begins with `a` and `b` follows, it begins with `a + b`.
pub proof fn lemma_starts_with_concat(input: Seq<u8>, pos: int, a: Seq<u8>, b: Seq<u8>)
    requires
        starts_with_at(input, pos, a),
        starts_with_at(input, pos + a.len(), b),
    ensures
        starts_with_at(input, pos, a + b),
{
    assert(input.subrange(pos, pos + (a + b).len()) =~= input.subrange(pos, pos + a.len())
        + input.subrange(pos + a.len(), pos + a.len() + b.len()));
}

/// Reads the rest of a property whose name, read at `pos`, is `name`, up to `q1`.
#[verifier::rlimit(100)]
#[verifier::spinoff_prover]
fn decode_property_rest(input: &[u8], pos: usize, q1: usize, name: FStr) -> (r: Result<
    ((PropertyKey, Property), usize),
    CodecError,
>)
    requires
        pos < q1 <= input@.len(),
        span(input@, pos as int, q1 as int) == enc_fstr(name),
        name.wf(),
        !is_none(name),
    ensures
        r matches Ok((e, end)) ==> q1 < end <= input@.len() && span(input@, pos as int, end as int)
            == enc_property(e.0, e.1) && property_ok(e.0, e.1),
        forall|t: FStr|
            t.wf() && !(!t.wide && is_known_type_name(t.body@)) && #[trigger] starts_with_at(
                input@,
                q1 as int,
                enc_fstr(t),
            ) ==> (r matches Err(e) && e.kind == ErrorKind::UnknownPropertyType && e.path@.len() == 1
                && e.path@[0].same(&name)),
        forall|k: PropertyKey, p: Property|
            #[trigger] property_at(input@, pos as int, k, p) && k.1.same(&name) ==> (r matches Ok(
                (_, end),
            ) && end == pos + enc_property(k, p).len()),
    decreases input@.len() - q1, 5nat,
{
    proof {
        lemma_word_lengths();
        assert forall|k: PropertyKey, p: Property| #[trigger] property_at(input@, pos as int, k, p) implies property_facts(
            input@,
            pos as int,
            k,
            p,
        ) by {
            lemma_property_facts(input@, pos as int, k, p);
        }
    }
    let (type_str, q2) = match read_fstr(input, q1) {
        Ok(x) => x,
        Err(e) => {
            return Err(e.within(&name));
        },
    };
    let kind = match type_kind(&type_str) {
        Some(k) => k,
        None => {
            return Err(CodecError::new(ErrorKind::UnknownPropertyType).within(&name));
        },
    };
    let size = match read_u32(input, q2) {
        Some(x) => x,
        None => {
            return Err(end_of_input().within(&name));
        },
    };
    proof {
        assert forall|k: PropertyKey, p: Property| #[trigger] property_at(input@, pos as int, k, p) && k.1.same(&name) implies size
            == enc_inner(p.inner).len() as u32 && kind == tag_kind(p.tag.data) && q2 == pos + enc_fstr(k.1).len() + enc_narrow(tag_type_name(p.tag.data)).len() by {
            lemma_le32_injective(size, enc_inner(p.inner).len() as u32);
        }
    }
    let q3 = q2 + 4;
    let index = match read_u32(input, q3) {
        Some(x) => x,
        None => {
            return Err(end_of_input().within(&name));
        },
    };
    let q4 = q3 + 4;
    let (data, qd) = match read_tag_data(input, q4, kind) {
        Ok(x) => x,
        Err(e) => {
            return Err(e.within(&name));
        },
    };
    proof {
        assert forall|k: PropertyKey, p: Property| #[trigger] property_at(input@, pos as int, k, p) && k.1.same(&name) implies qd
            == q4 + enc_tag_data(p.tag.data).len() && starts_with_at(input@, qd as int, enc_flag(p.inner)) && (p.tag.data is Bool <==> p.inner is Bool) && (data is Bool <==> p.tag.data is Bool) by {}
    }
    let (flag, q5) = if matches!(kind, TypeKind::Bool) {
        match read_bool(input, qd) {
            Ok(b) => (b, qd + 1),
            Err(e) => {
                return Err(e.within(&name));
            },
        }
    } else {
        (false, qd)
    };
    assert(span(input@, qd as int, q5 as int) =~= if data is Bool { enc_bool(flag) } else { Seq::<u8>::empty() });
    proof {
        assert forall|k: PropertyKey, p: Property| #[trigger] property_at(input@, pos as int, k, p) && k.1.same(&name) implies q5
            == qd + enc_flag(p.inner).len() && starts_with_at(input@, q5 as int, enc_property_id(p.tag.id)) by {
            lemma_property_facts(input@, pos as int, k, p);
        }
    }
    proof {
        assert forall|k: PropertyKey, p: Property| #[trigger] property_at(input@, pos as int, k, p) && k.1.same(&name) implies tag_same(
            data,
            p.tag.data,
        ) && q5 == qd + enc_flag(p.inner).len() && inner_ok(data, p.inner) && starts_with_at(
            input@,
            q5 as int,
            enc_property_id(p.tag.id) + enc_inner(p.inner),
        ) by {
            lemma_tag_same(data, p.tag.data, p.inner);
            lemma_starts_with_concat(input@, q5 as int, enc_property_id(p.tag.id), enc_inner(p.inner));
        }
    }
    let (id, inner, q6, q7) = match decode_property_tail(input, q5, &data, flag) {
        Ok(x) => x,
        Err(e) => {
            return Err(e.within(&name));
        },
    };
    if (q7 - q6) as u64 != size as u64 {
        return Err(CodecError::new(ErrorKind::MalformedLength).within(&name));
    }
    let key = PropertyKey(index, name);
    let prop = Property { tag: PropertyTag { id, data }, inner };
    proof {
        lemma_le32_len(size);
        assert(enc_fstr(type_str) == enc_narrow(tag_type_name(data)));
        assert(enc_inner(inner).len() == q7 - q6);
        assert(span(input@, qd as int, q5 as int) == enc_flag(inner));
        assert(span(input@, q4 as int, q6 as int) =~= span(input@, q4 as int, qd as int) + span(
            input@,
            qd as int,
            q5 as int,
        ) + span(input@, q5 as int, q6 as int));
        lemma_property_span(input@, pos as int, q1 as int, q2 as int, q6 as int, q7 as int, key, prop);
    }
    Ok(((key, prop), q7))
}

/// The input at `pos` holds the properties `s`, which can be written, and
/// then a property named `name` whose type name `t` the format does not know.
pub open spec fn unknown_after(
    input: Seq<u8>,
    pos: int,
    s: Seq<(PropertyKey, Property)>,
    name: FStr,
    t: FStr,
) -> bool {
    &&& bag_ok(s)
    &&& starts_with_at(input, pos, enc_properties(s, s.len()))
    &&& unknown_type_at(input, pos + enc_properties(s, s.len()).len(), name, t)
}

/// Reads a bag: properties up to and including the closing `None`. It reads
/// every bag that can be written, and stops at the first property of an
/// unknown type, naming it.
pub fn decode_bag(input: &[u8], pos: usize) -> (r: Result<
    (Vec<(PropertyKey, Property)>, usize),
    CodecError,
>)
    requires
        pos <= input@.len(),
    ensures
        r matches Ok((ps, end)) ==> pos < end <= input@.len() && span(input@, pos as int, end as int)
            == enc_bag(ps@) && bag_ok(ps@),
        forall|s: Seq<(PropertyKey, Property)>|
            bag_ok(s) && #[trigger] starts_with_at(input@, pos as int, enc_bag(s)) ==> (r matches Ok(
                (_, end),
            ) && end == pos + enc_bag(s).len()),
        forall|s: Seq<(PropertyKey, Property)>, name: FStr, t: FStr|
            #[trigger] unknown_after(input@, pos as int, s, name, t) ==> (r matches Err(e) && e.kind
                == ErrorKind::UnknownPropertyType && e.path@.len() == 1 && e.path@[0].same(&name)),
    decreases input@.len() - pos, 1nat,
{
    let mut ps: Vec<(PropertyKey, Property)> = Vec::new();
    let mut cur = pos;
    assert(span(input@, pos as int, pos as int) =~= enc_properties(ps@, 0));
    proof {
        assert forall|s: Seq<(PropertyKey, Property)>|
            bag_ok(s) && #[trigger] starts_with_at(input@, pos as int, enc_bag(s)) implies starts_with_at(
            input@,
            pos as int,
            enc_properties(s, s.len()),
        ) && starts_with_at(
            input@,
            pos + enc_properties(s, s.len()).len(),
            enc_narrow(none_name()),
        ) by {
            lemma_prefix_of_prefix(input@, pos as int, enc_properties(s, s.len()), enc_narrow(none_name()));
        }
    }
    loop
        invariant
            pos <= cur <= input@.len(),
            span(input@, pos as int, cur as int) == enc_properties(ps@, ps@.len()),
            bag_ok(ps@),
            forall|s: Seq<(PropertyKey, Property)>|
                bag_ok(s) && #[trigger] starts_with_at(input@, pos as int, enc_bag(s)) ==> ps@.len()
                    <= s.len() && cur == pos + enc_properties(s, ps@.len()).len()
                    && starts_with_at(input@, pos as int, enc_properties(s, s.len()))
                    && starts_with_at(input@, pos + enc_properties(s, s.len()).len(), enc_narrow(none_name())),
            forall|s: Seq<(PropertyKey, Property)>, name: FStr, t: FStr|
                #[trigger] unknown_after(input@, pos as int, s, name, t) ==> ps@.len() <= s.len() && cur
                    == pos + enc_properties(s, ps@.len()).len(),
        decreases input@.len() - cur,
    {
        proof {
            assert forall|s: Seq<(PropertyKey, Property)>, name: FStr, t: FStr|
                #[trigger] unknown_after(input@, pos as int, s, name, t) implies (ps@.len() < s.len()
                    ==> property_at(input@, cur as int, s[ps@.len() as int].0, s[ps@.len() as int].1)
                    && enc_properties(s, (ps@.len() + 1) as nat).len() == enc_properties(s, ps@.len()).len()
                    + enc_property(s[ps@.len() as int].0, s[ps@.len() as int].1).len()) && (ps@.len() == s.len()
                    ==> unknown_type_at(input@, cur as int, name, t)) by {
                if ps@.len() < s.len() {
                    lemma_properties_step(input@, pos as int, s, ps@.len());
                }
            }
        }
        proof {
            assert forall|s: Seq<(PropertyKey, Property)>|
                bag_ok(s) && #[trigger] starts_with_at(input@, pos as int, enc_bag(s)) implies (ps@.len() < s.len()
                    ==> property_at(input@, cur as int, s[ps@.len() as int].0, s[ps@.len() as int].1)
                    && enc_properties(s, (ps@.len() + 1) as nat).len() == enc_properties(s, ps@.len()).len()
                    + enc_property(s[ps@.len() as int].0, s[ps@.len() as int].1).len()) && (ps@.len() == s.len()
                    ==> starts_with_at(input@, cur as int, enc_narrow(none_name()))) by {
                if ps@.len() < s.len() {
                    lemma_properties_step(input@, pos as int, s, ps@.len());
                }
            }
        }
        match decode_property(input, cur)? {
            (None, end) => {
                proof {
                    lemma_span_join(input@, pos as int, cur as int, end as int);
                }
                return Ok((ps, end));
            },
            (Some(e), end) => {
                proof {
                    lemma_enc_properties_push(ps@, e, ps@.len());
                    lemma_span_join(input@, pos as int, cur as int, end as int);
                }
                ps.push(e);
                cur = end;
            },
        }
    }
}

} // verus!
