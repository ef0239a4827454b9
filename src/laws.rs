//! Laws of the codec and of the bag that relate several operations.

use crate::bag::{has_key, is_first_key};
use crate::encoding::{
    enc_flag,
    enc_inner, enc_save, enc_tag_data, enc_value_type, inner_ok, value_type_ok,
};
use crate::model::{Property, PropertyInner, PropertyKey, Save, TagData, ValueType};
use crate::wire::{le32, le64, lemma_le32_injective, lemma_le32_len};
use vstd::bytes::lemma_auto_spec_u64_to_from_le_bytes;
use vstd::prelude::*;

verus! {

/// Writing has no hidden state: two writes of the same save give the same bytes.
pub proof fn law_encode_twice_same_bytes(s: Save, first: Seq<u8>, second: Seq<u8>)
    requires
        first == enc_save(s),
        second == enc_save(s),
    ensures
        first == second,
{
}

/// Inserting a new key and then removing an earlier entry leaves every other
/// original entry in its relative order, with the new entry last.
pub proof fn law_insert_then_remove_keeps_order(
    s: Seq<(PropertyKey, Property)>,
    k: PropertyKey,
    p: Property,
    m: int,
)
    requires
        !has_key(s, k),
        is_first_key(s, s[m].0, m),
    ensures
        is_first_key(s.push((k, p)), s[m].0, m),
        s.push((k, p)).remove(m).len() == s.len(),
        s.push((k, p)).remove(m).last() == (k, p),
        forall|a: int|
            0 <= a < s.len() && a != m ==> s.push((k, p)).remove(m)[if a < m {
                a
            } else {
                a - 1
            }] == s[a],
{
    let t = s.push((k, p));
    assert(forall|j: int| 0 <= j < m ==> t[j] == s[j]);
    assert(t[m] == s[m]);
}

/// A truth value takes exactly one byte, which its tag carries as the engine
/// lays it out; its payload is empty, and the two values differ.
pub proof fn law_bool_value_is_one_byte(b: bool)
    ensures
        enc_flag(PropertyInner::Bool(b)).len() == 1,
        enc_inner(PropertyInner::Bool(b)).len() == 0,
        enc_flag(PropertyInner::Bool(true)) != enc_flag(PropertyInner::Bool(false)),
{
    assert(enc_flag(PropertyInner::Bool(true))[0] != enc_flag(PropertyInner::Bool(false))[0]);
}

/// A single-precision payload is its bit pattern: every pattern, negative zero,
/// the not-a-number patterns and the extreme finite values included, is written
/// as its four bytes, and different patterns give different bytes.
pub proof fn law_float_bits_kept(x: u32, y: u32)
    ensures
        enc_inner(PropertyInner::Float(x)) == le32(x),
        enc_inner(PropertyInner::Float(x)).len() == 4,
        enc_inner(PropertyInner::Float(x)) == enc_inner(PropertyInner::Float(y)) ==> x == y,
{
    lemma_le32_len(x);
    if enc_inner(PropertyInner::Float(x)) == enc_inner(PropertyInner::Float(y)) {
        lemma_le32_injective(x, y);
    }
}

/// A double-precision payload is its bit pattern, written as its eight bytes;
/// different patterns give different bytes.
pub proof fn law_double_bits_kept(x: u64, y: u64)
    ensures
        enc_inner(PropertyInner::Double(x)) == le64(x),
        enc_inner(PropertyInner::Double(x)).len() == 8,
        enc_inner(PropertyInner::Double(x)) == enc_inner(PropertyInner::Double(y)) ==> x == y,
{
    lemma_auto_spec_u64_to_from_le_bytes();
    assert(le64(x).len() == 8);
    assert(le64(y).len() == 8);
}

/// An empty array can be written: its payload is a zero count and nothing
/// else, and its tag still carries the element type.
pub proof fn law_empty_array(t: ValueType, i: PropertyInner)
    requires
        value_type_ok(t),
        i matches PropertyInner::Array(vs) && vs@.len() == 0,
    ensures
        inner_ok(TagData::Array(t), i),
        enc_inner(i) == le32(0),
        enc_tag_data(TagData::Array(t)) == enc_value_type(t),
{
    assert(enc_inner(i) =~= le32(0));
}

/// Reading an empty array back gives an empty array: a payload of a zero
/// count belongs to no other array.
pub proof fn law_empty_array_reads_back(t: ValueType, i: PropertyInner)
    requires
        inner_ok(TagData::Array(t), i),
        enc_inner(i) == le32(0),
    ensures
        i matches PropertyInner::Array(vs) && vs@.len() == 0,
{
    match i {
        PropertyInner::Array(vs) => {
            lemma_le32_len(vs@.len() as u32);
            lemma_le32_len(0);
            assert(enc_inner(i).subrange(0, 4) =~= le32(vs@.len() as u32));
            assert(le32(0).subrange(0, 4) =~= le32(0));
            lemma_le32_injective(vs@.len() as u32, 0);
        },
        _ => {},
    }
}

} // verus!
