//! Little-endian integers and raw byte runs, read from a byte slice at a
//! position and appended to a growing output buffer.

use vstd::bytes::*;
use vstd::prelude::*;
use vstd::slice::*;

verus! {

/// The four bytes of `x`, least significant first.
pub open spec fn le32(x: u32) -> Seq<u8> {
    spec_u32_to_le_bytes(x)
}

/// The eight bytes of `x`, least significant first.
pub open spec fn le64(x: u64) -> Seq<u8> {
    spec_u64_to_le_bytes(x)
}

/// The bytes of `input` in `[start, end)`.
pub open spec fn span(input: Seq<u8>, start: int, end: int) -> Seq<u8> {
    input.subrange(start, end)
}

pub fn read_u8(input: &[u8], pos: usize) -> (r: Option<u8>)
    ensures
        input@.len() <= usize::MAX,
        pos < input@.len() ==> r == Some(input@[pos as int]),
        pos >= input@.len() ==> r is None,
{
    let _len = input.len();
    if pos < input.len() {
        Some(input[pos])
    } else {
        None
    }
}

pub fn read_u32(input: &[u8], pos: usize) -> (r: Option<u32>)
    ensures
        input@.len() <= usize::MAX,
        match r {
            Some(x) => pos + 4 <= input@.len() && le32(x) == span(input@, pos as int, pos + 4),
            None => pos + 4 > input@.len(),
        },
{
    let _len = input.len();
    if pos > input.len() || input.len() - pos < 4 {
        return None;
    }
    let bytes = slice_subrange(input, pos, pos + 4);
    let x = u32_from_le_bytes(bytes);
    proof {
        lemma_auto_spec_u32_to_from_le_bytes();
        assert(bytes@ == span(input@, pos as int, pos + 4));
    }
    Some(x)
}

pub fn read_u64(input: &[u8], pos: usize) -> (r: Option<u64>)
    ensures
        input@.len() <= usize::MAX,
        match r {
            Some(x) => pos + 8 <= input@.len() && le64(x) == span(input@, pos as int, pos + 8),
            None => pos + 8 > input@.len(),
        },
{
    let _len = input.len();
    if pos > input.len() || input.len() - pos < 8 {
        return None;
    }
    let bytes = slice_subrange(input, pos, pos + 8);
    let x = u64_from_le_bytes(bytes);
    proof {
        lemma_auto_spec_u64_to_from_le_bytes();
        assert(bytes@ == span(input@, pos as int, pos + 8));
    }
    Some(x)
}

/// Copies `n` bytes starting at `pos`, if that many are there.
pub fn read_bytes(input: &[u8], pos: usize, n: usize) -> (r: Option<Vec<u8>>)
    ensures
        input@.len() <= usize::MAX,
        match r {
            Some(v) => pos + n <= input@.len() && v@ == span(input@, pos as int, pos + n),
            None => pos + n > input@.len(),
        },
{
    let _len = input.len();
    if pos > input.len() || input.len() - pos < n {
        return None;
    }
    let v = slice_to_vec(slice_subrange(input, pos, pos + n));
    Some(v)
}

pub fn write_u8(out: &mut Vec<u8>, x: u8)
    ensures
        final(out)@ == old(out)@.push(x),
{
    out.push(x);
}

pub fn write_u32(out: &mut Vec<u8>, x: u32)
    ensures
        final(out)@ == old(out)@ + le32(x),
{
    let mut b = u32_to_le_bytes(x);
    out.append(&mut b);
}

pub fn write_u64(out: &mut Vec<u8>, x: u64)
    ensures
        final(out)@ == old(out)@ + le64(x),
{
    let mut b = u64_to_le_bytes(x);
    out.append(&mut b);
}

pub fn write_bytes(out: &mut Vec<u8>, bytes: &[u8])
    ensures
        final(out)@ == old(out)@ + bytes@,
{
    let mut b = slice_to_vec(bytes);
    out.append(&mut b);
}

pub proof fn lemma_le32_len(x: u32)
    ensures
        le32(x).len() == 4,
{
    lemma_auto_spec_u32_to_from_le_bytes();
}

pub proof fn lemma_le64_len(x: u64)
    ensures
        le64(x).len() == 8,
{
    lemma_auto_spec_u64_to_from_le_bytes();
}

/// Equal encodings mean equal values.
pub proof fn lemma_le32_injective(x: u32, y: u32)
    requires
        le32(x) == le32(y),
    ensures
        x == y,
{
    lemma_auto_spec_u32_to_from_le_bytes();
    assert(spec_u32_to_le_bytes(x).len() == 4);
    assert(spec_u32_to_le_bytes(y).len() == 4);
}

/// A signed word and its unsigned bit pattern determine each other.
pub proof fn lemma_i32_bits(x: u32)
    ensures
        ((x as i32) as u32) == x,
{
    assert(((x as i32) as u32) == x) by (bit_vector);
}

pub proof fn lemma_i64_bits(x: u64)
    ensures
        ((x as i64) as u64) == x,
{
    assert(((x as i64) as u64) == x) by (bit_vector);
}

} // verus!
