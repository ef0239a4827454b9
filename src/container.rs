//! A whole save file: the engine header, kept as opaque bytes, the save-game
//! class name, the root bag, and the bytes after it, kept as they are.

use crate::decode::{decode_bag, lemma_span_join, read_fstr, starts_with_at, unknown_after};
use crate::encode::{encode_bag, write_fstr};
use crate::encoding::{enc_bag, enc_fstr, enc_save, save_ok};
use crate::error::{CodecError, ErrorKind};
use crate::model::{FStr, Properties, Property, PropertyKey, Save};
use crate::wire::{le32, lemma_le32_injective, read_bytes, read_u32, span};
use vstd::prelude::*;

verus! {

/// `GVAS`, the first four bytes of every save, as a little-endian word.
pub const MAGIC: u32 = 0x5341_5647;

/// The little-endian word at `p`, as a number.
pub open spec fn word_at(s: Seq<u8>, p: int) -> int {
    s[p] + 256 * s[p + 1] + 65536 * s[p + 2] + 16777216 * s[p + 3]
}

/// The size of the engine string at `p`: its length prefix and its body.
pub open spec fn fstr_size_at(s: Seq<u8>, p: int) -> int {
    let u = word_at(s, p);
    if u < 0x8000_0000 {
        4 + u
    } else {
        4 + 2 * (0x1_0000_0000 - u)
    }
}

/// Where the engine header of `s` ends, if `s` starts with one. The header
/// holds the magic number, the save-game version, the package version (two
/// words from save-game version 3 on, but for version 34), the engine version
/// (three half-words and a word) and its branch name, and from engine 4.12 on
/// the custom version table: a format word, a count, and that many entries of
/// twenty bytes.
pub open spec fn header_end_of(s: Seq<u8>) -> Option<int> {
    if s.len() < 8 || s.subrange(0, 4) != le32(MAGIC) {
        None
    } else {
        let v = word_at(s, 4);
        let p = if v >= 3 && v != 34 {
            16int
        } else {
            12int
        };
        if s.len() < p + 14 {
            None
        } else {
            let major = s[p] + 256 * s[p + 1];
            let minor = s[p + 2] + 256 * s[p + 3];
            let q = p + 10 + fstr_size_at(s, p + 10);
            if q > s.len() {
                None
            } else if major > 4 || (major == 4 && minor >= 12) {
                if q + 8 > s.len() {
                    None
                } else {
                    let e = q + 8 + 20 * word_at(s, q + 4);
                    if e > s.len() {
                        None
                    } else {
                        Some(e)
                    }
                }
            } else {
                Some(q)
            }
        }
    }
}

fn word(input: &[u8], p: usize) -> (r: u64)
    requires
        p + 4 <= input@.len(),
    ensures
        r == word_at(input@, p as int),
{
    input[p] as u64 + 256 * input[p + 1] as u64 + 65536 * input[p + 2] as u64 + 16777216 * input[p
        + 3] as u64
}

/// Where the engine header ends, or why it could not be read.
fn header_end(input: &[u8]) -> (r: Result<usize, CodecError>)
    ensures
        match header_end_of(input@) {
            Some(h) => r matches Ok(x) && x == h,
            None => r is Err,
        },
        input@.len() >= 4 && span(input@, 0, 4) != le32(MAGIC) ==> (r matches Err(e) && e.kind
            == ErrorKind::InvalidHeader),
{
    let len = input.len();
    let magic = match read_u32(input, 0) {
        Some(m) => m,
        None => {
            return Err(CodecError::new(ErrorKind::UnexpectedEnd));
        },
    };
    if magic != MAGIC {
        proof {
            if input@.subrange(0, 4) == le32(MAGIC) {
                lemma_le32_injective(magic, MAGIC);
            }
        }
        return Err(CodecError::new(ErrorKind::InvalidHeader));
    }
    if len < 8 {
        return Err(CodecError::new(ErrorKind::UnexpectedEnd));
    }
    let v = word(input, 4);
    let p: usize = if v >= 3 && v != 34 {
        16
    } else {
        12
    };
    if len < p + 14 {
        return Err(CodecError::new(ErrorKind::UnexpectedEnd));
    }
    let major = input[p] as u64 + 256 * input[p + 1] as u64;
    let minor = input[p + 2] as u64 + 256 * input[p + 3] as u64;
    let u = word(input, p + 10);
    let size: u64 = if u < 0x8000_0000 {
        4 + u
    } else {
        4 + 2 * (0x1_0000_0000 - u)
    };
    if size > (len - (p + 10)) as u64 {
        return Err(CodecError::new(ErrorKind::UnexpectedEnd));
    }
    let q = p + 10 + size as usize;
    if major > 4 || (major == 4 && minor >= 12) {
        if len - q < 8 {
            return Err(CodecError::new(ErrorKind::UnexpectedEnd));
        }
        let table = 20 * word(input, q + 4);
        if table > (len - (q + 8)) as u64 {
            return Err(CodecError::new(ErrorKind::UnexpectedEnd));
        }
        Ok(q + 8 + table as usize)
    } else {
        Ok(q)
    }
}

/// The input is, byte for byte, the encoding of the writable save `s`, whose
/// header is one that the reader recognises.
pub open spec fn encodes_save(input: Seq<u8>, s: Save) -> bool {
    &&& save_ok(s)
    &&& input == enc_save(s)
    &&& header_end_of(input) == Some(s.header@.len() as int)
}

/// The input holds a recognised header ending at `h`, the save-game class name
/// `g`, the properties `ps`, and then a property named `name` whose type name
/// `t` the format does not know.
pub open spec fn unknown_in_save(
    input: Seq<u8>,
    h: int,
    g: FStr,
    ps: Seq<(PropertyKey, Property)>,
    name: FStr,
    t: FStr,
) -> bool {
    &&& header_end_of(input) == Some(h)
    &&& g.wf()
    &&& starts_with_at(input, h, enc_fstr(g))
    &&& unknown_after(input, h + enc_fstr(g).len(), ps, name, t)
}

pub open spec fn save_parts(input: Seq<u8>, s: Save) -> bool {
    let h = s.header@.len() as int;
    let q1 = h + enc_fstr(s.save_game_type).len();
    let q2 = q1 + enc_bag(s.root.0@).len();
    &&& starts_with_at(input, h, enc_fstr(s.save_game_type))
    &&& starts_with_at(input, q1, enc_bag(s.root.0@))
    &&& q2 + s.extra@.len() == input.len()
    &&& input.subrange(0, h) == s.header@
    &&& input.subrange(q2, input.len() as int) == s.extra@
}

proof fn lemma_save_parts(input: Seq<u8>, s: Save)
    requires
        input == enc_save(s),
    ensures
        save_parts(input, s),
{
    let a = s.header@;
    let b = enc_fstr(s.save_game_type);
    let c = enc_bag(s.root.0@);
    let d = s.extra@;
    assert(input =~= a + b + c + d);
    assert(input.subrange(a.len() as int, (a.len() + b.len()) as int) =~= b);
    assert(input.subrange((a.len() + b.len()) as int, (a.len() + b.len() + c.len()) as int) =~= c);
    assert(input.subrange(0, a.len() as int) =~= a);
    assert(input.subrange((a.len() + b.len() + c.len()) as int, input.len() as int) =~= d);
}

/// Reads a whole save. What it accepts, `encode` writes back byte for byte.
pub fn decode(input: &[u8]) -> (r: Result<Save, CodecError>)
    ensures
        r matches Ok(s) ==> enc_save(s) == input@ && save_ok(s),
        input@.len() >= 4 && span(input@, 0, 4) != le32(MAGIC) ==> (r matches Err(e) && e.kind
            == ErrorKind::InvalidHeader),
        forall|s: Save|
            #[trigger] encodes_save(input@, s) ==> (r matches Ok(s2) && s2.header@ == s.header@
                && s2.save_game_type.same(&s.save_game_type) && s2.extra@ == s.extra@),
        forall|h: int, g: FStr, ps: Seq<(PropertyKey, Property)>, name: FStr, t: FStr|
            #[trigger] unknown_in_save(input@, h, g, ps, name, t) ==> (r matches Err(e) && e.kind
                == ErrorKind::UnknownPropertyType && e.path@.len() == 1 && e.path@[0].same(&name)),
{
    proof {
        assert forall|s: Save| #[trigger] encodes_save(input@, s) implies save_parts(input@, s) by {
            lemma_save_parts(input@, s);
        }
    }
    let h = header_end(input)?;
    let header = match read_bytes(input, 0, h) {
        Some(b) => b,
        None => {
            return Err(CodecError::new(ErrorKind::UnexpectedEnd));
        },
    };
    let (save_game_type, q1) = read_fstr(input, h)?;
    let (props, q2) = decode_bag(input, q1)?;
    let extra = match read_bytes(input, q2, input.len() - q2) {
        Some(b) => b,
        None => {
            return Err(CodecError::new(ErrorKind::UnexpectedEnd));
        },
    };
    let s = Save { header, save_game_type, root: Properties(props), extra };
    proof {
        assert forall|s1: Save| #[trigger] encodes_save(input@, s1) implies s.header@ == s1.header@
            && s.extra@ == s1.extra@ by {
            lemma_save_parts(input@, s1);
        }
        lemma_span_join(input@, 0, h as int, q1 as int);
        lemma_span_join(input@, 0, q1 as int, q2 as int);
        lemma_span_join(input@, 0, q2 as int, input@.len() as int);
        assert(span(input@, 0, input@.len() as int) =~= input@);
    }
    Ok(s)
}

/// Writes a whole save, recomputing every payload length. It fails exactly when
/// some payload does not agree with its tag or some string does not fit its
/// length prefix.
pub fn encode(s: &Save) -> (r: Result<Vec<u8>, CodecError>)
    ensures
        r is Ok <==> save_ok(*s),
        r matches Ok(b) ==> b@ == enc_save(*s),
{
    if !s.save_game_type.is_wf() {
        return Err(CodecError::new(ErrorKind::InvalidValue));
    }
    let mut out = vstd::slice::slice_to_vec(s.header.as_slice());
    write_fstr(&mut out, &s.save_game_type);
    encode_bag(&mut out, &s.root.0)?;
    let mut extra = vstd::slice::slice_to_vec(s.extra.as_slice());
    out.append(&mut extra);
    Ok(out)
}

/// Reads a save and writes it again: on success the output is the input.
pub fn reencode(input: &[u8]) -> (r: Result<Vec<u8>, CodecError>)
    ensures
        r matches Ok(b) ==> b@ == input@,
        input@.len() >= 4 && span(input@, 0, 4) != le32(MAGIC) ==> (r matches Err(e) && e.kind
            == ErrorKind::InvalidHeader),
        forall|s: Save| #[trigger] encodes_save(input@, s) ==> r is Ok,
        forall|h: int, g: FStr, ps: Seq<(PropertyKey, Property)>, name: FStr, t: FStr|
            #[trigger] unknown_in_save(input@, h, g, ps, name, t) ==> (r matches Err(e) && e.kind
                == ErrorKind::UnknownPropertyType && e.path@.len() == 1 && e.path@[0].same(&name)),
{
    let s = decode(input)?;
    encode(&s)
}

} // verus!
