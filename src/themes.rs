//! Checks on custom themes before they are stored.

use crate::text::push_str;
use vstd::prelude::*;
use vstd::string::{StrSliceExecFns, StringSliceAdditionalSpecFns};
use vstd::utf8::encode_utf8;

verus! {

/// What `char::is_alphanumeric` says of a character; it depends on the character alone.
pub uninterp spec fn alnum_of(c: char) -> bool;

/// Relies on `char::is_alphanumeric`: whether the character is alphabetic or
/// numeric by Unicode's properties.
#[verifier::external_body]
fn is_alphanumeric(c: char) -> (r: bool)
    ensures
        r == alnum_of(c),
{
    c.is_alphanumeric()
}

/// Longest theme id, in bytes.
pub const THEME_ID_MAX: usize = 64;

pub open spec fn id_char_ok(c: char) -> bool {
    alnum_of(c) || c == '-' || c == '_'
}

/// Why a theme id is refused, if it is: it must be 1 to 64 bytes of letters,
/// digits, `-` and `_`.
pub open spec fn theme_id_problem(id: Seq<char>) -> Option<Seq<char>> {
    let n = encode_utf8(id).len();
    if n == 0 || n > THEME_ID_MAX {
        Some("Theme ID must be 1-64 characters"@)
    } else if exists|i: int| 0 <= i < id.len() && !id_char_ok(#[trigger] id[i]) {
        Some("Theme ID contains invalid characters"@)
    } else {
        None
    }
}

pub fn validate_theme_id(theme_id: &str) -> (r: Result<(), String>)
    ensures
        match theme_id_problem(theme_id@) {
            None => r is Ok,
            Some(m) => r matches Err(e) && e@ == m,
        },
{
    let n = theme_id.as_bytes().len();
    assert(n == encode_utf8(theme_id@).len());
    if n == 0 || n > THEME_ID_MAX {
        return Err("Theme ID must be 1-64 characters".to_owned());
    }
    let k = theme_id.unicode_len();
    let mut i: usize = 0;
    while i < k
        invariant
            k == theme_id@.len(),
            i <= k,
            0 < encode_utf8(theme_id@).len() <= THEME_ID_MAX,
            forall|j: int| 0 <= j < i ==> id_char_ok(#[trigger] theme_id@[j]),
        decreases k - i,
    {
        let c = theme_id.get_char(i);
        if !(is_alphanumeric(c) || c == '-' || c == '_') {
            assert(!id_char_ok(theme_id@[i as int]));
            let mut e = String::new();
            push_str(&mut e, "Theme ID contains invalid characters");
            return Err(e);
        }
        i += 1;
    }
    Ok(())
}

} // verus!
