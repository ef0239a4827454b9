//! Edits of a save's root bag made by the save manager: the current level and
//! its Pipes variants, the difficulty, and the list of visible single-player
//! saves kept in the main save. Each works on the first entry of the slot it
//! edits, the one with array index 0, and leaves every other entry in place.

use crate::bag::name_is;
use crate::feedback::AppError;
use crate::model::{
    Byte, FStr, Guid, Properties, Property, PropertyInner, PropertyKey, PropertyTag, PropertyValue,
    StructValue, TagData, ValueType,
};
use crate::text::str_eq;
use vstd::prelude::*;
use vstd::string::StringSliceAdditionalSpecFns;
use vstd::utf8::encode_utf8;

verus! {

/// `k` is the slot with array index 0 named `name`.
pub open spec fn is_slot(k: PropertyKey, name: Seq<u8>) -> bool {
    k.0 == 0 && name_is(k, name)
}

/// Entry `i` is the first of slot `name`.
pub open spec fn first_slot(s: Seq<(PropertyKey, Property)>, name: Seq<u8>, i: int) -> bool {
    &&& 0 <= i < s.len()
    &&& is_slot(s[i].0, name)
    &&& forall|j: int| 0 <= j < i ==> !is_slot(#[trigger] s[j].0, name)
}

pub open spec fn has_slot(s: Seq<(PropertyKey, Property)>, name: Seq<u8>) -> bool {
    exists|i: int| 0 <= i < s.len() && is_slot(#[trigger] s[i].0, name)
}

/// `s` holds the narrow text `t`.
pub open spec fn text_is(s: FStr, t: Seq<u8>) -> bool {
    !s.wide && s.body@ == t.push(0u8)
}

/// Every entry but entry `i` is unchanged, entry `i` keeps its key, and the
/// length is the same.
pub open spec fn only_changed(
    before: Seq<(PropertyKey, Property)>,
    after: Seq<(PropertyKey, Property)>,
    i: int,
) -> bool {
    &&& after.len() == before.len()
    &&& after[i].0 == before[i].0
    &&& forall|j: int| 0 <= j < before.len() && j != i ==> after[j] == before[j]
}

/// The first entry of slot `name`, if any.
fn find_slot(root: &Properties, name: &str) -> (r: Option<usize>)
    ensures
        r matches Some(i) ==> first_slot(root.0@, name.spec_bytes(), i as int),
        r is None <==> !has_slot(root.0@, name.spec_bytes()),
{
    let mut i: usize = 0;
    while i < root.0.len()
        invariant
            i <= root.0@.len(),
            forall|j: int| 0 <= j < i ==> !is_slot(#[trigger] root.0@[j].0, name.spec_bytes()),
        decreases root.0@.len() - i,
    {
        if root.0[i].0.0 == 0 && root.0[i].0.1.is(name) {
            return Some(i);
        }
        i += 1;
    }
    None
}

/// Sets the current level to `level`. An existing current level that holds a
/// name gets the new one; one of another type is left alone and `false` comes
/// back; a missing one is added at the end.
pub fn modify_current_level(root: &mut Properties, level: &str) -> (r: bool)
    ensures
        forall|i: int|
            first_slot(old(root).0@, "CurrentLevel".spec_bytes(), i) ==> if old(root).0@[i].1.inner is Name {
                &&& r
                &&& only_changed(old(root).0@, final(root).0@, i)
                &&& final(root).0@[i].1.tag == old(root).0@[i].1.tag
                &&& final(root).0@[i].1.inner matches PropertyInner::Name(s) && text_is(
                    s,
                    level.spec_bytes(),
                )
            } else {
                !r && final(root).0@ == old(root).0@
            },
        !has_slot(old(root).0@, "CurrentLevel".spec_bytes()) ==> {
            &&& r
            &&& final(root).0@.len() == old(root).0@.len() + 1
            &&& final(root).0@.drop_last() == old(root).0@
            &&& is_slot(final(root).0@.last().0, "CurrentLevel".spec_bytes())
            &&& final(root).0@.last().1.tag == PropertyTag { id: None, data: TagData::Name }
            &&& final(root).0@.last().1.inner matches PropertyInner::Name(s) && text_is(
                s,
                level.spec_bytes(),
            )
        },
{
    match find_slot(root, "CurrentLevel") {
        Some(i) => {
            if !matches!(root.0[i].1.inner, PropertyInner::Name(_)) {
                return false;
            }
            let (k, mut p) = root.0.remove(i);
            p.inner = PropertyInner::Name(FStr::narrow(level));
            root.0.insert(i, (k, p));
            proof {
                assert forall|j: int|
                    0 <= j < old(root).0@.len() && j != i implies root.0@[j] == old(
                    root,
                ).0@[j] by {}
            }
            true
        },
        None => {
            let p = make_name_property(level);
            root.0.push((PropertyKey::named(0, "CurrentLevel"), p));
            assert(root.0@.drop_last() =~= old(root).0@);
            true
        },
    }
}

/// Removes the first entry of slot `name`; says whether there was one.
pub fn remove_slot(root: &mut Properties, name: &str) -> (r: bool)
    ensures
        r == has_slot(old(root).0@, name.spec_bytes()),
        forall|i: int|
            first_slot(old(root).0@, name.spec_bytes(), i) ==> final(root).0@ == old(
                root,
            ).0@.remove(i),
        !r ==> final(root).0@ == old(root).0@,
{
    match find_slot(root, name) {
        Some(i) => {
            root.0.remove(i);
            true
        },
        None => false,
    }
}

/// Removes the current level, which stands for the first level.
pub fn remove_current_level(root: &mut Properties) -> (r: bool)
    ensures
        r == has_slot(old(root).0@, "CurrentLevel".spec_bytes()),
        forall|i: int|
            first_slot(old(root).0@, "CurrentLevel".spec_bytes(), i) ==> final(root).0@ == old(
                root,
            ).0@.remove(i),
        !r ==> final(root).0@ == old(root).0@,
{
    remove_slot(root, "CurrentLevel")
}

/// Sets slot `name` to `p`: in place if the slot is there, else at the end.
pub fn set_slot(root: &mut Properties, name: &str, p: Property)
    ensures
        forall|i: int|
            first_slot(old(root).0@, name.spec_bytes(), i) ==> final(root).0@ == old(
                root,
            ).0@.update(i, (old(root).0@[i].0, p)),
        !has_slot(old(root).0@, name.spec_bytes()) ==> final(root).0@.drop_last() == old(
            root,
        ).0@ && final(root).0@.len() == old(root).0@.len() + 1 && is_slot(
            final(root).0@.last().0,
            name.spec_bytes(),
        ) && final(root).0@.last().1 == p,
{
    match find_slot(root, name) {
        Some(i) => {
            let (k, _old) = root.0.remove(i);
            root.0.insert(i, (k, p));
            assert(root.0@ =~= old(root).0@.update(i as int, (old(root).0@[i as int].0, p)));
        },
        None => {
            root.0.push((PropertyKey::named(0, name), p));
            assert(root.0@.drop_last() =~= old(root).0@);
        },
    }
}

/// The level stored for a level choice: both Pipes variants are the level
/// `Pipes`; the second is told apart by the `UnlockedFun` flag.
pub open spec fn stored_level(choice: Seq<char>) -> Seq<char> {
    if choice == "Pipes1"@ || choice == "Pipes2"@ {
        "Pipes"@
    } else {
        choice
    }
}

/// Applies the `UnlockedFun` flag of a level choice: `Pipes1` removes it,
/// `Pipes2` sets it to true, any other choice leaves the bag alone. Returns the
/// level to store.
pub fn apply_level_choice(root: &mut Properties, choice: &str) -> (r: &'static str)
    ensures
        choice@ == "Pipes1"@ ==> r@ == "Pipes"@ && (forall|i: int|
            first_slot(old(root).0@, "UnlockedFun".spec_bytes(), i) ==> final(root).0@ == old(
                root,
            ).0@.remove(i)) && (!has_slot(old(root).0@, "UnlockedFun".spec_bytes())
            ==> final(root).0@ == old(root).0@),
        choice@ == "Pipes2"@ ==> r@ == "Pipes"@ && (forall|i: int|
            first_slot(old(root).0@, "UnlockedFun".spec_bytes(), i) ==> final(root).0@ == old(
                root,
            ).0@.update(i, (old(root).0@[i].0, unlocked_fun()))) && (!has_slot(
            old(root).0@,
            "UnlockedFun".spec_bytes(),
        ) ==> final(root).0@ == old(root).0@.push((final(root).0@.last().0, unlocked_fun()))
            && is_slot(final(root).0@.last().0, "UnlockedFun".spec_bytes())),
        choice@ != "Pipes1"@ && choice@ != "Pipes2"@ ==> final(root).0@ == old(root).0@,
{
    proof {
        reveal_strlit("Pipes1");
        reveal_strlit("Pipes2");
        assert("Pipes1"@[5] != "Pipes2"@[5]);
    }
    if str_eq(choice, "Pipes1") {
        remove_slot(root, "UnlockedFun");
        "Pipes"
    } else if str_eq(choice, "Pipes2") {
        set_slot(root, "UnlockedFun", make_bool_property(true));
        proof {
            if !has_slot(old(root).0@, "UnlockedFun".spec_bytes()) {
                assert(root.0@ =~= old(root).0@.push((root.0@.last().0, unlocked_fun())));
            }
        }
        "Pipes"
    } else {
        ""
    }
}

/// A name property holding the narrow text of `value`.
pub fn make_name_property(value: &str) -> (r: Property)
    ensures
        r.tag == (PropertyTag { id: None, data: TagData::Name }),
        r.inner matches PropertyInner::Name(s) && text_is(s, value.spec_bytes()),
{
    Property {
        tag: PropertyTag { id: None, data: TagData::Name },
        inner: PropertyInner::Name(FStr::narrow(value)),
    }
}

/// A struct property of type `struct_type` with the given fields, with the nil
/// struct identifier.
pub fn make_struct_property(struct_type: &str, fields: Properties) -> (r: Property)
    ensures
        r.tag.id is None,
        r.tag.data matches TagData::Struct { struct_type: t, id } && text_is(
            t,
            struct_type.spec_bytes(),
        ) && id == (Guid { a: 0, b: 0, c: 0, d: 0 }),
        r.inner == PropertyInner::Struct(StructValue::Struct(fields)),
{
    Property {
        tag: PropertyTag {
            id: None,
            data: TagData::Struct { struct_type: FStr::narrow(struct_type), id: Guid::nil() },
        },
        inner: PropertyInner::Struct(StructValue::Struct(fields)),
    }
}

/// The flag that marks the second Pipes variant.
pub open spec fn unlocked_fun() -> Property {
    Property { tag: PropertyTag { id: None, data: TagData::Bool }, inner: PropertyInner::Bool(true) }
}

/// A truth-value property.
pub fn make_bool_property(value: bool) -> (r: Property)
    ensures
        r == (Property {
            tag: PropertyTag { id: None, data: TagData::Bool },
            inner: PropertyInner::Bool(value),
        }),
{
    Property { tag: PropertyTag { id: None, data: TagData::Bool }, inner: PropertyInner::Bool(value) }
}

/// The name of `k` is narrow and begins with `prefix`.
pub open spec fn name_starts_with(k: PropertyKey, prefix: Seq<u8>) -> bool {
    !k.1.wide && k.1.body@.len() >= prefix.len() && k.1.body@.subrange(0, prefix.len() as int)
        == prefix
}

/// The entries whose names do not begin with `prefix`, in order.
pub open spec fn without_prefix(s: Seq<(PropertyKey, Property)>, prefix: Seq<u8>) -> Seq<
    (PropertyKey, Property),
>
    decreases s.len(),
{
    if s.len() == 0 {
        s
    } else if name_starts_with(s.last().0, prefix) {
        without_prefix(s.drop_last(), prefix)
    } else {
        without_prefix(s.drop_last(), prefix).push(s.last())
    }
}

fn starts_with_bytes(s: &FStr, prefix: &[u8]) -> (r: bool)
    ensures
        r == (!s.wide && s.body@.len() >= prefix@.len() && s.body@.subrange(
            0,
            prefix@.len() as int,
        ) == prefix@),
{
    if s.wide || s.body.len() < prefix.len() {
        return false;
    }
    let mut i: usize = 0;
    while i < prefix.len()
        invariant
            i <= prefix@.len() <= s.body@.len(),
            forall|j: int| 0 <= j < i ==> s.body@[j] == prefix@[j],
        decreases prefix@.len() - i,
    {
        if s.body[i] != prefix[i] {
            assert(s.body@.subrange(0, prefix@.len() as int)[i as int] != prefix@[i as int]);
            return false;
        }
        i += 1;
    }
    assert(s.body@.subrange(0, prefix@.len() as int) =~= prefix@);
    true
}

/// Removes every entry whose name begins with `prefix`, keeping the order of the rest.
pub fn remove_prefixed(root: &mut Properties, prefix: &str)
    ensures
        final(root).0@ == without_prefix(old(root).0@, prefix.spec_bytes()),
{
    let p = prefix.as_bytes();
    let ghost all = root.0@;
    let mut src: Vec<(PropertyKey, Property)> = Vec::new();
    std::mem::swap(&mut src, &mut root.0);
    let n = src.len();
    let mut kept: Vec<(PropertyKey, Property)> = Vec::new();
    let mut i: usize = 0;
    while i < n
        invariant
            n == all.len(),
            p@ == prefix.spec_bytes(),
            src@ == all.subrange(i as int, n as int),
            i <= n,
            kept@ == without_prefix(all.subrange(0, i as int), p@),
        decreases n - i,
    {
        let e = src.remove(0);
        assert(all.subrange(0, i + 1).drop_last() =~= all.subrange(0, i as int));
        assert(all.subrange(0, i + 1).last() == e);
        if !starts_with_bytes(&e.0.1, p) {
            kept.push(e);
        }
        i += 1;
    }
    assert(all.subrange(0, n as int) =~= all);
    root.0 = kept;
}

/// The enum label stored for a difficulty other than `Normal`; an unknown
/// one counts as `Easy`.
pub open spec fn difficulty_label(d: Seq<char>) -> Seq<char> {
    if d == "Hard"@ {
        "E_Difficulty::NewEnumerator1"@
    } else if d == "Nightmare"@ {
        "E_Difficulty::NewEnumerator2"@
    } else {
        "E_Difficulty::NewEnumerator0"@
    }
}

fn difficulty_label_str(d: &str) -> (r: &'static str)
    ensures
        r@ == difficulty_label(d@),
{
    if str_eq(d, "Hard") {
        "E_Difficulty::NewEnumerator1"
    } else if str_eq(d, "Nightmare") {
        "E_Difficulty::NewEnumerator2"
    } else {
        "E_Difficulty::NewEnumerator0"
    }
}

/// A byte property backed by the enum `enum_name`, holding `label`.
pub fn make_enum_byte_property(enum_name: &str, label: &str) -> (r: Property)
    ensures
        r.tag.id is None,
        r.tag.data matches TagData::Byte(Some(e)) && text_is(e, enum_name.spec_bytes()),
        r.inner matches PropertyInner::Byte(Byte::Label(l)) && text_is(l, label.spec_bytes()),
{
    Property {
        tag: PropertyTag { id: None, data: TagData::Byte(Some(FStr::narrow(enum_name))) },
        inner: PropertyInner::Byte(Byte::Label(FStr::narrow(label))),
    }
}

/// Sets the difficulty: every entry whose name begins with `Difficulty` goes,
/// and unless the difficulty is `Normal`, which is stored as no entry at all,
/// a byte of the enum `E_Difficulty` with its label is added at the end.
pub fn update_difficulty(root: &mut Properties, difficulty: &str)
    ensures
        difficulty@ == "Normal"@ ==> final(root).0@ == without_prefix(
            old(root).0@,
            "Difficulty".spec_bytes(),
        ),
        difficulty@ != "Normal"@ ==> {
            let s = final(root).0@;
            let e = s.last();
            &&& s.len() > 0
            &&& s.drop_last() == without_prefix(old(root).0@, "Difficulty".spec_bytes())
            &&& is_slot(e.0, "Difficulty".spec_bytes())
            &&& e.1.tag.id is None
            &&& e.1.tag.data matches TagData::Byte(Some(n)) && text_is(
                n,
                "E_Difficulty".spec_bytes(),
            )
            &&& e.1.inner matches PropertyInner::Byte(Byte::Label(t)) && text_is(
                t,
                encode_utf8(difficulty_label(difficulty@)),
            )
        },
{
    remove_prefixed(root, "Difficulty");
    if !str_eq(difficulty, "Normal") {
        let label = difficulty_label_str(difficulty);
        let p = make_enum_byte_property("E_Difficulty", label);
        let ghost before = root.0@;
        root.0.push((PropertyKey::named(0, "Difficulty"), p));
        assert(root.0@.drop_last() =~= before);
    }
}

/// A list of strings: an array property tagged with string elements.
pub open spec fn is_str_list(p: Property) -> bool {
    p.tag.data == TagData::Array(ValueType::Str) && p.inner is Array
}

pub open spec fn list_of(p: Property) -> Seq<PropertyValue> {
    match p.inner {
        PropertyInner::Array(vs) => vs@,
        _ => Seq::empty(),
    }
}

/// Element `v` is the narrow string `t`.
pub open spec fn value_is_text(v: PropertyValue, t: Seq<u8>) -> bool {
    v matches PropertyValue::Str(s) && text_is(s, t)
}

pub open spec fn list_has(vs: Seq<PropertyValue>, t: Seq<u8>) -> bool {
    exists|j: int| 0 <= j < vs.len() && value_is_text(#[trigger] vs[j], t)
}

/// The elements other than the narrow string `t`, in order.
pub open spec fn list_without(vs: Seq<PropertyValue>, t: Seq<u8>) -> Seq<PropertyValue>
    decreases vs.len(),
{
    if vs.len() == 0 {
        vs
    } else if value_is_text(vs.last(), t) {
        list_without(vs.drop_last(), t)
    } else {
        list_without(vs.drop_last(), t).push(vs.last())
    }
}

fn is_text(v: &PropertyValue, t: &str) -> (r: bool)
    ensures
        r == value_is_text(*v, t.spec_bytes()),
{
    match v {
        PropertyValue::Str(s) => s.is(t),
        _ => false,
    }
}

fn position_in_list(vs: &Vec<PropertyValue>, t: &str) -> (r: bool)
    ensures
        r == list_has(vs@, t.spec_bytes()),
{
    let mut i: usize = 0;
    while i < vs.len()
        invariant
            i <= vs@.len(),
            forall|j: int| 0 <= j < i ==> !value_is_text(#[trigger] vs@[j], t.spec_bytes()),
        decreases vs@.len() - i,
    {
        if is_text(&vs[i], t) {
            return true;
        }
        i += 1;
    }
    false
}

/// The message when the list of saves is not a list of strings.
pub open spec fn bad_list_message() -> Seq<char> {
    "SingleplayerSaves 字段格式不正确"@
}

/// Adds `archive` to the list of visible saves unless it is there already;
/// says whether the list changed. A missing list is created at the end.
pub fn add_save_name(root: &mut Properties, archive: &str) -> (r: Result<bool, AppError>)
    ensures
        forall|i: int|
            first_slot(old(root).0@, "SingleplayerSaves".spec_bytes(), i) ==> if !is_str_list(
                old(root).0@[i].1,
            ) {
                r matches Err(e) && e.message@ == bad_list_message() && final(root).0@ == old(
                    root,
                ).0@
            } else if list_has(list_of(old(root).0@[i].1), archive.spec_bytes()) {
                r == Ok::<bool, AppError>(false) && final(root).0@ == old(root).0@
            } else {
                &&& r == Ok::<bool, AppError>(true)
                &&& only_changed(old(root).0@, final(root).0@, i)
                &&& is_str_list(final(root).0@[i].1)
                &&& final(root).0@[i].1.tag == old(root).0@[i].1.tag
                &&& list_of(final(root).0@[i].1).drop_last() == list_of(old(root).0@[i].1)
                &&& value_is_text(list_of(final(root).0@[i].1).last(), archive.spec_bytes())
                &&& list_of(final(root).0@[i].1).len() > 0
            },
        !has_slot(old(root).0@, "SingleplayerSaves".spec_bytes()) ==> {
            let s = final(root).0@;
            &&& r == Ok::<bool, AppError>(true)
            &&& s.len() == old(root).0@.len() + 1
            &&& s.drop_last() == old(root).0@
            &&& is_slot(s.last().0, "SingleplayerSaves".spec_bytes())
            &&& is_str_list(s.last().1)
            &&& s.last().1.tag.id is None
            &&& list_of(s.last().1).len() == 1
            &&& value_is_text(list_of(s.last().1)[0], archive.spec_bytes())
        },
{
    match find_slot(root, "SingleplayerSaves") {
        Some(i) => {
            let ok = matches!(root.0[i].1.tag.data, TagData::Array(ValueType::Str))
                && matches!(root.0[i].1.inner, PropertyInner::Array(_));
            if !ok {
                return Err(AppError::new("SingleplayerSaves 字段格式不正确"));
            }
            let present = match &root.0[i].1.inner {
                PropertyInner::Array(vs) => position_in_list(vs, archive),
                _ => false,
            };
            if present {
                return Ok(false);
            }
            let (k, mut p) = root.0.remove(i);
            let ghost old_p = p;
            let mut vs = match p.inner {
                PropertyInner::Array(vs) => vs,
                _ => Vec::new(),
            };
            let ghost old_vs = vs@;
            vs.push(PropertyValue::Str(FStr::narrow(archive)));
            assert(vs@.drop_last() =~= old_vs);
            p.inner = PropertyInner::Array(vs);
            root.0.insert(i, (k, p));
            proof {
                assert forall|j: int|
                    0 <= j < old(root).0@.len() && j != i implies root.0@[j] == old(
                    root,
                ).0@[j] by {}
            }
            Ok(true)
        },
        None => {
            let p = Property {
                tag: PropertyTag { id: None, data: TagData::Array(ValueType::Str) },
                inner: PropertyInner::Array(vec![PropertyValue::Str(FStr::narrow(archive))]),
            };
            root.0.push((PropertyKey::named(0, "SingleplayerSaves"), p));
            assert(root.0@.drop_last() =~= old(root).0@);
            Ok(true)
        },
    }
}

/// Removes every occurrence of `archive` from the list of visible saves; says
/// whether any went. A missing list, or one that is not a list of strings, is
/// left alone.
pub fn remove_save_name(root: &mut Properties, archive: &str) -> (r: bool)
    ensures
        forall|i: int|
            first_slot(old(root).0@, "SingleplayerSaves".spec_bytes(), i) && is_str_list(
                old(root).0@[i].1,
            ) ==> {
                &&& r == list_has(list_of(old(root).0@[i].1), archive.spec_bytes())
                &&& only_changed(old(root).0@, final(root).0@, i)
                &&& final(root).0@[i].1.tag == old(root).0@[i].1.tag
                &&& final(root).0@[i].1.inner is Array
                &&& list_of(final(root).0@[i].1) == list_without(
                    list_of(old(root).0@[i].1),
                    archive.spec_bytes(),
                )
            },
        forall|i: int|
            first_slot(old(root).0@, "SingleplayerSaves".spec_bytes(), i) && !is_str_list(
                old(root).0@[i].1,
            ) ==> !r && final(root).0@ == old(root).0@,
        !has_slot(old(root).0@, "SingleplayerSaves".spec_bytes()) ==> !r && final(root).0@ == old(
            root,
        ).0@,
{
    let i = match find_slot(root, "SingleplayerSaves") {
        Some(i) => i,
        None => {
            return false;
        },
    };
    let ok = matches!(root.0[i].1.tag.data, TagData::Array(ValueType::Str)) && matches!(
        root.0[i].1.inner,
        PropertyInner::Array(_),
    );
    if !ok {
        return false;
    }
    let (k, mut p) = root.0.remove(i);
    let src = match p.inner {
        PropertyInner::Array(vs) => vs,
        _ => Vec::new(),
    };
    let ghost all = src@;
    let mut src = src;
    let n = src.len();
    let mut kept: Vec<PropertyValue> = Vec::new();
    let mut removed = false;
    let mut j: usize = 0;
    while j < n
        invariant
            n == all.len(),
            src@ == all.subrange(j as int, n as int),
            j <= n,
            kept@ == list_without(all.subrange(0, j as int), archive.spec_bytes()),
            removed == list_has(all.subrange(0, j as int), archive.spec_bytes()),
        decreases n - j,
    {
        let v = src.remove(0);
        let ghost pre = all.subrange(0, j as int);
        assert(all.subrange(0, j + 1).drop_last() =~= pre);
        assert(all.subrange(0, j + 1).last() == v);
        if is_text(&v, archive) {
            removed = true;
            assert(value_is_text(all.subrange(0, j + 1)[j as int], archive.spec_bytes()));
        } else {
            kept.push(v);
            assert(list_has(all.subrange(0, j + 1), archive.spec_bytes()) == list_has(
                pre,
                archive.spec_bytes(),
            )) by {
                if list_has(all.subrange(0, j + 1), archive.spec_bytes()) {
                    let w = choose|w: int|
                        0 <= w < j + 1 && value_is_text(
                            #[trigger] all.subrange(0, j + 1)[w],
                            archive.spec_bytes(),
                        );
                    assert(w < j);
                    assert(pre[w] == all.subrange(0, j + 1)[w]);
                }
            }
        }
        proof {
            if removed && !list_has(pre, archive.spec_bytes()) {
                assert(value_is_text(all.subrange(0, j + 1)[j as int], archive.spec_bytes()));
            }
            if list_has(pre, archive.spec_bytes()) {
                let w = choose|w: int| 0 <= w < j && value_is_text(#[trigger] pre[w], archive.spec_bytes());
                assert(all.subrange(0, j + 1)[w] == pre[w]);
            }
        }
        j += 1;
    }
    assert(all.subrange(0, n as int) =~= all);
    p.inner = PropertyInner::Array(kept);
    root.0.insert(i, (k, p));
    proof {
        assert forall|x: int|
            0 <= x < old(root).0@.len() && x != i implies root.0@[x] == old(root).0@[x] by {}
    }
    removed
}

/// The first entry of slot `name` holds a name property with text `t`.
pub open spec fn slot_has_name(s: Seq<(PropertyKey, Property)>, name: Seq<u8>, t: FStr) -> bool {
    exists|i: int| first_slot(s, name, i) && s[i].1.inner == PropertyInner::Name(t)
}

/// The first entry of slot `name` holds the truth value true.
pub open spec fn slot_is_true(s: Seq<(PropertyKey, Property)>, name: Seq<u8>) -> bool {
    exists|i: int| first_slot(s, name, i) && s[i].1.inner == PropertyInner::Bool(true)
}

/// The level a save is at, as the save list shows it: the stored current
/// level, `Level0` where there is none, and for `Pipes` the variant that the
/// `UnlockedFun` flag tells.
pub fn current_level(root: &Properties) -> (r: FStr)
    ensures
        forall|t: FStr|
            slot_has_name(root.0@, "CurrentLevel".spec_bytes(), t) ==> if text_is(
                t,
                "Pipes".spec_bytes(),
            ) {
                if slot_is_true(root.0@, "UnlockedFun".spec_bytes()) {
                    text_is(r, "Pipes2".spec_bytes())
                } else {
                    text_is(r, "Pipes1".spec_bytes())
                }
            } else {
                r.same(&t)
            },
        (forall|t: FStr| !slot_has_name(root.0@, "CurrentLevel".spec_bytes(), t)) ==> text_is(
            r,
            "Level0".spec_bytes(),
        ),
{
    let level = match find_slot(root, "CurrentLevel") {
        Some(i) => match &root.0[i].1.inner {
            PropertyInner::Name(t) => {
                assert(slot_has_name(root.0@, "CurrentLevel".spec_bytes(), *t));
                Some(t)
            },
            _ => None,
        },
        None => None,
    };
    match level {
        None => {
            proof {
                assert forall|t: FStr| !slot_has_name(root.0@, "CurrentLevel".spec_bytes(), t) by {
                    if slot_has_name(root.0@, "CurrentLevel".spec_bytes(), t) {
                        let i = choose|i: int|
                            first_slot(root.0@, "CurrentLevel".spec_bytes(), i) && root.0@[i].1.inner
                                == PropertyInner::Name(t);
                    }
                }
            }
            FStr::narrow("Level0")
        },
        Some(t) => {
            if t.is("Pipes") {
                let unlocked = match find_slot(root, "UnlockedFun") {
                    Some(j) => matches!(root.0[j].1.inner, PropertyInner::Bool(true)),
                    None => false,
                };
                proof {
                    if slot_is_true(root.0@, "UnlockedFun".spec_bytes()) {
                        let j = choose|j: int|
                            first_slot(root.0@, "UnlockedFun".spec_bytes(), j) && root.0@[j].1.inner
                                == PropertyInner::Bool(true);
                    }
                }
                if unlocked {
                    FStr::narrow("Pipes2")
                } else {
                    FStr::narrow("Pipes1")
                }
            } else {
                t.copy()
            }
        },
    }
}

/// `needle` occurs in `hay`.
pub open spec fn contains_bytes(hay: Seq<u8>, needle: Seq<u8>) -> bool {
    exists|k: int| 0 <= k && k + needle.len() <= hay.len() && #[trigger] hay.subrange(k, k + needle.len()) == needle
}

fn find_bytes(hay: &[u8], needle: &[u8]) -> (r: bool)
    ensures
        r == contains_bytes(hay@, needle@),
{
    if needle.len() > hay.len() {
        return false;
    }
    let last = hay.len() - needle.len();
    let mut k: usize = 0;
    while k <= last
        invariant
            last == hay@.len() - needle@.len(),
            hay@.len() <= usize::MAX,
            forall|j: int| 0 <= j < k ==> #[trigger] hay@.subrange(j, j + needle@.len()) != needle@,
        decreases last + 1 - k,
    {
        let mut m: usize = 0;
        let mut same = true;
        while m < needle.len()
            invariant
                k <= last,
                last == hay@.len() - needle@.len(),
                hay@.len() <= usize::MAX,
                m <= needle@.len(),
                same == forall|x: int| 0 <= x < m ==> hay@[k + x] == needle@[x],
            decreases needle@.len() - m,
        {
            if hay[k + m] != needle[m] {
                same = false;
            }
            m += 1;
        }
        if same {
            assert(hay@.subrange(k as int, k + needle@.len()) =~= needle@);
            return true;
        }
        proof {
            let x = choose|x: int| 0 <= x < needle@.len() && hay@[k + x] != needle@[x];
            assert(hay@.subrange(k as int, k + needle@.len())[x] != needle@[x]);
        }
        if k == last {
            return false;
        }
        k += 1;
    }
    false
}

/// The label shown for a stored difficulty: an enum label naming the first,
/// second or third enumerator is easy, hard or nightmare; anything else is normal.
pub open spec fn difficulty_display(inner: PropertyInner) -> Seq<char> {
    match inner {
        PropertyInner::Byte(Byte::Label(t)) => if contains_bytes(
            t.body@,
            "NewEnumerator0".spec_bytes(),
        ) {
            "简单难度"@
        } else if contains_bytes(t.body@, "NewEnumerator1".spec_bytes()) {
            "困难难度"@
        } else if contains_bytes(t.body@, "NewEnumerator2".spec_bytes()) {
            "噩梦难度"@
        } else {
            "普通难度"@
        },
        _ => "普通难度"@,
    }
}

/// The label shown for the difficulty stored in the first entry of slot
/// `Difficulty`; normal where there is none.
pub fn difficulty_label_of(root: &Properties) -> (r: &'static str)
    ensures
        forall|i: int|
            first_slot(root.0@, "Difficulty".spec_bytes(), i) ==> r@ == difficulty_display(
                root.0@[i].1.inner,
            ),
        !has_slot(root.0@, "Difficulty".spec_bytes()) ==> r@ == "普通难度"@,
{
    let label = match find_slot(root, "Difficulty") {
        Some(i) => match &root.0[i].1.inner {
            PropertyInner::Byte(Byte::Label(t)) => t,
            _ => {
                return "普通难度";
            },
        },
        None => {
            return "普通难度";
        },
    };
    let body = label.body.as_slice();
    if find_bytes(body, "NewEnumerator0".as_bytes()) {
        "简单难度"
    } else if find_bytes(body, "NewEnumerator1".as_bytes()) {
        "困难难度"
    } else if find_bytes(body, "NewEnumerator2".as_bytes()) {
        "噩梦难度"
    } else {
        "普通难度"
    }
}

/// The names in the list of visible saves, in order; empty where there is no
/// such list or it is not a list of strings.
pub fn visible_saves(root: &Properties) -> (r: Vec<FStr>)
    ensures
        forall|i: int|
            first_slot(root.0@, "SingleplayerSaves".spec_bytes(), i) && is_str_list(root.0@[i].1)
                ==> r@.len() == list_strings(list_of(root.0@[i].1)).len() && forall|j: int|
                0 <= j < r@.len() ==> (#[trigger] r@[j]).same(&list_strings(list_of(root.0@[i].1))[j]),
        forall|i: int|
            first_slot(root.0@, "SingleplayerSaves".spec_bytes(), i) && !is_str_list(root.0@[i].1)
                ==> r@.len() == 0,
        !has_slot(root.0@, "SingleplayerSaves".spec_bytes()) ==> r@.len() == 0,
{
    let i = match find_slot(root, "SingleplayerSaves") {
        Some(i) => i,
        None => {
            return Vec::new();
        },
    };
    if !matches!(root.0[i].1.tag.data, TagData::Array(ValueType::Str)) {
        return Vec::new();
    }
    let vs = match &root.0[i].1.inner {
        PropertyInner::Array(vs) => vs,
        _ => {
            return Vec::new();
        },
    };
    let mut r: Vec<FStr> = Vec::new();
    let mut j: usize = 0;
    while j < vs.len()
        invariant
            j <= vs@.len(),
            r@.len() == list_strings(vs@.subrange(0, j as int)).len(),
            forall|x: int|
                0 <= x < r@.len() ==> (#[trigger] r@[x]).same(&list_strings(vs@.subrange(0, j as int))[x]),
        decreases vs@.len() - j,
    {
        assert(vs@.subrange(0, j + 1).drop_last() =~= vs@.subrange(0, j as int));
        match &vs[j] {
            PropertyValue::Str(s) => {
                r.push(s.copy());
            },
            _ => {},
        }
        j += 1;
    }
    assert(vs@.subrange(0, vs@.len() as int) =~= vs@);
    r
}

/// The strings of a list, in order, skipping elements of other types.
pub open spec fn list_strings(vs: Seq<PropertyValue>) -> Seq<FStr>
    decreases vs.len(),
{
    if vs.len() == 0 {
        Seq::empty()
    } else {
        match vs.last() {
            PropertyValue::Str(s) => list_strings(vs.drop_last()).push(s),
            _ => list_strings(vs.drop_last()),
        }
    }
}

} // verus!
