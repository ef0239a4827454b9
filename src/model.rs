//! The property tree of a save: length-prefixed engine strings, tags that say
//! how a payload is laid out, the decoded values, and the ordered property bag.

use vstd::prelude::*;
use vstd::string::StringSliceAdditionalSpecFns;

verus! {

/// An engine string as stored on disk: a narrow body (one byte per unit) or a
/// wide one (two bytes per unit), with its terminator kept in `body`. The
/// empty string has an empty body and is narrow.
#[derive(Clone, Debug, PartialEq, Eq)]
pub struct FStr {
    pub wide: bool,
    pub body: Vec<u8>,
}

/// Largest body of a narrow string: its length must fit the signed length prefix.
pub const NARROW_MAX: usize = 0x7fff_ffff;

/// Largest number of two-byte units of a wide string.
pub const WIDE_UNITS_MAX: usize = 0x8000_0000;

impl FStr {
    /// The body fits the length prefix: a wide body is non-empty and made of whole units.
    pub open spec fn wf(&self) -> bool {
        if self.wide {
            &&& self.body@.len() > 0
            &&& self.body@.len() % 2 == 0
            &&& self.body@.len() / 2 <= WIDE_UNITS_MAX
        } else {
            self.body@.len() <= NARROW_MAX
        }
    }

    /// Two strings hold the same text in the same width.
    pub open spec fn same(&self, other: &FStr) -> bool {
        self.wide == other.wide && self.body@ == other.body@
    }

    /// The narrow string whose body is the bytes of `s` and a terminating zero.
    pub fn narrow(s: &str) -> (r: FStr)
        ensures
            !r.wide,
            r.body@ == narrow_body(s.spec_bytes()),
            s.spec_bytes().len() < NARROW_MAX ==> r.wf(),
    {
        let mut body = vstd::slice::slice_to_vec(s.as_bytes());
        body.push(0u8);
        FStr { wide: false, body }
    }


    /// A copy of this string.
    pub fn copy(&self) -> (r: FStr)
        ensures
            r.same(self),
            r.wf() == self.wf(),
    {
        FStr { wide: self.wide, body: vstd::slice::slice_to_vec(self.body.as_slice()) }
    }

    /// Whether the body fits the length prefix.
    pub fn is_wf(&self) -> (r: bool)
        ensures
            r == self.wf(),
    {
        let n = self.body.len();
        if self.wide {
            n > 0 && n % 2 == 0 && n / 2 <= WIDE_UNITS_MAX
        } else {
            n <= NARROW_MAX
        }
    }

    /// Whether `self` holds the same text as `other`, in the same width.
    pub fn same_as(&self, other: &FStr) -> (r: bool)
        ensures
            r == self.same(other),
    {
        self.wide == other.wide && bytes_equal(self.body.as_slice(), other.body.as_slice())
    }

    /// Whether `self` is the narrow string of `s`.
    pub fn is(&self, s: &str) -> (r: bool)
        ensures
            r == (!self.wide && self.body@ == narrow_body(s.spec_bytes())),
    {
        if self.wide {
            return false;
        }
        let b = s.as_bytes();
        let n = self.body.len();
        if n == 0 || n - 1 != b.len() {
            return false;
        }
        if self.body[n - 1] != 0 {
            assert(narrow_body(b@)[n - 1] == 0);
            return false;
        }
        let mut i: usize = 0;
        while i < b.len()
            invariant
                b@ == s.spec_bytes(),
                !self.wide,
                n == b@.len() + 1,
                n == self.body@.len(),
                i <= b@.len(),
                forall|j: int| 0 <= j < i ==> self.body@[j] == b@[j],
            decreases b@.len() - i,
        {
            if self.body[i] != b[i] {
                assert(narrow_body(b@)[i as int] == b@[i as int]);
                return false;
            }
            i += 1;
        }
        assert(self.body@ =~= narrow_body(b@));
        true
    }
}

/// The body of the narrow string of the bytes `b`.
pub open spec fn narrow_body(b: Seq<u8>) -> Seq<u8> {
    b.push(0u8)
}

/// Whether two byte slices are equal.
pub fn bytes_equal(a: &[u8], b: &[u8]) -> (r: bool)
    ensures
        r == (a@ == b@),
{
    if a.len() != b.len() {
        return false;
    }
    let mut i: usize = 0;
    while i < a.len()
        invariant
            a@.len() == b@.len(),
            i <= a@.len(),
            forall|j: int| 0 <= j < i ==> a@[j] == b@[j],
        decreases a@.len() - i,
    {
        if a[i] != b[i] {
            return false;
        }
        i += 1;
    }
    assert(a@ =~= b@);
    true
}

/// A 128-bit identifier, as four 32-bit words.
#[derive(Clone, Copy, Debug, PartialEq, Eq)]
pub struct Guid {
    pub a: u32,
    pub b: u32,
    pub c: u32,
    pub d: u32,
}

impl Guid {
    pub fn nil() -> (r: Guid)
        ensures
            r.a == 0 && r.b == 0 && r.c == 0 && r.d == 0,
    {
        Guid { a: 0, b: 0, c: 0, d: 0 }
    }
}

/// The type of an element of an array, set or map, which has no header of its own.
#[derive(Clone, Debug, PartialEq, Eq)]
pub enum ValueType {
    Bool,
    Byte,
    Int,
    Int64,
    UInt32,
    Float,
    Double,
    Str,
    Name,
    Enum,
    Struct { struct_type: FStr, id: Guid },
}

/// How the payload of a property is laid out.
#[derive(Clone, Debug, PartialEq, Eq)]
pub enum TagData {
    Bool,
    /// A byte, backed by the named enum (its payload is then a label) or plain.
    Byte(Option<FStr>),
    Int,
    Int64,
    UInt32,
    Float,
    Double,
    Str,
    Name,
    Enum(FStr),
    Struct { struct_type: FStr, id: Guid },
    Array(ValueType),
    SetOf(ValueType),
    MapOf { key_type: ValueType, value_type: ValueType },
}

/// A property's tag: its layout and the optional property identifier.
#[derive(Clone, Debug, PartialEq, Eq)]
pub struct PropertyTag {
    pub id: Option<Guid>,
    pub data: TagData,
}

/// The payload of a byte property.
#[derive(Clone, Debug, PartialEq, Eq)]
pub enum Byte {
    Value(u8),
    Label(FStr),
}

/// A struct value: a bag of named fields, or one of the shapes with a fixed layout.
#[derive(Debug, PartialEq, Eq)]
pub enum StructValue {
    /// Three single-precision coordinates, kept as their bit patterns.
    Vector { x: u32, y: u32, z: u32 },
    Guid(Guid),
    /// Ticks of 100 ns since year 1.
    DateTime(u64),
    Struct(Properties),
}

/// A value without name or tag of its own: an element of an array, set or map.
/// Floating-point values are kept as their bit patterns.
#[derive(Debug, PartialEq, Eq)]
pub enum PropertyValue {
    Bool(bool),
    Byte(u8),
    Int(i32),
    Int64(i64),
    UInt32(u32),
    Float(u32),
    Double(u64),
    Str(FStr),
    Name(FStr),
    Enum(FStr),
    Struct(StructValue),
}

#[derive(Debug, PartialEq, Eq)]
pub struct MapEntry {
    pub key: PropertyValue,
    pub value: PropertyValue,
}

/// The decoded payload of a property. Floating-point values are kept as their bit patterns.
#[derive(Debug, PartialEq, Eq)]
pub enum PropertyInner {
    Bool(bool),
    Byte(Byte),
    Int(i32),
    Int64(i64),
    UInt32(u32),
    Float(u32),
    Double(u64),
    Str(FStr),
    Name(FStr),
    Enum(FStr),
    Struct(StructValue),
    Array(Vec<PropertyValue>),
    SetOf(Vec<PropertyValue>),
    /// Entries in the order they were read; equal keys are kept.
    MapOf(Vec<MapEntry>),
}

#[derive(Debug, PartialEq, Eq)]
pub struct Property {
    pub tag: PropertyTag,
    pub inner: PropertyInner,
}

/// The slot of a property in a bag: its array index and its name.
#[derive(Clone, Debug, PartialEq, Eq)]
pub struct PropertyKey(pub u32, pub FStr);

/// An ordered bag of properties: entries keep the order in which they were
/// read or inserted.
#[derive(Debug, PartialEq, Eq)]
pub struct Properties(pub Vec<(PropertyKey, Property)>);

/// A whole save: the engine header kept verbatim, the save-game class name,
/// the root bag, and whatever bytes follow it, kept verbatim too.
#[derive(Debug, PartialEq, Eq)]
pub struct Save {
    pub header: Vec<u8>,
    pub save_game_type: FStr,
    pub root: Properties,
    pub extra: Vec<u8>,
}

} // verus!
