//! The parsed schema description that a file descriptor is built from: the
//! messages, enums and fields of one schema unit, as a schema source hands
//! them over.
use vstd::prelude::*;

verus! {

/// How many values a field may hold.
#[derive(Clone, Copy, Debug, PartialEq, Eq, Structural)]
pub enum Label {
    Optional,
    Required,
    Repeated,
}

/// The declared wire type of a field.
#[derive(Clone, Copy, Debug, PartialEq, Eq, Structural)]
pub enum FieldProtoType {
    Double,
    Float,
    Int64,
    Uint64,
    Int32,
    Fixed64,
    Fixed32,
    Bool,
    String,
    Message,
    Bytes,
    Uint32,
    Enum,
    Sfixed32,
    Sfixed64,
    Sint32,
    Sint64,
}

/// One declared field.
#[derive(Debug)]
pub struct FieldProto {
    pub name: String,
    /// The JSON name, when the schema gives one; otherwise it is derived
    /// from `name`.
    pub json_name: Option<String>,
    pub number: i32,
    pub label: Label,
    pub typ: FieldProtoType,
    /// For message and enum fields: the fully qualified name of the type,
    /// with a leading dot (`.pkg.Outer.Inner`).
    pub type_ref: String,
    /// The position of the oneof this field belongs to, if any.
    pub oneof_index: Option<usize>,
}

/// One declared enum value.
#[derive(Debug)]
pub struct EnumValueProto {
    pub name: String,
    pub number: i32,
}

/// One declared enum.
#[derive(Debug)]
pub struct EnumProto {
    pub name: String,
    pub values: Vec<EnumValueProto>,
}

/// One declared message, with the types nested in it.
#[derive(Debug)]
pub struct MessageProto {
    pub name: String,
    pub fields: Vec<FieldProto>,
    pub nested_types: Vec<MessageProto>,
    pub enum_types: Vec<EnumProto>,
    /// Names of the oneofs, by position.
    pub oneof_decl: Vec<String>,
    /// Number of extensions declared inside the message.
    pub extension_count: usize,
    /// The `map_entry` option.
    pub map_entry: bool,
}

/// One schema unit.
#[derive(Debug)]
pub struct FileProto {
    pub name: String,
    pub package: String,
    pub messages: Vec<MessageProto>,
    pub enums: Vec<EnumProto>,
}

/// The largest field number the format allows.
pub const MAX_FIELD_NUMBER: i32 = 536_870_911;

/// The shape of a map-entry message: exactly the two singular fields
/// `key = 1` and `value = 2`, and nothing nested or extended.
pub open spec fn is_map_entry_shape(m: MessageProto) -> bool {
    &&& m.fields@.len() == 2
    &&& m.fields@[0].name@ == seq!['k', 'e', 'y']
    &&& m.fields@[0].number == 1
    &&& m.fields@[0].label == Label::Optional
    &&& m.fields@[1].name@ == seq!['v', 'a', 'l', 'u', 'e']
    &&& m.fields@[1].number == 2
    &&& m.fields@[1].label == Label::Optional
    &&& m.nested_types@.len() == 0
    &&& m.enum_types@.len() == 0
    &&& m.extension_count == 0
}

/// Whether a string is exactly the given literal characters.
pub(crate) fn str_is(s: &str, lit: &str) -> (r: bool)
    ensures
        r == (s@ == lit@),
{
    let n = s.unicode_len();
    if n != lit.unicode_len() {
        return false;
    }
    let mut i: usize = 0;
    while i < n
        invariant
            n == s@.len(),
            n == lit@.len(),
            i <= n,
            forall|j: int| 0 <= j < i ==> s@[j] == lit@[j],
        decreases n - i,
    {
        if s.get_char(i) != lit.get_char(i) {
            return false;
        }
        i = i + 1;
    }
    assert(s@ =~= lit@);
    true
}

impl MessageProto {
    /// Whether this message has the map-entry shape.
    pub fn has_map_entry_shape(&self) -> (r: bool)
        ensures
            r == is_map_entry_shape(*self),
    {
        if self.fields.len() != 2 || self.nested_types.len() != 0 || self.enum_types.len() != 0
            || self.extension_count != 0 {
            return false;
        }
        let k = &self.fields[0];
        let v = &self.fields[1];
        proof {
            reveal_strlit("key");
            reveal_strlit("value");
            assert("key"@ =~= seq!['k', 'e', 'y']);
            assert("value"@ =~= seq!['v', 'a', 'l', 'u', 'e']);
        }
        str_is(k.name.as_str(), "key") && k.number == 1 && k.label == Label::Optional
            && str_is(v.name.as_str(), "value") && v.number == 2 && v.label == Label::Optional
    }
}

} // verus!
