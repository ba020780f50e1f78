//! The index of a schema unit: messages and enums flattened depth-first,
//! field types resolved to positions, and per-message field tables.
use vstd::prelude::*;
use crate::schema::{
    is_map_entry_shape, EnumProto, FieldProto, FieldProtoType, FileProto, Label, MessageProto,
    MAX_FIELD_NUMBER,
};

verus! {

/// Appends one character to a string.
///
/// Relies on `String::push`: the string grows by exactly that character.
#[verifier::external_body]
pub(crate) fn push_char(s: &mut String, c: char)
    ensures
        final(s)@ == old(s)@.push(c),
{
    s.push(c);
}

/// The ASCII upper-case form of a character; other characters are kept.
pub open spec fn ascii_upper(c: char) -> char {
    if 'a' <= c && c <= 'z' {
        ((c as u32) - 32) as char
    } else {
        c
    }
}

/// The JSON name derived from a field name: underscores are dropped and the
/// character after an underscore is upper-cased.
pub open spec fn json_name_from(s: Seq<char>, upper_next: bool) -> Seq<char>
    decreases s.len(),
{
    if s.len() == 0 {
        seq![]
    } else if s[0] == '_' {
        json_name_from(s.drop_first(), true)
    } else {
        let c = if upper_next { ascii_upper(s[0]) } else { s[0] };
        seq![c] + json_name_from(s.drop_first(), false)
    }
}

pub open spec fn json_name_of(name: Seq<char>) -> Seq<char> {
    json_name_from(name, false)
}

proof fn lemma_json_name_step(s: Seq<char>, i: int, upper_next: bool)
    requires
        0 <= i < s.len(),
    ensures
        json_name_from(s.subrange(i, s.len() as int), upper_next) == if s[i] == '_' {
            json_name_from(s.subrange(i + 1, s.len() as int), true)
        } else {
            seq![if upper_next { ascii_upper(s[i]) } else { s[i] }] + json_name_from(
                s.subrange(i + 1, s.len() as int),
                false,
            )
        },
{
    assert(s.subrange(i, s.len() as int).drop_first() =~= s.subrange(i + 1, s.len() as int));
}

fn to_ascii_upper(c: char) -> (r: char)
    ensures
        r == ascii_upper(c),
{
    if 'a' <= c && c <= 'z' {
        let u: u8 = (c as u8) - 32;
        u as char
    } else {
        c
    }
}

/// Derives the JSON name of a field from its name.
pub fn json_name(name: &str) -> (r: String)
    ensures
        r@ == json_name_of(name@),
{
    let n = name.unicode_len();
    let mut r = String::new();
    let mut upper_next = false;
    let mut i: usize = 0;
    proof {
        assert(name@.subrange(0, n as int) =~= name@);
        assert(r@ + json_name_of(name@) =~= json_name_of(name@));
    }
    while i < n
        invariant
            n == name@.len(),
            i <= n,
            r@ + json_name_from(name@.subrange(i as int, n as int), upper_next) == json_name_of(
                name@,
            ),
        decreases n - i,
    {
        let c = name.get_char(i);
        proof {
            lemma_json_name_step(name@, i as int, upper_next);
        }
        if c == '_' {
            upper_next = true;
        } else {
            let d = if upper_next { to_ascii_upper(c) } else { c };
            proof {
                assert(r@.push(d) + json_name_from(name@.subrange(i + 1, n as int), false) =~= r@
                    + (seq![d] + json_name_from(name@.subrange(i + 1, n as int), false)));
            }
            push_char(&mut r, d);
            upper_next = false;
        }
        i = i + 1;
    }
    proof {
        assert(name@.subrange(n as int, n as int) =~= Seq::<char>::empty());
        assert(name@.subrange(0, n as int) =~= name@);
        assert(r@ + Seq::<char>::empty() =~= r@);
    }
    r
}


pub open spec fn opt_int(p: Option<usize>) -> Option<int> {
    match p {
        Some(x) => Some(x as int),
        None => None,
    }
}

/// One message of the depth-first order: its declaration, its fully
/// qualified name, and the position of the message it is nested in.
pub struct FlatMessage<'a> {
    pub proto: &'a MessageProto,
    pub full_name: String,
    pub parent: Option<usize>,
}

/// The depth-first order of `ms[i..]` and everything nested in them: each
/// message comes before its nested messages, which come before its next
/// sibling. `prefix` is what each full name starts with, `base` the
/// position of the first entry.
pub open spec fn flat_from(
    ms: Seq<MessageProto>,
    i: int,
    prefix: Seq<char>,
    parent: Option<int>,
    base: int,
) -> Seq<(MessageProto, Seq<char>, Option<int>)>
    decreases ms, ms.len() - i,
{
    if i < 0 || i >= ms.len() {
        seq![]
    } else {
        let m = ms[i];
        let full = prefix + m.name@;
        let inner = flat_from(m.nested_types@, 0, full + seq!['.'], Some(base), base + 1);
        seq![(m, full, parent)] + inner + flat_from(ms, i + 1, prefix, parent, base + 1 + inner.len())
    }
}

pub open spec fn entry_matches(e: FlatMessage, f: (MessageProto, Seq<char>, Option<int>)) -> bool {
    &&& *e.proto == f.0
    &&& e.full_name@ == f.1
    &&& opt_int(e.parent) == f.2
}

/// `out` is `before` followed by entries that match `f`, one for one.
pub open spec fn flat_matches(
    out: Seq<FlatMessage>,
    before: Seq<FlatMessage>,
    f: Seq<(MessageProto, Seq<char>, Option<int>)>,
) -> bool {
    &&& out.len() == before.len() + f.len()
    &&& forall|k: int| 0 <= k < before.len() ==> out[k] == before[k]
    &&& forall|k: int| 0 <= k < f.len() ==> entry_matches(#[trigger] out[before.len() + k], f[k])
}

fn flatten_from<'a>(
    ms: &'a Vec<MessageProto>,
    i: usize,
    prefix: &String,
    parent: Option<usize>,
    out: &mut Vec<FlatMessage<'a>>,
)
    requires
        i <= ms@.len(),
    ensures
        flat_matches(
            final(out)@,
            old(out)@,
            flat_from(ms@, i as int, prefix@, opt_int(parent), old(out)@.len() as int),
        ),
    decreases ms@, ms@.len() - i,
{
    if i >= ms.len() {
        return;
    }
    let m = &ms[i];
    let full = prefix.clone().concat(m.name.as_str());
    let here = out.len();
    out.push(FlatMessage { proto: m, full_name: full.clone(), parent });
    proof {
        reveal_strlit(".");
    }
    let nested_prefix = full.concat(".");
    assert(nested_prefix@ =~= full@ + seq!['.']);
    let ghost o1 = out@;
    flatten_from(&m.nested_types, 0, &nested_prefix, Some(here), out);
    let ghost o2 = out@;
    flatten_from(ms, i + 1, prefix, parent, out);
    proof {
        let f = flat_from(ms@, i as int, prefix@, opt_int(parent), here as int);
        let inner = flat_from(m.nested_types@, 0, full@ + seq!['.'], Some(here as int), here + 1);
        let rest = flat_from(ms@, i + 1, prefix@, opt_int(parent), here + 1 + inner.len());
        assert(f == seq![(*m, full@, opt_int(parent))] + inner + rest);
        assert forall|k: int| 0 <= k < f.len() implies entry_matches(#[trigger] out@[here + k], f[k]) by {
            if k == 0 {
            } else if k < 1 + inner.len() {
                assert(o2[here + 1 + (k - 1)] == out@[here + k]);
            } else {
                assert(out@[here + 1 + inner.len() + (k - 1 - inner.len())] == out@[here + k]);
            }
        }
    }
}


/// The element type of a field: a scalar kind, or the position of an enum
/// or a message in the file's depth-first order.
#[derive(Clone, Copy, Debug, PartialEq, Eq, Structural)]
pub enum ElemType {
    I32,
    I64,
    U32,
    U64,
    F32,
    F64,
    Bool,
    String,
    Bytes,
    Enum(usize),
    Message(usize),
}

/// Whether a field holds one value, a sequence of values, or a map.
#[derive(Clone, Copy, Debug, PartialEq, Eq, Structural)]
pub enum FieldKind {
    Singular,
    Repeated,
    Mapped(ElemType, ElemType),
}

/// A field as the index holds it.
#[derive(Debug)]
pub struct FieldIndex {
    pub name: String,
    pub json_name: String,
    pub number: u32,
    pub label: Label,
    pub elem: ElemType,
    pub kind: FieldKind,
    pub oneof: Option<usize>,
}

/// A message as the index holds it.
#[derive(Debug)]
pub struct MessageIndex {
    pub name: String,
    pub full_name: String,
    pub fields: Vec<FieldIndex>,
    pub oneofs: Vec<String>,
    /// Positions of the messages declared directly inside this one.
    pub nested_messages: Vec<usize>,
    /// Position of the first enum declared directly inside this one.
    pub first_enum: usize,
    pub enum_count: usize,
    pub parent: Option<usize>,
    pub map_entry: bool,
}

/// One enum value as the index holds it.
#[derive(Debug)]
pub struct EnumValueIndex {
    pub name: String,
    pub number: i32,
}

/// An enum as the index holds it.
#[derive(Debug)]
pub struct EnumIndex {
    pub name: String,
    pub full_name: String,
    pub values: Vec<EnumValueIndex>,
}

/// The index of one schema unit.
#[derive(Debug)]
pub struct FileIndex {
    pub name: String,
    pub package: String,
    pub messages: Vec<MessageIndex>,
    pub enums: Vec<EnumIndex>,
}

/// What a schema unit can be refused for. Positions are those of the
/// depth-first order of messages, and of the field within its message.
#[derive(Clone, Copy, Debug, PartialEq, Eq, Structural)]
pub enum SchemaError {
    FieldNumberOutOfRange { message: usize, field: usize },
    UnresolvedType { message: usize, field: usize },
    OneofIndexOutOfRange { message: usize, field: usize },
    RepeatedFieldInOneof { message: usize, field: usize },
    DuplicateFieldNumber { message: usize, field: usize },
    DuplicateFieldName { message: usize, field: usize },
    DuplicateJsonName { message: usize, field: usize },
    MalformedMapEntry { message: usize },
    InvalidMapKey { message: usize, field: usize },
    /// A generated schema unit was given no data for this message.
    MissingGeneratedData { message: usize },
}

pub open spec fn package_prefix(package: Seq<char>) -> Seq<char> {
    if package.len() == 0 {
        seq![]
    } else {
        package + seq!['.']
    }
}

/// The messages of a file in depth-first order.
pub open spec fn flat_messages(file: FileProto) -> Seq<(MessageProto, Seq<char>, Option<int>)> {
    flat_from(file.messages@, 0, package_prefix(file.package@), None, 0)
}

/// The enums declared directly in the first `i` messages of `flat`, with
/// their full names.
pub open spec fn nested_enums_upto(
    flat: Seq<(MessageProto, Seq<char>, Option<int>)>,
    i: int,
) -> Seq<(EnumProto, Seq<char>)>
    decreases i,
{
    if i <= 0 {
        seq![]
    } else {
        nested_enums_upto(flat, i - 1) + flat[i - 1].0.enum_types@.map_values(
            |e: EnumProto| (e, flat[i - 1].1 + seq!['.'] + e.name@),
        )
    }
}

/// The enums of a file: those declared at top level, then those declared in
/// each message, in the depth-first order of messages.
pub open spec fn flat_enums(file: FileProto) -> Seq<(EnumProto, Seq<char>)> {
    file.enums@.map_values(|e: EnumProto| (e, package_prefix(file.package@) + e.name@))
        + nested_enums_upto(flat_messages(file), flat_messages(file).len() as int)
}

/// The first position at or after `from` whose name, after a leading dot,
/// is `t`.
pub open spec fn find_dotted(names: Seq<Seq<char>>, t: Seq<char>, from: int) -> Option<int>
    decreases names.len() - from,
{
    if from < 0 || from >= names.len() {
        None
    } else if seq!['.'] + names[from] == t {
        Some(from)
    } else {
        find_dotted(names, t, from + 1)
    }
}

pub open spec fn scalar_elem(t: FieldProtoType) -> Option<ElemType> {
    match t {
        FieldProtoType::Int32 | FieldProtoType::Sint32 | FieldProtoType::Sfixed32 => Some(
            ElemType::I32,
        ),
        FieldProtoType::Int64 | FieldProtoType::Sint64 | FieldProtoType::Sfixed64 => Some(
            ElemType::I64,
        ),
        FieldProtoType::Uint32 | FieldProtoType::Fixed32 => Some(ElemType::U32),
        FieldProtoType::Uint64 | FieldProtoType::Fixed64 => Some(ElemType::U64),
        FieldProtoType::Float => Some(ElemType::F32),
        FieldProtoType::Double => Some(ElemType::F64),
        FieldProtoType::Bool => Some(ElemType::Bool),
        FieldProtoType::String => Some(ElemType::String),
        FieldProtoType::Bytes => Some(ElemType::Bytes),
        FieldProtoType::Message | FieldProtoType::Enum => None,
    }
}

/// The element type a field resolves to, given the full names of the
/// file's messages and enums; `None` when its type name resolves to nothing.
pub open spec fn elem_spec(f: FieldProto, msgs: Seq<Seq<char>>, enums: Seq<Seq<char>>) -> Option<
    ElemType,
> {
    match f.typ {
        FieldProtoType::Message => match find_dotted(msgs, f.type_ref@, 0) {
            Some(j) => Some(ElemType::Message(j as usize)),
            None => None,
        },
        FieldProtoType::Enum => match find_dotted(enums, f.type_ref@, 0) {
            Some(j) => Some(ElemType::Enum(j as usize)),
            None => None,
        },
        _ => scalar_elem(f.typ),
    }
}

pub open spec fn valid_map_key(e: ElemType) -> bool {
    match e {
        ElemType::I32 | ElemType::I64 | ElemType::U32 | ElemType::U64 | ElemType::Bool
        | ElemType::String => true,
        _ => false,
    }
}

pub open spec fn field_json_name(f: FieldProto) -> Seq<char> {
    match f.json_name {
        Some(s) => s@,
        None => json_name_of(f.name@),
    }
}


pub open spec fn message_names(file: FileProto) -> Seq<Seq<char>> {
    flat_messages(file).map_values(|e: (MessageProto, Seq<char>, Option<int>)| e.1)
}

pub open spec fn enum_names(file: FileProto) -> Seq<Seq<char>> {
    flat_enums(file).map_values(|e: (EnumProto, Seq<char>)| e.1)
}

/// The declaration of field `j` of message `i`.
pub open spec fn field_proto(file: FileProto, i: int, j: int) -> FieldProto {
    flat_messages(file)[i].0.fields@[j]
}

/// The element type field `j` of message `i` resolves to.
pub open spec fn field_elem(file: FileProto, i: int, j: int) -> Option<ElemType> {
    elem_spec(field_proto(file, i, j), message_names(file), enum_names(file))
}

/// The kind of a field whose element type is `elem`: a repeated field of a
/// map-entry message is a map, keyed and valued by the entry's two fields;
/// `None` when such an entry's key or value type is unusable.
pub open spec fn kind_spec(file: FileProto, f: FieldProto, elem: ElemType) -> Option<FieldKind> {
    if f.label != Label::Repeated {
        Some(FieldKind::Singular)
    } else {
        match elem {
            ElemType::Message(t) => if t < flat_messages(file).len() && is_map_entry_shape(
                flat_messages(file)[t as int].0,
            ) {
                match (field_elem(file, t as int, 0), field_elem(file, t as int, 1)) {
                    (Some(k), Some(v)) => if valid_map_key(k) {
                        Some(FieldKind::Mapped(k, v))
                    } else {
                        None
                    },
                    _ => None,
                }
            } else {
                Some(FieldKind::Repeated)
            },
            _ => Some(FieldKind::Repeated),
        }
    }
}

pub open spec fn field_ok(file: FileProto, i: int, j: int) -> bool {
    let m = flat_messages(file)[i].0;
    let f = field_proto(file, i, j);
    &&& 1 <= f.number <= MAX_FIELD_NUMBER
    &&& field_elem(file, i, j) is Some
    &&& (f.oneof_index matches Some(o) ==> o < m.oneof_decl@.len() && f.label != Label::Repeated)
    &&& kind_spec(file, f, field_elem(file, i, j)->0) is Some
    &&& forall|k: int|
        0 <= k < j ==> {
            &&& (#[trigger] field_proto(file, i, k)).number != f.number
            &&& field_proto(file, i, k).name@ != f.name@
            &&& field_json_name(field_proto(file, i, k)) != field_json_name(f)
            &&& field_proto(file, i, k).name@ != field_json_name(f)
            &&& field_json_name(field_proto(file, i, k)) != f.name@
        }
}

pub open spec fn message_ok(file: FileProto, i: int) -> bool {
    let m = flat_messages(file)[i].0;
    &&& m.map_entry ==> is_map_entry_shape(m)
    &&& forall|j: int| 0 <= j < m.fields@.len() ==> field_ok(file, i, j)
}

/// A schema unit is accepted when every field number is in range and unique
/// in its message, names and JSON names are unique in their message, every
/// type name resolves, oneof references are in range and not repeated, map
/// entries have the entry shape, and map keys have a usable type.
pub open spec fn valid_file(file: FileProto) -> bool {
    forall|i: int| 0 <= i < flat_messages(file).len() ==> message_ok(file, i)
}

pub open spec fn field_at(file: FileProto, message: usize, field: usize) -> bool {
    &&& message < flat_messages(file).len()
    &&& field < flat_messages(file)[message as int].0.fields@.len()
}

/// The defect that an error names is there.
pub open spec fn error_holds(file: FileProto, e: SchemaError) -> bool {
    match e {
        SchemaError::FieldNumberOutOfRange { message, field } => field_at(file, message, field)
            && !(1 <= field_proto(file, message as int, field as int).number <= MAX_FIELD_NUMBER),
        SchemaError::UnresolvedType { message, field } => field_at(file, message, field)
            && field_elem(file, message as int, field as int) is None,
        SchemaError::OneofIndexOutOfRange { message, field } => field_at(file, message, field)
            && match field_proto(file, message as int, field as int).oneof_index {
            Some(o) => o >= flat_messages(file)[message as int].0.oneof_decl@.len(),
            None => false,
        },
        SchemaError::RepeatedFieldInOneof { message, field } => field_at(file, message, field)
            && field_proto(file, message as int, field as int).oneof_index is Some
            && field_proto(file, message as int, field as int).label == Label::Repeated,
        SchemaError::DuplicateFieldNumber { message, field } => field_at(file, message, field)
            && exists|k: int|
            0 <= k < field && (#[trigger] field_proto(file, message as int, k)).number
                == field_proto(file, message as int, field as int).number,
        SchemaError::DuplicateFieldName { message, field } => field_at(file, message, field)
            && exists|k: int|
            0 <= k < field && (#[trigger] field_proto(file, message as int, k)).name@
                == field_proto(file, message as int, field as int).name@,
        SchemaError::DuplicateJsonName { message, field } => field_at(file, message, field)
            && exists|k: int|
            0 <= k < field && {
                let a = #[trigger] field_proto(file, message as int, k);
                let b = field_proto(file, message as int, field as int);
                field_json_name(a) == field_json_name(b) || a.name@ == field_json_name(b) || field_json_name(a) == b.name@
            },
        SchemaError::MalformedMapEntry { message } => message < flat_messages(file).len()
            && flat_messages(file)[message as int].0.map_entry && !is_map_entry_shape(
            flat_messages(file)[message as int].0,
        ),
        SchemaError::InvalidMapKey { message, field } => field_at(file, message, field) && match field_elem(
            file,
            message as int,
            field as int,
        ) {
            Some(e) => kind_spec(file, field_proto(file, message as int, field as int), e) is None,
            None => false,
        },
        SchemaError::MissingGeneratedData { .. } => false,
    }
}


/// Positions among the first `n` messages whose parent is message `i`.
pub open spec fn children_upto(
    flat: Seq<(MessageProto, Seq<char>, Option<int>)>,
    i: int,
    n: int,
) -> Seq<usize>
    decreases n,
{
    if n <= 0 {
        seq![]
    } else if flat[n - 1].2 == Some(i) {
        children_upto(flat, i, n - 1).push((n - 1) as usize)
    } else {
        children_upto(flat, i, n - 1)
    }
}

pub open spec fn field_matches(file: FileProto, i: int, j: int, fi: FieldIndex) -> bool {
    let f = field_proto(file, i, j);
    &&& fi.name@ == f.name@
    &&& fi.json_name@ == field_json_name(f)
    &&& fi.number == f.number as u32
    &&& fi.label == f.label
    &&& fi.oneof == f.oneof_index
    &&& field_elem(file, i, j) == Some(fi.elem)
    &&& kind_spec(file, f, fi.elem) == Some(fi.kind)
}

pub open spec fn message_matches(file: FileProto, i: int, mi: MessageIndex) -> bool {
    let flat = flat_messages(file);
    let m = flat[i].0;
    &&& mi.name@ == m.name@
    &&& mi.full_name@ == flat[i].1
    &&& opt_int(mi.parent) == flat[i].2
    &&& mi.map_entry == is_map_entry_shape(m)
    &&& mi.oneofs@.len() == m.oneof_decl@.len()
    &&& forall|k: int| 0 <= k < mi.oneofs@.len() ==> (#[trigger] mi.oneofs@[k])@ == m.oneof_decl@[k]@
    &&& mi.first_enum == file.enums@.len() + nested_enums_upto(flat, i).len()
    &&& mi.enum_count == m.enum_types@.len()
    &&& mi.nested_messages@ == children_upto(flat, i, flat.len() as int)
    &&& mi.fields@.len() == m.fields@.len()
    &&& forall|j: int| 0 <= j < mi.fields@.len() ==> field_matches(file, i, j, #[trigger] mi.fields@[j])
}

pub open spec fn enum_matches(e: EnumIndex, p: (EnumProto, Seq<char>)) -> bool {
    &&& e.name@ == p.0.name@
    &&& e.full_name@ == p.1
    &&& e.values@.len() == p.0.values@.len()
    &&& forall|k: int|
        0 <= k < e.values@.len() ==> (#[trigger] e.values@[k]).name@ == p.0.values@[k].name@
            && e.values@[k].number == p.0.values@[k].number
}

/// The index holds exactly what the schema unit declares, in depth-first
/// order, with every type name resolved.
pub open spec fn index_matches(file: FileProto, idx: FileIndex) -> bool {
    &&& idx.name@ == file.name@
    &&& idx.package@ == file.package@
    &&& idx.messages@.len() == flat_messages(file).len()
    &&& forall|i: int|
        0 <= i < idx.messages@.len() ==> message_matches(file, i, #[trigger] idx.messages@[i])
    &&& idx.enums@.len() == flat_enums(file).len()
    &&& forall|k: int| 0 <= k < idx.enums@.len() ==> enum_matches(#[trigger] idx.enums@[k], flat_enums(file)[k])
}

fn find_name(names: &Vec<String>, t: &String, Ghost(plain): Ghost<Seq<Seq<char>>>) -> (r: Option<
    usize,
>)
    requires
        names@.len() == plain.len(),
        forall|k: int| 0 <= k < plain.len() ==> (#[trigger] names@[k])@ == seq!['.'] + plain[k],
    ensures
        opt_int(r) == find_dotted(plain, t@, 0),
{
    let mut k: usize = 0;
    while k < names.len()
        invariant
            k <= names@.len(),
            names@.len() == plain.len(),
            forall|q: int| 0 <= q < plain.len() ==> (#[trigger] names@[q])@ == seq!['.'] + plain[q],
            find_dotted(plain, t@, 0) == find_dotted(plain, t@, k as int),
        decreases names@.len() - k,
    {
        if names[k] == *t {
            return Some(k);
        }
        k = k + 1;
    }
    None
}

fn scalar_elem_of(t: FieldProtoType) -> (r: Option<ElemType>)
    ensures
        r == scalar_elem(t),
{
    match t {
        FieldProtoType::Int32 | FieldProtoType::Sint32 | FieldProtoType::Sfixed32 => Some(
            ElemType::I32,
        ),
        FieldProtoType::Int64 | FieldProtoType::Sint64 | FieldProtoType::Sfixed64 => Some(
            ElemType::I64,
        ),
        FieldProtoType::Uint32 | FieldProtoType::Fixed32 => Some(ElemType::U32),
        FieldProtoType::Uint64 | FieldProtoType::Fixed64 => Some(ElemType::U64),
        FieldProtoType::Float => Some(ElemType::F32),
        FieldProtoType::Double => Some(ElemType::F64),
        FieldProtoType::Bool => Some(ElemType::Bool),
        FieldProtoType::String => Some(ElemType::String),
        FieldProtoType::Bytes => Some(ElemType::Bytes),
        FieldProtoType::Message | FieldProtoType::Enum => None,
    }
}

fn resolve(
    f: &FieldProto,
    msgs: &Vec<String>,
    enums: &Vec<String>,
    Ghost(mn): Ghost<Seq<Seq<char>>>,
    Ghost(en): Ghost<Seq<Seq<char>>>,
) -> (r: Option<ElemType>)
    requires
        msgs@.len() == mn.len(),
        forall|k: int| 0 <= k < mn.len() ==> (#[trigger] msgs@[k])@ == seq!['.'] + mn[k],
        enums@.len() == en.len(),
        forall|k: int| 0 <= k < en.len() ==> (#[trigger] enums@[k])@ == seq!['.'] + en[k],
    ensures
        r == elem_spec(*f, mn, en),
{
    match f.typ {
        FieldProtoType::Message => match find_name(msgs, &f.type_ref, Ghost(mn)) {
            Some(j) => Some(ElemType::Message(j)),
            None => None,
        },
        FieldProtoType::Enum => match find_name(enums, &f.type_ref, Ghost(en)) {
            Some(j) => Some(ElemType::Enum(j)),
            None => None,
        },
        _ => scalar_elem_of(f.typ),
    }
}

fn is_valid_map_key(e: ElemType) -> (r: bool)
    ensures
        r == valid_map_key(e),
{
    match e {
        ElemType::I32 | ElemType::I64 | ElemType::U32 | ElemType::U64 | ElemType::Bool
        | ElemType::String => true,
        _ => false,
    }
}

/// `"." + s`.
fn dotted(s: &String) -> (r: String)
    ensures
        r@ == seq!['.'] + s@,
{
    proof {
        reveal_strlit(".");
    }
    let r = String::from_str(".").concat(s.as_str());
    assert(r@ =~= seq!['.'] + s@);
    r
}

/// `s + "." + t`.
fn join_dot(s: &String, t: &String) -> (r: String)
    ensures
        r@ == s@ + seq!['.'] + t@,
{
    proof {
        reveal_strlit(".");
    }
    let r = s.clone().concat(".").concat(t.as_str());
    assert(r@ =~= s@ + seq!['.'] + t@);
    r
}


proof fn lemma_find_dotted_range(names: Seq<Seq<char>>, t: Seq<char>, from: int)
    requires
        0 <= from,
    ensures
        find_dotted(names, t, from) matches Some(j) ==> from <= j < names.len(),
    decreases names.len() - from,
{
    if from < names.len() {
        lemma_find_dotted_range(names, t, from + 1);
    }
}

/// `flat` holds the depth-first order of the file's messages.
pub open spec fn flat_ok(flat: Seq<FlatMessage>, file: FileProto) -> bool {
    &&& flat.len() == flat_messages(file).len()
    &&& forall|k: int| 0 <= k < flat.len() ==> entry_matches(#[trigger] flat[k], flat_messages(file)[k])
}

/// The dotted full names of messages and enums, in order.
pub open spec fn names_ok(msgs: Seq<String>, enums: Seq<String>, file: FileProto) -> bool {
    &&& msgs.len() == message_names(file).len()
    &&& forall|k: int| 0 <= k < msgs.len() ==> (#[trigger] msgs[k])@ == seq!['.'] + message_names(file)[k]
    &&& enums.len() == enum_names(file).len()
    &&& forall|k: int| 0 <= k < enums.len() ==> (#[trigger] enums[k])@ == seq!['.'] + enum_names(file)[k]
}

/// Everything `field_ok` asks of one field but uniqueness.
pub open spec fn field_ok_alone(file: FileProto, i: int, j: int) -> bool {
    let m = flat_messages(file)[i].0;
    let f = field_proto(file, i, j);
    &&& 1 <= f.number <= MAX_FIELD_NUMBER
    &&& field_elem(file, i, j) is Some
    &&& (f.oneof_index matches Some(o) ==> o < m.oneof_decl@.len() && f.label != Label::Repeated)
    &&& kind_spec(file, f, field_elem(file, i, j)->0) is Some
}

fn build_field<'a>(
    file: &FileProto,
    flat: &Vec<FlatMessage<'a>>,
    i: usize,
    j: usize,
    msgs: &Vec<String>,
    enums: &Vec<String>,
) -> (r: Result<FieldIndex, SchemaError>)
    requires
        flat_ok(flat@, *file),
        names_ok(msgs@, enums@, *file),
        i < flat@.len(),
        j < flat@[i as int].proto.fields@.len(),
    ensures
        match r {
            Ok(fi) => field_ok_alone(*file, i as int, j as int) && field_matches(*file, i as int, j as int, fi),
            Err(e) => error_holds(*file, e) && !field_ok_alone(*file, i as int, j as int),
        },
{
    let ghost mn = message_names(*file);
    let ghost en = enum_names(*file);
    assert(entry_matches(flat@[i as int], flat_messages(*file)[i as int]));
    let m = flat[i].proto;
    let f = &m.fields[j];
    if f.number < 1 || f.number > MAX_FIELD_NUMBER {
        return Err(SchemaError::FieldNumberOutOfRange { message: i, field: j });
    }
    let elem = match resolve(f, msgs, enums, Ghost(mn), Ghost(en)) {
        Some(e) => e,
        None => {
            return Err(SchemaError::UnresolvedType { message: i, field: j });
        },
    };
    match f.oneof_index {
        Some(o) => {
            if o >= m.oneof_decl.len() {
                return Err(SchemaError::OneofIndexOutOfRange { message: i, field: j });
            }
            if f.label == Label::Repeated {
                return Err(SchemaError::RepeatedFieldInOneof { message: i, field: j });
            }
        },
        None => {},
    }
    let kind = if f.label != Label::Repeated {
        FieldKind::Singular
    } else {
        match elem {
            ElemType::Message(t) => {
                proof {
                    lemma_find_dotted_range(mn, f.type_ref@, 0);
                }
                assert(entry_matches(flat@[t as int], flat_messages(*file)[t as int]));
                let entry = flat[t].proto;
                if entry.has_map_entry_shape() {
                    let k = resolve(&entry.fields[0], msgs, enums, Ghost(mn), Ghost(en));
                    let v = resolve(&entry.fields[1], msgs, enums, Ghost(mn), Ghost(en));
                    match (k, v) {
                        (Some(k), Some(v)) => {
                            if is_valid_map_key(k) {
                                FieldKind::Mapped(k, v)
                            } else {
                                return Err(SchemaError::InvalidMapKey { message: i, field: j });
                            }
                        },
                        _ => {
                            return Err(SchemaError::InvalidMapKey { message: i, field: j });
                        },
                    }
                } else {
                    FieldKind::Repeated
                }
            },
            _ => FieldKind::Repeated,
        }
    };
    let json = match &f.json_name {
        Some(s) => s.clone(),
        None => json_name(f.name.as_str()),
    };
    Ok(
        FieldIndex {
            name: f.name.clone(),
            json_name: json,
            number: f.number as u32,
            label: f.label,
            elem,
            kind,
            oneof: f.oneof_index,
        },
    )
}


fn children_of<'a>(flat: &Vec<FlatMessage<'a>>, i: usize, Ghost(f): Ghost<
    Seq<(MessageProto, Seq<char>, Option<int>)>,
>) -> (r: Vec<usize>)
    requires
        flat@.len() == f.len(),
        forall|k: int| 0 <= k < f.len() ==> opt_int((#[trigger] flat@[k]).parent) == f[k].2,
    ensures
        r@ == children_upto(f, i as int, f.len() as int),
{
    let mut r: Vec<usize> = Vec::new();
    let mut k: usize = 0;
    while k < flat.len()
        invariant
            k <= flat@.len(),
            flat@.len() == f.len(),
            forall|q: int| 0 <= q < f.len() ==> opt_int((#[trigger] flat@[q]).parent) == f[q].2,
            r@ == children_upto(f, i as int, k as int),
        decreases flat@.len() - k,
    {
        assert(opt_int(flat@[k as int].parent) == f[k as int].2);
        match flat[k].parent {
            Some(p) => {
                if p == i {
                    r.push(k);
                }
            },
            None => {},
        }
        k = k + 1;
    }
    r
}

fn copy_names(names: &Vec<String>) -> (r: Vec<String>)
    ensures
        r@.len() == names@.len(),
        forall|k: int| 0 <= k < r@.len() ==> (#[trigger] r@[k])@ == names@[k]@,
{
    let mut r: Vec<String> = Vec::new();
    let mut k: usize = 0;
    while k < names.len()
        invariant
            k <= names@.len(),
            r@.len() == k,
            forall|q: int| 0 <= q < k ==> (#[trigger] r@[q])@ == names@[q]@,
        decreases names@.len() - k,
    {
        r.push(names[k].clone());
        k = k + 1;
    }
    r
}

fn build_message<'a>(
    file: &FileProto,
    flat: &Vec<FlatMessage<'a>>,
    i: usize,
    msgs: &Vec<String>,
    enums: &Vec<String>,
    first_enum: usize,
) -> (r: Result<MessageIndex, SchemaError>)
    requires
        flat_ok(flat@, *file),
        names_ok(msgs@, enums@, *file),
        i < flat@.len(),
        first_enum == file.enums@.len() + nested_enums_upto(flat_messages(*file), i as int).len(),
    ensures
        match r {
            Ok(mi) => message_ok(*file, i as int) && message_matches(*file, i as int, mi),
            Err(e) => error_holds(*file, e) && !message_ok(*file, i as int),
        },
{
    assert(entry_matches(flat@[i as int], flat_messages(*file)[i as int]));
    let m = flat[i].proto;
    if m.map_entry && !m.has_map_entry_shape() {
        return Err(SchemaError::MalformedMapEntry { message: i });
    }
    let mut fields: Vec<FieldIndex> = Vec::new();
    let mut j: usize = 0;
    while j < m.fields.len()
        invariant
            flat_ok(flat@, *file),
            names_ok(msgs@, enums@, *file),
            i < flat@.len(),
            *m == flat_messages(*file)[i as int].0,
            j <= m.fields@.len(),
            fields@.len() == j,
            forall|q: int| 0 <= q < j ==> field_ok(*file, i as int, q),
            forall|q: int| 0 <= q < j ==> field_matches(*file, i as int, q, #[trigger] fields@[q]),
        decreases m.fields@.len() - j,
    {
        let fi = match build_field(file, flat, i, j, msgs, enums) {
            Ok(fi) => fi,
            Err(e) => {
                proof {
                    if message_ok(*file, i as int) {
                        assert(field_ok(*file, i as int, j as int));
                    }
                }
                return Err(e);
            },
        };
        let mut k: usize = 0;
        while k < j
            invariant
                k <= j,
                i < flat_messages(*file).len(),
                j < m.fields@.len(),
                fields@.len() == j,
                *m == flat_messages(*file)[i as int].0,
                field_matches(*file, i as int, j as int, fi),
                field_ok_alone(*file, i as int, j as int),
                forall|q: int| 0 <= q < j ==> field_ok(*file, i as int, q),
                forall|q: int| 0 <= q < j ==> field_matches(*file, i as int, q, #[trigger] fields@[q]),
                forall|q: int|
                    0 <= q < k ==> {
                        &&& (#[trigger] field_proto(*file, i as int, q)).number != field_proto(*file, i as int, j as int).number
                        &&& field_proto(*file, i as int, q).name@ != field_proto(*file, i as int, j as int).name@
                        &&& field_json_name(field_proto(*file, i as int, q)) != field_json_name(field_proto(*file, i as int, j as int))
                        &&& field_proto(*file, i as int, q).name@ != field_json_name(field_proto(*file, i as int, j as int))
                        &&& field_json_name(field_proto(*file, i as int, q)) != field_proto(*file, i as int, j as int).name@
                    },
            decreases j - k,
        {
            assert(field_matches(*file, i as int, k as int, fields@[k as int]));
            if fields[k].number == fi.number {
                proof {
                    let fk = field_proto(*file, i as int, k as int);
                    assert(field_ok(*file, i as int, k as int));
                    assert(fk.number == field_proto(*file, i as int, j as int).number);
                    if message_ok(*file, i as int) {
                        assert(field_ok(*file, i as int, j as int));
                    }
                }
                return Err(SchemaError::DuplicateFieldNumber { message: i, field: j });
            }
            if fields[k].name == fi.name {
                proof {
                    let fk = field_proto(*file, i as int, k as int);
                    if message_ok(*file, i as int) {
                        assert(field_ok(*file, i as int, j as int));
                    }
                }
                return Err(SchemaError::DuplicateFieldName { message: i, field: j });
            }
            if fields[k].json_name == fi.json_name || fields[k].name == fi.json_name
                || fields[k].json_name == fi.name {
                proof {
                    let fk = field_proto(*file, i as int, k as int);
                    if message_ok(*file, i as int) {
                        assert(field_ok(*file, i as int, j as int));
                    }
                }
                return Err(SchemaError::DuplicateJsonName { message: i, field: j });
            }
            k = k + 1;
        }
        fields.push(fi);
        j = j + 1;
    }
    let oneofs = copy_names(&m.oneof_decl);
    let nested = children_of(flat, i, Ghost(flat_messages(*file)));
    Ok(
        MessageIndex {
            name: m.name.clone(),
            full_name: flat[i].full_name.clone(),
            fields,
            oneofs,
            nested_messages: nested,
            first_enum,
            enum_count: m.enum_types.len(),
            parent: flat[i].parent,
            map_entry: m.has_map_entry_shape(),
        },
    )
}


fn copy_enum(e: &EnumProto, full: String) -> (r: EnumIndex)
    ensures
        enum_matches(r, (*e, full@)),
{
    let mut values: Vec<EnumValueIndex> = Vec::new();
    let mut k: usize = 0;
    while k < e.values.len()
        invariant
            k <= e.values@.len(),
            values@.len() == k,
            forall|q: int|
                0 <= q < k ==> (#[trigger] values@[q]).name@ == e.values@[q].name@
                    && values@[q].number == e.values@[q].number,
        decreases e.values@.len() - k,
    {
        values.push(EnumValueIndex { name: e.values[k].name.clone(), number: e.values[k].number });
        k = k + 1;
    }
    EnumIndex { name: e.name.clone(), full_name: full, values }
}

/// The file's top-level enums, then those of the first `i` messages.
pub open spec fn enums_upto(file: FileProto, i: int) -> Seq<(EnumProto, Seq<char>)> {
    file.enums@.map_values(|e: EnumProto| (e, package_prefix(file.package@) + e.name@))
        + nested_enums_upto(flat_messages(file), i)
}

pub open spec fn enums_ok(enums: Seq<EnumIndex>, dotted: Seq<String>, want: Seq<(EnumProto, Seq<char>)>) -> bool {
    &&& enums.len() == want.len()
    &&& dotted.len() == want.len()
    &&& forall|q: int| 0 <= q < want.len() ==> enum_matches(#[trigger] enums[q], want[q])
    &&& forall|q: int| 0 <= q < want.len() ==> (#[trigger] dotted[q])@ == seq!['.'] + want[q].1
}

impl FileIndex {
    /// Builds the index of a schema unit, or names a defect of it.
    pub fn build(file: &FileProto) -> (r: Result<FileIndex, SchemaError>)
        ensures
            match r {
                Ok(idx) => valid_file(*file) && index_matches(*file, idx),
                Err(e) => !valid_file(*file) && error_holds(*file, e),
            },
    {
        proof {
            reveal_strlit(".");
        }
        let prefix = if file.package.as_str().unicode_len() == 0 {
            String::new()
        } else {
            file.package.clone().concat(".")
        };
        assert(prefix@ =~= package_prefix(file.package@));
        let ghost fm = flat_messages(*file);
        let mut flat: Vec<FlatMessage> = Vec::new();
        flatten_from(&file.messages, 0, &prefix, None, &mut flat);
        assert(flat_ok(flat@, *file)) by {
            assert forall|k: int| 0 <= k < flat@.len() implies entry_matches(#[trigger] flat@[k], fm[k]) by {
                assert(flat@[0 + k] == flat@[k]);
            }
        }
        let n = flat.len();
        let mut msgs: Vec<String> = Vec::new();
        let mut k: usize = 0;
        while k < n
            invariant
                n == flat@.len(),
                flat_ok(flat@, *file),
                k <= n,
                fm == flat_messages(*file),
                msgs@.len() == k,
                forall|q: int| 0 <= q < k ==> (#[trigger] msgs@[q])@ == seq!['.'] + message_names(*file)[q],
            decreases n - k,
        {
            assert(entry_matches(flat@[k as int], fm[k as int]));
            msgs.push(dotted(&flat[k].full_name));
            k = k + 1;
        }
        let mut enums: Vec<EnumIndex> = Vec::new();
        let mut enum_dotted: Vec<String> = Vec::new();
        let ghost top = file.enums@.map_values(|e: EnumProto| (e, package_prefix(file.package@) + e.name@));
        let mut k: usize = 0;
        while k < file.enums.len()
            invariant
                k <= file.enums@.len(),
                prefix@ == package_prefix(file.package@),
                top == file.enums@.map_values(|e: EnumProto| (e, package_prefix(file.package@) + e.name@)),
                enums_ok(enums@, enum_dotted@, top.subrange(0, k as int)),
            decreases file.enums@.len() - k,
        {
            let e = &file.enums[k];
            let full = prefix.clone().concat(e.name.as_str());
            enum_dotted.push(dotted(&full));
            enums.push(copy_enum(e, full));
            k = k + 1;
        }
        assert(top.subrange(0, top.len() as int) =~= top);
        assert(enums_upto(*file, 0) =~= top);
        let mut first_enums: Vec<usize> = Vec::new();
        let mut i: usize = 0;
        while i < n
            invariant
                n == flat@.len(),
                flat_ok(flat@, *file),
                i <= n,
                first_enums@.len() == i,
                forall|q: int|
                    0 <= q < i ==> #[trigger] first_enums@[q] == file.enums@.len()
                        + nested_enums_upto(fm, q).len(),
                fm == flat_messages(*file),
                enums_ok(enums@, enum_dotted@, enums_upto(*file, i as int)),
            decreases n - i,
        {
            assert(entry_matches(flat@[i as int], fm[i as int]));
            assert(enums@.len() == file.enums@.len() + nested_enums_upto(fm, i as int).len());
            first_enums.push(enums.len());
            let m = flat[i].proto;
            let ghost before = enums_upto(*file, i as int);
            let ghost mine = m.enum_types@.map_values(|e: EnumProto| (e, fm[i as int].1 + seq!['.'] + e.name@));
            let mut k: usize = 0;
            while k < m.enum_types.len()
                invariant
                    k <= m.enum_types@.len(),
                    i < n,
                    n == flat@.len(),
                    fm.len() == n,
                    flat@[i as int].full_name@ == fm[i as int].1,
                    mine == m.enum_types@.map_values(|e: EnumProto| (e, fm[i as int].1 + seq!['.'] + e.name@)),
                    enums_ok(enums@, enum_dotted@, before + mine.subrange(0, k as int)),
                decreases m.enum_types@.len() - k,
            {
                let e = &m.enum_types[k];
                let full = join_dot(&flat[i].full_name, &e.name);
                enum_dotted.push(dotted(&full));
                enums.push(copy_enum(e, full));
                proof {
                    assert(before + mine.subrange(0, k + 1) =~= (before + mine.subrange(0, k as int)).push(mine[k as int]));
                }
                k = k + 1;
            }
            proof {
                assert(mine.subrange(0, mine.len() as int) =~= mine);
                assert(enums_upto(*file, i + 1) =~= before + mine);
            }
            i = i + 1;
        }
        assert(enums_upto(*file, n as int) =~= flat_enums(*file));
        assert(names_ok(msgs@, enum_dotted@, *file));
        let mut messages: Vec<MessageIndex> = Vec::new();
        let mut i: usize = 0;
        while i < n
            invariant
                n == flat@.len(),
                flat_ok(flat@, *file),
                names_ok(msgs@, enum_dotted@, *file),
                i <= n,
                first_enums@.len() == n,
                forall|q: int|
                    0 <= q < n ==> #[trigger] first_enums@[q] == file.enums@.len()
                        + nested_enums_upto(fm, q).len(),
                fm == flat_messages(*file),
                messages@.len() == i,
                forall|q: int| 0 <= q < i ==> message_ok(*file, q),
                forall|q: int| 0 <= q < i ==> message_matches(*file, q, #[trigger] messages@[q]),
            decreases n - i,
        {
            match build_message(file, &flat, i, &msgs, &enum_dotted, first_enums[i]) {
                Ok(mi) => {
                    messages.push(mi);
                },
                Err(e) => {
                    return Err(e);
                },
            }
            i = i + 1;
        }
        Ok(FileIndex { name: file.name.clone(), package: file.package.clone(), messages, enums })
    }
}


pub open spec fn elem_in_range(idx: FileIndex, e: ElemType) -> bool {
    match e {
        ElemType::Message(t) => t < idx.messages@.len(),
        ElemType::Enum(k) => k < idx.enums@.len(),
        _ => true,
    }
}

/// What every field of a well-formed index satisfies.
pub open spec fn field_wf(idx: FileIndex, m: MessageIndex, f: FieldIndex) -> bool {
    &&& elem_in_range(idx, f.elem)
    &&& (f.oneof matches Some(o) ==> o < m.oneofs@.len() && f.kind == FieldKind::Singular)
    &&& (f.label == Label::Repeated) == (f.kind != FieldKind::Singular)
    &&& match f.kind {
        FieldKind::Mapped(k, v) => f.elem is Message && valid_map_key(k) && elem_in_range(idx, v),
        _ => true,
    }
}

/// The fields of a map entry: singular `key = 1`, then singular
/// `value = 2`.
pub open spec fn entry_fields_shape(fs: Seq<FieldIndex>) -> bool {
    &&& fs.len() == 2
    &&& fs[0].name@ == seq!['k', 'e', 'y'] && fs[0].number == 1 && fs[0].kind == FieldKind::Singular
    &&& fs[1].name@ == seq!['v', 'a', 'l', 'u', 'e'] && fs[1].number == 2 && fs[1].kind == FieldKind::Singular
}

/// A well-formed index: map entries have the entry fields, references are
/// in range, and within a message the numbers, names and JSON names of
/// fields are unique, and no field is named like another's JSON name.
pub open spec fn index_wf(idx: FileIndex) -> bool {
    forall|i: int|
        0 <= i < idx.messages@.len() ==> {
            let m = #[trigger] idx.messages@[i];
            &&& m.map_entry ==> entry_fields_shape(m.fields@)
            &&& m.first_enum + m.enum_count <= idx.enums@.len()
            &&& forall|j: int| 0 <= j < m.fields@.len() ==> field_wf(idx, m, #[trigger] m.fields@[j])
            &&& forall|j1: int, j2: int|
                0 <= j1 < m.fields@.len() && 0 <= j2 < m.fields@.len() && j1 != j2 ==> {
                    &&& (#[trigger] m.fields@[j1]).number != (#[trigger] m.fields@[j2]).number
                    &&& m.fields@[j1].name@ != m.fields@[j2].name@
                    &&& m.fields@[j1].json_name@ != m.fields@[j2].json_name@
                    &&& m.fields@[j1].name@ != m.fields@[j2].json_name@
                }
        }
}

proof fn lemma_elem_in_range(file: FileProto, idx: FileIndex, i: int, j: int)
    requires
        index_matches(file, idx),
        0 <= i < flat_messages(file).len(),
        field_elem(file, i, j) is Some,
    ensures
        elem_in_range(idx, field_elem(file, i, j)->0),
{
    let f = field_proto(file, i, j);
    lemma_find_dotted_range(message_names(file), f.type_ref@, 0);
    lemma_find_dotted_range(enum_names(file), f.type_ref@, 0);
}

proof fn lemma_nested_enums_grow(flat: Seq<(MessageProto, Seq<char>, Option<int>)>, i: int, n: int)
    requires
        0 <= i <= n,
    ensures
        nested_enums_upto(flat, i).len() <= nested_enums_upto(flat, n).len(),
    decreases n - i,
{
    if i < n {
        lemma_nested_enums_grow(flat, i, n - 1);
    }
}

/// A schema unit that is accepted yields a well-formed index.
pub proof fn lemma_build_wf(file: FileProto, idx: FileIndex)
    requires
        valid_file(file),
        index_matches(file, idx),
    ensures
        index_wf(idx),
{
    assert forall|i: int| 0 <= i < idx.messages@.len() implies {
        let m = #[trigger] idx.messages@[i];
        &&& m.map_entry ==> entry_fields_shape(m.fields@)
        &&& m.first_enum + m.enum_count <= idx.enums@.len()
        &&& forall|j: int| 0 <= j < m.fields@.len() ==> field_wf(idx, m, #[trigger] m.fields@[j])
        &&& forall|j1: int, j2: int|
            0 <= j1 < m.fields@.len() && 0 <= j2 < m.fields@.len() && j1 != j2 ==> {
                &&& (#[trigger] m.fields@[j1]).number != (#[trigger] m.fields@[j2]).number
                &&& m.fields@[j1].name@ != m.fields@[j2].name@
                &&& m.fields@[j1].json_name@ != m.fields@[j2].json_name@
                &&& m.fields@[j1].name@ != m.fields@[j2].json_name@
            }
    } by {
        let m = idx.messages@[i];
        assert(message_matches(file, i, m));
        assert(message_ok(file, i));
        if m.map_entry {
            assert(field_matches(file, i, 0, m.fields@[0]));
            assert(field_matches(file, i, 1, m.fields@[1]));
        }
        lemma_nested_enums_grow(flat_messages(file), i + 1, flat_messages(file).len() as int);
        assert forall|j: int| 0 <= j < m.fields@.len() implies field_wf(idx, m, #[trigger] m.fields@[j]) by {
            assert(field_matches(file, i, j, m.fields@[j]));
            assert(field_ok(file, i, j));
            lemma_elem_in_range(file, idx, i, j);
            let f = field_proto(file, i, j);
            let e = field_elem(file, i, j)->0;
            if let ElemType::Message(t) = e {
                if f.label == Label::Repeated && t < flat_messages(file).len() && is_map_entry_shape(flat_messages(file)[t as int].0) {
                    if let (Some(_), Some(_)) = (field_elem(file, t as int, 0), field_elem(file, t as int, 1)) {
                        lemma_elem_in_range(file, idx, t as int, 1);
                    }
                }
            }
        }
        assert forall|j1: int, j2: int|
            0 <= j1 < m.fields@.len() && 0 <= j2 < m.fields@.len() && j1 != j2 implies {
                &&& (#[trigger] m.fields@[j1]).number != (#[trigger] m.fields@[j2]).number
                &&& m.fields@[j1].name@ != m.fields@[j2].name@
                &&& m.fields@[j1].json_name@ != m.fields@[j2].json_name@
                &&& m.fields@[j1].name@ != m.fields@[j2].json_name@
            } by {
            assert(field_matches(file, i, j1, m.fields@[j1]));
            assert(field_matches(file, i, j2, m.fields@[j2]));
            assert(field_ok(file, i, j1));
            assert(field_ok(file, i, j2));
            if j1 < j2 {
                assert(field_ok(file, i, j2));
                let a = field_proto(file, i, j1);
                assert(a.number != field_proto(file, i, j2).number);
            } else {
                let a = field_proto(file, i, j2);
                assert(a.number != field_proto(file, i, j1).number);
            }
        }
    }
}


/// A message of an accepted schema unit is a map entry exactly when it has
/// two singular fields `key = 1` and `value = 2` and nothing nested or
/// extended.
pub proof fn lemma_map_entry_detection(file: FileProto, idx: FileIndex, i: int)
    requires
        index_matches(file, idx),
        0 <= i < idx.messages@.len(),
    ensures
        idx.messages@[i].map_entry == is_map_entry_shape(flat_messages(file)[i].0),
        idx.messages@[i].map_entry ==> {
            let m = flat_messages(file)[i].0;
            &&& m.fields@.len() == 2
            &&& m.fields@[0].name@ == seq!['k', 'e', 'y'] && m.fields@[0].number == 1
            &&& m.fields@[1].name@ == seq!['v', 'a', 'l', 'u', 'e'] && m.fields@[1].number == 2
            &&& m.nested_types@.len() == 0 && m.enum_types@.len() == 0 && m.extension_count == 0
        },
{
    assert(message_matches(file, i, idx.messages@[i]));
}

} // verus!
