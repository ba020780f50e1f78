//! Merging a JSON object into a message: each key names a field, by name
//! or JSON name, and its value is read by the field's type. The text is
//! turned into `JsonValue`s by a tokenizer outside the library.
use vstd::prelude::*;
use crate::descriptor::{pos_by_name_or_json_name, EnumDescriptor, FieldDescriptor, FileDescriptor, MessageDescriptor};
use crate::dynamic::{field_value_wf, is_set, keys_unique, message_wf, oneofs_exclusive, DynamicFieldValue, DynamicMessage};
use crate::index::{elem_in_range, field_wf, index_wf, valid_map_key, ElemType, FieldIndex, FieldKind, FileIndex};
use crate::json::{duration_spec, merge_wk_duration, key_ok, parse_int_spec, parse_key, parse_signed, parse_unsigned, ParseErrorKind, ParseOptions};
use crate::map::{entries_insert, lemma_map_insert_wf, map_insert, MapEntries};
use crate::schema::str_is;
use crate::value::{value_wf, ReflectValueBox};
use crate::well_known::Duration;

verus! {

/// A JSON value as the tokenizer read it. A number keeps its text, and the
/// nearest double- and single-precision bit patterns that the reader
/// computed from it.
pub enum JsonValue {
    Null,
    Bool(bool),
    Number { text: String, f64_bits: u64, f32_bits: u32 },
    String(String),
    Array(Vec<JsonValue>),
    Object(Vec<(String, JsonValue)>),
}

/// The text an integer may be read from: a number, or a string.
pub open spec fn int_text(v: JsonValue) -> Option<Seq<char>> {
    match v {
        JsonValue::Number { text, .. } => Some(text@),
        JsonValue::String(s) => Some(s@),
        _ => None,
    }
}

/// The first value of enum `k` with name `name`.
pub open spec fn enum_named(file: FileIndex, k: int, name: Seq<char>, n: i32) -> bool {
    exists|q: int|
        0 <= q < file.enums@[k].values@.len() && (#[trigger] file.enums@[k].values@[q]).name@ == name
            && file.enums@[k].values@[q].number == n && forall|p: int|
            0 <= p < q ==> (#[trigger] file.enums@[k].values@[p]).name@ != name
}

/// Enum `k` declares a value numbered `n`.
pub open spec fn enum_has_number(file: FileIndex, k: int, n: i32) -> bool {
    exists|q: int| 0 <= q < file.enums@[k].values@.len() && (#[trigger] file.enums@[k].values@[q]).number == n
}

/// `r` is the value JSON value `v` gives a field of scalar, string or enum
/// element type `e`: integers from their decimal text (written as a number
/// or a string), floating-point values from the reader's bit patterns,
/// booleans and strings as they are, enum values by name or by a declared
/// number.
pub open spec fn json_scalar(v: JsonValue, e: ElemType, file: FileIndex, r: ReflectValueBox) -> bool {
    match (e, r) {
        (ElemType::I32, ReflectValueBox::I32(x)) => int_text(v) matches Some(t) && parse_int_spec(t, true, i32::MIN as int, i32::MAX as int) == Some(x as int),
        (ElemType::I64, ReflectValueBox::I64(x)) => int_text(v) matches Some(t) && parse_int_spec(t, true, i64::MIN as int, i64::MAX as int) == Some(x as int),
        (ElemType::U32, ReflectValueBox::U32(x)) => int_text(v) matches Some(t) && parse_int_spec(t, false, 0, u32::MAX as int) == Some(x as int),
        (ElemType::U64, ReflectValueBox::U64(x)) => int_text(v) matches Some(t) && parse_int_spec(t, false, 0, u64::MAX as int) == Some(x as int),
        (ElemType::F32, ReflectValueBox::F32(x)) => v matches JsonValue::Number { f32_bits, .. } && x == f32_bits,
        (ElemType::F64, ReflectValueBox::F64(x)) => v matches JsonValue::Number { f64_bits, .. } && x == f64_bits,
        (ElemType::Bool, ReflectValueBox::Bool(x)) => v == JsonValue::Bool(x),
        (ElemType::String, ReflectValueBox::String(x)) => v matches JsonValue::String(s) && s@ == x@,
        (ElemType::Enum(k), ReflectValueBox::Enum(d, n)) => d.index == k && d.file@ == file && match v {
            JsonValue::String(s) => enum_named(file, k as int, s@, n),
            JsonValue::Number { text, .. } => parse_int_spec(text@, true, i32::MIN as int, i32::MAX as int) == Some(n as int)
                && enum_has_number(file, k as int, n),
            _ => false,
        },
        _ => false,
    }
}

/// Element types read by `json_scalar`.
pub open spec fn scalar_elem(e: ElemType) -> bool {
    !(e is Message) && !(e is Bytes)
}

fn int_text_of(v: &JsonValue) -> (r: Option<&str>)
    ensures
        match r {
            Some(t) => int_text(*v) == Some(t@),
            None => int_text(*v) is None,
        },
{
    match v {
        JsonValue::Number { text, .. } => Some(text.as_str()),
        JsonValue::String(s) => Some(s.as_str()),
        _ => None,
    }
}

fn enum_by_number(d: &EnumDescriptor, n: i32) -> (r: bool)
    requires
        d.wf(),
    ensures
        r == enum_has_number(d.file@, d.index as int, n),
{
    d.get_value_by_number(n).is_some()
}

/// Reads a value of scalar, string or enum type; see `json_scalar`.
pub fn read_scalar(v: &JsonValue, e: ElemType, file: &FileDescriptor) -> (r: Result<ReflectValueBox, ParseErrorKind>)
    requires
        file.wf(),
        elem_in_range(file@, e),
        scalar_elem(e),
    ensures
        match r {
            Ok(x) => json_scalar(*v, e, file@, x) && value_wf(x, e, file@),
            Err(k) => (forall|x: ReflectValueBox| !json_scalar(*v, e, file@, x)) && !(k is UnknownFieldName),
        },
{
    match e {
        ElemType::I32 => match int_text_of(v) {
            Some(t) => match parse_signed(t, i32::MIN as i64, i32::MAX as i64) {
                Some(x) => Ok(ReflectValueBox::I32(x as i32)),
                None => Err(ParseErrorKind::IncorrectNumber),
            },
            None => Err(ParseErrorKind::ExpectingNumber),
        },
        ElemType::I64 => match int_text_of(v) {
            Some(t) => match parse_signed(t, i64::MIN, i64::MAX) {
                Some(x) => Ok(ReflectValueBox::I64(x)),
                None => Err(ParseErrorKind::IncorrectNumber),
            },
            None => Err(ParseErrorKind::ExpectingNumber),
        },
        ElemType::U32 => match int_text_of(v) {
            Some(t) => match parse_unsigned(t, u32::MAX as u64) {
                Some(x) => Ok(ReflectValueBox::U32(x as u32)),
                None => Err(ParseErrorKind::IncorrectNumber),
            },
            None => Err(ParseErrorKind::ExpectingNumber),
        },
        ElemType::U64 => match int_text_of(v) {
            Some(t) => match parse_unsigned(t, u64::MAX) {
                Some(x) => Ok(ReflectValueBox::U64(x)),
                None => Err(ParseErrorKind::IncorrectNumber),
            },
            None => Err(ParseErrorKind::ExpectingNumber),
        },
        ElemType::F32 => match v {
            JsonValue::Number { f32_bits, .. } => Ok(ReflectValueBox::F32(*f32_bits)),
            _ => Err(ParseErrorKind::ExpectingNumber),
        },
        ElemType::F64 => match v {
            JsonValue::Number { f64_bits, .. } => Ok(ReflectValueBox::F64(*f64_bits)),
            _ => Err(ParseErrorKind::ExpectingNumber),
        },
        ElemType::Bool => match v {
            JsonValue::Bool(b) => Ok(ReflectValueBox::Bool(*b)),
            _ => Err(ParseErrorKind::ExpectingBool),
        },
        ElemType::String => match v {
            JsonValue::String(s) => Ok(ReflectValueBox::String(s.clone())),
            _ => Err(ParseErrorKind::UnexpectedToken),
        },
        ElemType::Enum(k) => {
            let d = EnumDescriptor { file: file.share(), index: k };
            assert(d.file@ == file@ && d.index == k && d.wf());
            match v {
                JsonValue::String(s) => match crate::json::parse_enum(s.as_str(), &d) {
                    Ok(n) => {
                        assert(enum_named(file@, k as int, s@, n));
                        Ok(ReflectValueBox::Enum(d, n))
                    },
                    Err(e) => Err(e),
                },
                JsonValue::Number { text, .. } => match parse_signed(text.as_str(), i32::MIN as i64, i32::MAX as i64) {
                    Some(x) => {
                        if enum_by_number(&d, x as i32) {
                            Ok(ReflectValueBox::Enum(d, x as i32))
                        } else {
                            Err(ParseErrorKind::UnknownEnumVariantNumber(x as i32))
                        }
                    },
                    None => Err(ParseErrorKind::IncorrectNumber),
                },
                _ => Err(ParseErrorKind::ExpectingStrOrInt),
            }
        },
        _ => vstd::pervasive::unreached(),
    }
}


/// Entry `e` names field `j`, or a field of the oneof `j` belongs to.
pub open spec fn touches(d: MessageDescriptor, entries: Seq<(String, JsonValue)>, e: int, j: int) -> bool {
    match pos_by_name_or_json_name(d.spec_entry().fields@, entries[e].0@) {
        Some(k) => k == j || (d.spec_entry().fields@[j].oneof is Some && d.spec_entry().fields@[k].oneof
            == d.spec_entry().fields@[j].oneof),
        None => false,
    }
}

/// The field that the key of entry `e` names.
pub open spec fn entry_field(d: MessageDescriptor, entries: Seq<(String, JsonValue)>, e: int) -> Option<int> {
    pos_by_name_or_json_name(d.spec_entry().fields@, entries[e].0@)
}

/// Member `e` names field `j`.
pub open spec fn names_field(d: MessageDescriptor, entries: Seq<(String, JsonValue)>, e: int, j: int) -> bool {
    entry_field(d, entries, e) == Some(j)
}

/// Message `t` is the well-known duration type: named
/// `google.protobuf.Duration`, with singular `seconds` (64-bit) and `nanos`
/// (32-bit) fields outside any oneof.
pub open spec fn duration_shape(file: FileIndex, t: int) -> bool {
    let m = file.messages@[t];
    &&& m.full_name@ == "google.protobuf.Duration"@
    &&& m.fields@.len() == 2
    &&& m.fields@[0].name@ == "seconds"@ && m.fields@[0].elem == ElemType::I64
    &&& m.fields@[0].kind == FieldKind::Singular && m.fields@[0].oneof is None
    &&& m.fields@[1].name@ == "nanos"@ && m.fields@[1].elem == ElemType::I32
    &&& m.fields@[1].kind == FieldKind::Singular && m.fields@[1].oneof is None
}

/// The fully qualified names of the well-known wrapper types.
pub open spec fn wrapper_names() -> Seq<Seq<char>> {
    seq![
        "google.protobuf.DoubleValue"@, "google.protobuf.FloatValue"@, "google.protobuf.Int64Value"@,
        "google.protobuf.UInt64Value"@, "google.protobuf.Int32Value"@, "google.protobuf.UInt32Value"@,
        "google.protobuf.BoolValue"@, "google.protobuf.StringValue"@, "google.protobuf.BytesValue"@,
    ]
}

/// Message `t` is a well-known wrapper: one of the wrapper names, with a
/// single singular field `value` of a scalar, string or bytes type.
pub open spec fn wrapper_shape(file: FileIndex, t: int) -> bool {
    let m = file.messages@[t];
    &&& wrapper_names().contains(m.full_name@)
    &&& m.fields@.len() == 1
    &&& m.fields@[0].name@ == "value"@
    &&& m.fields@[0].kind == FieldKind::Singular
    &&& m.fields@[0].oneof is None
    &&& (scalar_elem(m.fields@[0].elem) || m.fields@[0].elem is Bytes)
    &&& !(m.fields@[0].elem is Enum)
}

/// What a plain JSON value gives a scalar, string or bytes type.
pub open spec fn plain_value_is(x: ReflectValueBox, v: JsonValue, e: ElemType, file: FileIndex) -> bool {
    if e is Bytes {
        x is Bytes && v is String && crate::base64::decode_spec(v->String_0@) == Some(x->Bytes_0@)
    } else {
        json_scalar(v, e, file, x)
    }
}

/// Whether a plain JSON value can be read as a scalar, string or bytes type.
pub open spec fn plain_fits(v: JsonValue, e: ElemType, file: FileIndex) -> bool {
    if e is Bytes {
        v is String && crate::base64::decode_spec(v->String_0@) is Some
    } else {
        exists|x: ReflectValueBox| json_scalar(v, e, file, x)
    }
}

/// A wrapper message read from a bare JSON value: its field holds the value.
pub open spec fn wrapper_result(m: DynamicMessage, v: JsonValue, file: FileIndex) -> bool {
    m.fields@.len() == 1 && m.fields@[0] is Singular && m.fields@[0]->Singular_0 is Some && plain_value_is(
        m.fields@[0]->Singular_0->0,
        v,
        m.descriptor.spec_entry().fields@[0].elem,
        file,
    )
}

/// A duration message read from its JSON text: both fields set to the
/// seconds and nanoseconds the text gives (see `duration_spec`).
pub open spec fn duration_result(m: DynamicMessage, text: Seq<char>) -> bool {
    match duration_spec(text) {
        Some((sec, nan)) => m.fields@.len() == 2 && m.fields@[0] == DynamicFieldValue::Singular(Some(ReflectValueBox::I64(sec as i64)))
            && m.fields@[1] == DynamicFieldValue::Singular(Some(ReflectValueBox::I32(nan as i32))),
        None => false,
    }
}

/// Whether JSON value `v` can be read as element type `e`: a nested
/// message from an object whose members fit the message's fields (a
/// well-known duration also from its text, a well-known wrapper also from
/// a bare value), bytes from a base64 string, a scalar, string or enum
/// value as `json_scalar` allows.
pub open spec fn json_fits(v: JsonValue, e: ElemType, file: FileIndex, opts: ParseOptions) -> bool
    decreases v, 0int,
{
    match e {
        ElemType::Message(t) => 0 <= t < file.messages@.len() && !file.messages@[t as int].map_entry && if duration_shape(
            file,
            t as int,
        ) && v is String {
            duration_spec(v->String_0@) is Some
        } else if wrapper_shape(file, t as int) && !(v is Object) {
            plain_fits(v, file.messages@[t as int].fields@[0].elem, file)
        } else {
            match v {
                JsonValue::Object(es) => forall|i: int| 0 <= i < es@.len() ==> entry_fits(#[trigger] es@[i], t as int, file, opts),
                _ => false,
            }
        },
        ElemType::Bytes => v is String && crate::base64::decode_spec(v->String_0@) is Some,
        _ => exists|x: ReflectValueBox| json_scalar(v, e, file, x),
    }
}

/// An object member fits message `t`: its key names a field whose type
/// its value fits, or unknown keys are skipped.
pub open spec fn entry_fits(en: (String, JsonValue), t: int, file: FileIndex, opts: ParseOptions) -> bool
    decreases en.1, 2int,
{
    match pos_by_name_or_json_name(file.messages@[t].fields@, en.0@) {
        Some(k) => field_fits(en.1, file.messages@[t].fields@[k], file, opts),
        None => opts.ignore_unknown_fields,
    }
}

/// A JSON value fits a field: the element for a singular field, `null` or
/// an array of elements for a repeated field, `null` or an object with
/// valid keys and fitting values for a map.
pub open spec fn field_fits(v: JsonValue, f: FieldIndex, file: FileIndex, opts: ParseOptions) -> bool
    decreases v, 1int,
{
    match f.kind {
        FieldKind::Singular => json_fits(v, f.elem, file, opts),
        FieldKind::Repeated => match v {
            JsonValue::Null => true,
            JsonValue::Array(xs) => forall|i: int| 0 <= i < xs@.len() ==> json_fits(#[trigger] xs@[i], f.elem, file, opts),
            _ => false,
        },
        FieldKind::Mapped(kt, vt) => match v {
            JsonValue::Null => true,
            JsonValue::Object(kvs) => forall|i: int|
                0 <= i < kvs@.len() ==> key_ok((#[trigger] kvs@[i]).0@, kt) && json_fits(kvs@[i].1, vt, file, opts),
            _ => false,
        },
    }
}

/// `x` is what reading `v` as element type `e` gives: for a message, a
/// fresh message of that type with the object's members merged into it.
pub open spec fn value_is(x: ReflectValueBox, v: JsonValue, e: ElemType, file: FileIndex, opts: ParseOptions) -> bool
    decreases v, 3int,
{
    match e {
        ElemType::Message(t) => x is Message && x->Message_0.descriptor.file@ == file && x->Message_0.descriptor.index == t
            && if duration_shape(file, t as int) && v is String {
            duration_result(*x->Message_0, v->String_0@)
        } else if wrapper_shape(file, t as int) && !(v is Object) {
            wrapper_result(*x->Message_0, v, file)
        } else {
            object_result(*x->Message_0, v, opts)
        },
        ElemType::Bytes => x is Bytes && v is String && crate::base64::decode_spec(v->String_0@) == Some(x->Bytes_0@),
        _ => json_scalar(v, e, file, x),
    }
}

/// `m` is a fresh message with the members of object `v` merged into it:
/// a field no member touched is empty, and a field holds what the last
/// member that touched it gives, when that member named it.
pub open spec fn object_result(m: DynamicMessage, v: JsonValue, opts: ParseOptions) -> bool
    decreases v, 2int,
{
    match v {
        JsonValue::Object(es) => {
            let d = m.descriptor;
            let fields = d.spec_entry().fields@;
            &&& m.fields@.len() == fields.len()
            &&& forall|j: int|
                0 <= j < fields.len() && (forall|e: int| 0 <= e < es@.len() ==> !#[trigger] touches(d, es@, e, j))
                    ==> crate::dynamic::is_empty_value(#[trigger] m.fields@[j], fields[j])
            &&& forall|e: int, j: int|
                0 <= e < es@.len() && #[trigger] names_field(d, es@, e, j) && (forall|e2: int|
                    e < e2 < es@.len() ==> !#[trigger] touches(d, es@, e2, j)) ==> holds_field(
                    m.fields@[j],
                    es@[e].1,
                    fields[j],
                    d.file@,
                    opts,
                )
        },
        _ => false,
    }
}

/// A slot holds what reading `v` into field `f` gives: the value for a
/// singular field, the elements of the array for a repeated field, and for
/// a map the entries inserted one by one from the object's members.
pub open spec fn holds_field(fv: DynamicFieldValue, v: JsonValue, f: FieldIndex, file: FileIndex, opts: ParseOptions) -> bool
    decreases v, 4int,
{
    match f.kind {
        FieldKind::Singular => fv is Singular && fv->Singular_0 is Some && value_is(fv->Singular_0->0, v, f.elem, file, opts),
        FieldKind::Repeated => fv is Repeated && match v {
            JsonValue::Null => fv->Repeated_0@.len() == 0,
            JsonValue::Array(xs) => fv->Repeated_0@.len() == xs@.len() && forall|i: int|
                0 <= i < xs@.len() ==> value_is(fv->Repeated_0@[i], #[trigger] xs@[i], f.elem, file, opts),
            _ => false,
        },
        FieldKind::Mapped(kt, vt) => fv is Mapped && match v {
            JsonValue::Null => fv->Mapped_0@.len() == 0,
            JsonValue::Object(kvs) => exists|ks: Seq<ReflectValueBox>, vs: Seq<ReflectValueBox>|
                #[trigger] insert_all(ks, vs, kvs@.len() as int) == fv->Mapped_0@ && map_witness(
                    fv->Mapped_0@,
                    v,
                    kt,
                    vt,
                    file,
                    opts,
                    ks,
                    vs,
                ),
            _ => false,
        },
    }
}

/// `out` is the map built by inserting, member by member, key `ks[q]` read
/// from the member's key and value `vs[q]` read from its value.
pub open spec fn map_witness(
    out: Seq<(ReflectValueBox, ReflectValueBox)>,
    v: JsonValue,
    kt: ElemType,
    vt: ElemType,
    file: FileIndex,
    opts: ParseOptions,
    ks: Seq<ReflectValueBox>,
    vs: Seq<ReflectValueBox>,
) -> bool
    decreases v, 1int,
{
    match v {
        JsonValue::Object(kvs) => {
            &&& ks.len() == kvs@.len()
            &&& vs.len() == kvs@.len()
            &&& forall|q: int|
                0 <= q < kvs@.len() ==> crate::json::key_spec((#[trigger] kvs@[q]).0@, kt, ks[q]) && value_is(
                    vs[q],
                    kvs@[q].1,
                    vt,
                    file,
                    opts,
                )
            &&& out == insert_all(ks, vs, kvs@.len() as int)
        },
        _ => false,
    }
}

/// The map built by inserting the first `n` keys and values in order.
pub open spec fn insert_all(ks: Seq<ReflectValueBox>, vs: Seq<ReflectValueBox>, n: int) -> Seq<(ReflectValueBox, ReflectValueBox)>
    decreases n,
{
    if n <= 0 {
        seq![]
    } else {
        map_insert(insert_all(ks, vs, n - 1), ks[n - 1], vs[n - 1])
    }
}

/// What merging the first `p` members into `start` gave `m`: every key so
/// far named a field or could be skipped; a field that no member so far
/// touched is as it was; and a field holds what the last member that
/// touched it gives, when that member named it.
pub open spec fn merge_progress(
    start: DynamicMessage,
    m: DynamicMessage,
    es: Seq<(String, JsonValue)>,
    opts: ParseOptions,
    p: int,
) -> bool {
    let d = start.descriptor;
    let fields = d.spec_entry().fields@;
    &&& forall|e: int| 0 <= e < p ==> (#[trigger] entry_field(d, es, e)) is Some || opts.ignore_unknown_fields
    &&& forall|j: int|
        0 <= j < m.fields@.len() && (forall|e: int| 0 <= e < p ==> !#[trigger] touches(d, es, e, j)) ==> #[trigger] m.fields@[j]
            == start.fields@[j]
    &&& forall|e: int, j: int|
        0 <= e < p && entry_field(d, es, e) == Some(j) && (forall|e2: int|
            e < e2 < p ==> !#[trigger] touches(d, es, e2, j)) ==> #[trigger] holds_field(m.fields@[j], es[e].1, fields[j], d.file@, opts)
}

/// What merging all members promises: the message stays well formed, of
/// the same type, with the same unknown fields. When every member fits
/// (see `entry_fits`), the merge succeeds, and on success every member has
/// had its effect (see `merge_progress`). When unknown keys are not
/// skipped, the first unknown key, reached with all members before it
/// fitting, is the error; when they are skipped, no unknown key is an
/// error, here or in a nested object.
pub open spec fn merge_post(
    start: DynamicMessage,
    fin: DynamicMessage,
    es: Seq<(String, JsonValue)>,
    opts: ParseOptions,
    r: Result<(), ParseErrorKind>,
) -> bool {
    let d = start.descriptor;
    &&& message_wf(fin)
    &&& fin.descriptor == start.descriptor
    &&& fin.unknown_fields == start.unknown_fields
    &&& (r is Ok ==> merge_progress(start, fin, es, opts, es.len() as int))
    &&& ((forall|e: int| 0 <= e < es.len() ==> entry_fits(#[trigger] es[e], d.index as int, d.file@, opts)) ==> r is Ok)
    &&& forall|u: int|
        0 <= u < es.len() && !opts.ignore_unknown_fields && (#[trigger] entry_field(d, es, u)) is None && (forall|e: int|
            0 <= e < u ==> entry_fits(#[trigger] es[e], d.index as int, d.file@, opts)) ==> (r matches Err(
            ParseErrorKind::UnknownFieldName(s),
        ) && s@ == es[u].0@)
    &&& (r matches Err(ParseErrorKind::UnknownFieldName(_)) ==> !opts.ignore_unknown_fields)
}

proof fn lemma_name_range(fs: Seq<FieldIndex>, name: Seq<char>, from: int)
    requires
        0 <= from,
    ensures
        crate::descriptor::pos_by_name(fs, name, from) matches Some(j) ==> from <= j < fs.len(),
        crate::descriptor::pos_by_json_name(fs, name, from) matches Some(j) ==> from <= j < fs.len(),
    decreases fs.len() - from,
{
    if from < fs.len() {
        lemma_name_range(fs, name, from + 1);
    }
}

proof fn lemma_pos_range(fs: Seq<FieldIndex>, name: Seq<char>)
    ensures
        pos_by_name_or_json_name(fs, name) matches Some(j) ==> 0 <= j < fs.len(),
{
    lemma_name_range(fs, name, 0);
}

/// Replaces the slot of field `k` with a value of the same kind.
fn replace_slot(m: &mut DynamicMessage, k: usize, fv: DynamicFieldValue)
    requires
        message_wf(*old(m)),
        k < old(m).fields@.len(),
        field_value_wf(fv, old(m).descriptor.spec_entry().fields@[k as int], old(m).descriptor.file@),
        !is_set(fv),
    ensures
        message_wf(*final(m)),
        final(m).descriptor == old(m).descriptor,
        final(m).fields@ == old(m).fields@.update(k as int, fv),
        final(m).unknown_fields == old(m).unknown_fields,
{
    let ghost old_fields = m.fields@;
    m.fields.set(k, fv);
    m.cached_size = None;
    proof {
        let entries = m.descriptor.spec_entry().fields@;
        assert forall|q: int| 0 <= q < m.fields@.len() implies field_value_wf(
            #[trigger] m.fields@[q],
            entries[q],
            m.descriptor.file@,
        ) by {
            if q != k {
                assert(m.fields@[q] == old_fields[q]);
            }
        }
        assert forall|a: int, b: int|
            0 <= a < m.fields@.len() && 0 <= b < m.fields@.len() && a != b && entries[a].oneof is Some
                && entries[a].oneof == entries[b].oneof implies !(is_set(#[trigger] m.fields@[a]) && is_set(
            #[trigger] m.fields@[b],
        )) by {
            assert(!(is_set(old_fields[a]) && is_set(old_fields[b])));
        }
    }
}

proof fn lemma_object_result_intro(m: DynamicMessage, v: JsonValue, opts: ParseOptions)
    requires
        v is Object,
        m.fields@.len() == m.descriptor.spec_entry().fields@.len(),
        forall|j: int|
            0 <= j < m.descriptor.spec_entry().fields@.len() && (forall|e: int|
                0 <= e < v->Object_0@.len() ==> !#[trigger] touches(m.descriptor, v->Object_0@, e, j))
                ==> crate::dynamic::is_empty_value(#[trigger] m.fields@[j], m.descriptor.spec_entry().fields@[j]),
        forall|e: int, j: int|
            0 <= e < v->Object_0@.len() && #[trigger] names_field(m.descriptor, v->Object_0@, e, j) && (forall|e2: int|
                e < e2 < v->Object_0@.len() ==> !#[trigger] touches(m.descriptor, v->Object_0@, e2, j)) ==> holds_field(
                m.fields@[j],
                v->Object_0@[e].1,
                m.descriptor.spec_entry().fields@[j],
                m.descriptor.file@,
                opts,
            ),
    ensures
        object_result(m, v, opts),
{
}

/// Whether a message type is the well-known duration type.
fn is_duration(d: &MessageDescriptor) -> (r: bool)
    requires
        d.wf(),
    ensures
        r == duration_shape(d.file@, d.index as int),
{
    let m = &d.file.imp.messages[d.index];
    if !str_is(m.full_name.as_str(), "google.protobuf.Duration") || m.fields.len() != 2 {
        return false;
    }
    let f0 = &m.fields[0];
    let f1 = &m.fields[1];
    str_is(f0.name.as_str(), "seconds") && f0.elem == ElemType::I64 && f0.kind == FieldKind::Singular
        && f0.oneof.is_none() && str_is(f1.name.as_str(), "nanos") && f1.elem == ElemType::I32
        && f1.kind == FieldKind::Singular && f1.oneof.is_none()
}

/// Whether a message type is a well-known wrapper.
fn is_wrapper(d: &MessageDescriptor) -> (r: bool)
    requires
        d.wf(),
    ensures
        r == wrapper_shape(d.file@, d.index as int),
{
    let m = &d.file.imp.messages[d.index];
    let names: Vec<&str> = vec![
        "google.protobuf.DoubleValue", "google.protobuf.FloatValue", "google.protobuf.Int64Value",
        "google.protobuf.UInt64Value", "google.protobuf.Int32Value", "google.protobuf.UInt32Value",
        "google.protobuf.BoolValue", "google.protobuf.StringValue", "google.protobuf.BytesValue",
    ];
    let ghost views = names@.map_values(|k: &str| k@);
    assert(views =~= wrapper_names());
    let mut k: usize = 0;
    let mut found = false;
    while k < names.len()
        invariant
            k <= names@.len(),
            views == names@.map_values(|k: &str| k@),
            views == wrapper_names(),
            found == exists|q: int| 0 <= q < k && views[q] == m.full_name@,
        decreases names@.len() - k,
    {
        if str_is(m.full_name.as_str(), names[k]) {
            found = true;
        }
        proof {
            if !found {
                assert forall|q: int| 0 <= q < k + 1 implies views[q] != m.full_name@ by {}
            } else {
                if views[k as int] == m.full_name@ {
                    assert(exists|q: int| 0 <= q < k + 1 && views[q] == m.full_name@);
                } else {
                    let q = choose|q: int| 0 <= q < k && views[q] == m.full_name@;
                    assert(exists|q2: int| 0 <= q2 < k + 1 && views[q2] == m.full_name@);
                }
            }
        }
        k = k + 1;
    }
    if !found || m.fields.len() != 1 {
        return false;
    }
    let f = &m.fields[0];
    let plain = match f.elem {
        ElemType::Message(_) | ElemType::Enum(_) => false,
        _ => true,
    };
    str_is(f.name.as_str(), "value") && f.kind == FieldKind::Singular && f.oneof.is_none() && plain
}

/// Reads a wrapper message from a bare JSON value.
fn read_wrapper(d: &MessageDescriptor, v: &JsonValue) -> (r: Result<ReflectValueBox, ParseErrorKind>)
    requires
        d.wf(),
        !d.spec_entry().map_entry,
        wrapper_shape(d.file@, d.index as int),
    ensures
        plain_fits(*v, d.spec_entry().fields@[0].elem, d.file@) ==> r is Ok,
        match r {
            Ok(x) => x is Message && x->Message_0.descriptor == *d && message_wf(*x->Message_0)
                && wrapper_result(*x->Message_0, *v, d.file@),
            Err(k) => !(k is UnknownFieldName),
        },
{
    let e = d.file.imp.messages[d.index].fields[0].elem;
    let x = match e {
        ElemType::Bytes => match v {
            JsonValue::String(t) => match crate::base64::decode(t.as_str()) {
                Some(b) => ReflectValueBox::Bytes(b),
                None => {
                    return Err(ParseErrorKind::IncorrectBase64);
                },
            },
            _ => {
                return Err(ParseErrorKind::UnexpectedToken);
            },
        },
        _ => match read_scalar(v, e, &d.file) {
            Ok(x) => x,
            Err(k) => {
                return Err(k);
            },
        },
    };
    let mut m = d.new_instance();
    let f0 = FieldDescriptor { message: d.share(), index: 0 };
    f0.set_singular_field(&mut m, x);
    proof {
        assert(m.fields@[0] == DynamicFieldValue::Singular(Some(x)));
    }
    Ok(ReflectValueBox::Message(Box::new(m)))
}

/// Reads a duration message from its JSON text.
fn read_duration(d: &MessageDescriptor, text: &str) -> (r: Result<ReflectValueBox, ParseErrorKind>)
    requires
        d.wf(),
        !d.spec_entry().map_entry,
        duration_shape(d.file@, d.index as int),
    ensures
        duration_spec(text@) is Some ==> r is Ok,
        match r {
            Ok(x) => x is Message && x->Message_0.descriptor == *d && message_wf(*x->Message_0)
                && duration_result(*x->Message_0, text@),
            Err(k) => !(k is UnknownFieldName),
        },
{
    let mut dur = Duration { seconds: 0, nanos: 0 };
    match merge_wk_duration(text, &mut dur) {
        Ok(()) => {},
        Err(e) => {
            return Err(e);
        },
    }
    let mut m = d.new_instance();
    let f0 = FieldDescriptor { message: d.share(), index: 0 };
    let f1 = FieldDescriptor { message: d.share(), index: 1 };
    f0.set_singular_field(&mut m, ReflectValueBox::I64(dur.seconds));
    f1.set_singular_field(&mut m, ReflectValueBox::I32(dur.nanos));
    proof {
        assert(m.fields@[0] == DynamicFieldValue::Singular(Some(ReflectValueBox::I64(dur.seconds))));
    }
    Ok(ReflectValueBox::Message(Box::new(m)))
}

/// Reads a value of element type `e`; see `value_is`. Succeeds whenever
/// the value fits the type (`json_fits`). Bytes are read from base64 text;
/// a well-known duration from its text and a well-known wrapper from a
/// bare value.
pub fn read_value(v: &JsonValue, e: ElemType, file: &FileDescriptor, opts: &ParseOptions) -> (r: Result<
    ReflectValueBox,
    ParseErrorKind,
>)
    requires
        file.wf(),
        elem_in_range(file@, e),
    ensures
        json_fits(*v, e, file@, *opts) ==> r is Ok,
        match r {
            Ok(x) => value_wf(x, e, file@) && value_is(x, *v, e, file@, *opts),
            Err(k) => k is UnknownFieldName ==> !opts.ignore_unknown_fields,
        },
    decreases *v, 0int,
{
    match e {
        ElemType::Message(t) => {
            let d = MessageDescriptor { file: file.share(), index: t };
            if d.is_map_entry() {
                return Err(ParseErrorKind::UnexpectedToken);
            }
            if let JsonValue::String(text) = v {
                if is_duration(&d) {
                    return read_duration(&d, text.as_str());
                }
            }
            let is_object = match v {
                JsonValue::Object(_) => true,
                _ => false,
            };
            if !is_object && is_wrapper(&d) {
                return read_wrapper(&d, v);
            }
            match v {
                JsonValue::Object(es) => {
                    proof {
                        assert(decreases_to!(*v => v->Object_0));
                    }
                    let mut inner = d.new_instance();
                    let ghost fresh = inner;
                    match merge_entries(&mut inner, es, opts) {
                        Ok(()) => {
                            proof {
                                assert(merge_progress(fresh, inner, es@, *opts, es@.len() as int));
                                let fields = d.spec_entry().fields@;
                                assert forall|j: int|
                                    0 <= j < fields.len() && (forall|e: int| 0 <= e < es@.len() ==> !#[trigger] touches(d, es@, e, j))
                                        implies crate::dynamic::is_empty_value(#[trigger] inner.fields@[j], fields[j]) by {
                                    assert(inner.fields@[j] == fresh.fields@[j]);
                                }
                            }
                            let ghost fields = d.spec_entry().fields@;
                            assert(inner.fields@.len() == fields.len());
                            assert forall|e: int, j: int|
                                0 <= e < es@.len() && #[trigger] names_field(d, es@, e, j) && (forall|e2: int|
                                    e < e2 < es@.len() ==> !#[trigger] touches(d, es@, e2, j)) implies holds_field(
                                    inner.fields@[j], es@[e].1, fields[j], d.file@, *opts) by {
                                assert(holds_field(inner.fields@[j], es@[e].1, fields[j], d.file@, *opts));
                            }
                            assert(*v == JsonValue::Object(*es));
                            assert forall|j: int|
                                0 <= j < fields.len() && (forall|e: int| 0 <= e < es@.len() ==> !#[trigger] touches(d, es@, e, j))
                                    implies crate::dynamic::is_empty_value(#[trigger] inner.fields@[j], fields[j]) by {
                                assert(inner.fields@[j] == fresh.fields@[j]);
                            }
                            assert(inner.descriptor == d);
                            proof { lemma_object_result_intro(inner, *v, *opts); }
                            let r = ReflectValueBox::Message(Box::new(inner));
                            assert(value_wf(r, e, file@));
                            assert(value_is(r, *v, e, file@, *opts));
                            Ok(r)
                        },
                        Err(k) => Err(k),
                    }
                },
                _ => Err(ParseErrorKind::UnexpectedToken),
            }
        },
        ElemType::Bytes => match v {
            JsonValue::String(t) => match crate::base64::decode(t.as_str()) {
                Some(b) => Ok(ReflectValueBox::Bytes(b)),
                None => Err(ParseErrorKind::IncorrectBase64),
            },
            _ => Err(ParseErrorKind::UnexpectedToken),
        },
        _ => read_scalar(v, e, file),
    }
}

/// Merges one JSON value into field `k`: a singular field is set, a
/// repeated field replaced by the elements of an array, a map replaced by
/// the members of an object; `null` empties a repeated or map field.
fn merge_field(m: &mut DynamicMessage, k: usize, v: &JsonValue, opts: &ParseOptions) -> (r: Result<(), ParseErrorKind>)
    requires
        message_wf(*old(m)),
        k < old(m).fields@.len(),
    ensures
        message_wf(*final(m)),
        final(m).descriptor == old(m).descriptor,
        final(m).unknown_fields == old(m).unknown_fields,
        final(m).fields@.len() == old(m).fields@.len(),
        forall|j: int|
            0 <= j < old(m).fields@.len() && j != k && !(old(m).descriptor.spec_entry().fields@[j].oneof is Some
                && old(m).descriptor.spec_entry().fields@[j].oneof == old(m).descriptor.spec_entry().fields@[k as int].oneof)
                ==> #[trigger] final(m).fields@[j] == old(m).fields@[j],
        field_fits(*v, old(m).descriptor.spec_entry().fields@[k as int], old(m).descriptor.file@, *opts) ==> r is Ok,
        r is Ok ==> holds_field(
            final(m).fields@[k as int],
            *v,
            old(m).descriptor.spec_entry().fields@[k as int],
            old(m).descriptor.file@,
            *opts,
        ),
        r matches Err(e) && e is UnknownFieldName ==> !opts.ignore_unknown_fields,
    decreases *v, 2int,
{
    let entry = &m.descriptor.file.imp.messages[m.descriptor.index];
    let f = &entry.fields[k];
    let ghost file = m.descriptor.file@;
    proof {
        assert(index_wf(file));
        assert(field_wf(file, *entry, *f));
    }
    let file_d = m.descriptor.file.share();
    let ghost fits = field_fits(*v, *f, file, *opts);
    assert(*f == old(m).descriptor.spec_entry().fields@[k as int]);
    match f.kind {
        FieldKind::Singular => {
            let x = read_value(v, f.elem, &file_d, opts)?;
            let fd = FieldDescriptor { message: m.descriptor.share(), index: k };
            fd.set_singular_field(m, x);
            assert(m.fields@[k as int] == DynamicFieldValue::Singular(Some(x)));
            assert(holds_field(m.fields@[k as int], *v, *f, file, *opts));
            Ok(())
        },
        FieldKind::Repeated => {
            let elem = f.elem;
            let mut out: Vec<ReflectValueBox> = Vec::new();
            match v {
                JsonValue::Null => {},
                JsonValue::Array(xs) => {
                    assert(fits ==> forall|q: int| 0 <= q < xs@.len() ==> json_fits(#[trigger] xs@[q], elem, file, *opts));
                    let mut i: usize = 0;
                    while i < xs.len()
                        invariant
                            message_wf(*m),
                            *m == *old(m),
                            k < m.fields@.len(),
                            *v == JsonValue::Array(*xs),
                            file_d.wf(),
                            file_d@ == file,
                            elem == f.elem,
                            elem_in_range(file, elem),
                            i <= xs@.len(),
                            out@.len() == i,
                            forall|q: int| 0 <= q < out@.len() ==> value_wf(#[trigger] out@[q], elem, file),
                            forall|q: int| 0 <= q < out@.len() ==> value_is(#[trigger] out@[q], xs@[q], elem, file, *opts),
                            fits == field_fits(*v, *f, file, *opts),
                            *f == old(m).descriptor.spec_entry().fields@[k as int],
                            file == old(m).descriptor.file@,
                            fits ==> forall|q: int| 0 <= q < xs@.len() ==> json_fits(#[trigger] xs@[q], elem, file, *opts),
                        decreases xs@.len() - i,
                    {
                        proof {
                            assert(decreases_to!(*v => v->Array_0));
                            assert(decreases_to!(*xs => xs@));
                            assert(decreases_to!(xs@ => xs@[i as int]));
                        }
                        let x = read_value(&xs[i], elem, &file_d, opts)?;
                        out.push(x);
                        i = i + 1;
                    }
                },
                _ => {
                    return Err(ParseErrorKind::UnexpectedToken);
                },
            }
            let ghost fv = DynamicFieldValue::Repeated(out);
            proof {
                assert(holds_field(fv, *v, *f, file, *opts));
            }
            replace_slot(m, k, DynamicFieldValue::Repeated(out));
            proof {
                assert(m.fields@[k as int] == fv);
            }
            Ok(())
        },
        FieldKind::Mapped(kt, vt) => {
            let mut out: MapEntries = Vec::new();
            match v {
                JsonValue::Null => {},
                JsonValue::Object(kvs) => {
                    assert(fits ==> forall|q: int| 0 <= q < kvs@.len() ==> key_ok((#[trigger] kvs@[q]).0@, kt) && json_fits(kvs@[q].1, vt, file, *opts));
                    let ghost mut ks: Seq<ReflectValueBox> = Seq::empty();
                    let ghost mut vs: Seq<ReflectValueBox> = Seq::empty();
                    let mut i: usize = 0;
                    while i < kvs.len()
                        invariant
                            message_wf(*m),
                            *m == *old(m),
                            k < m.fields@.len(),
                            *v == JsonValue::Object(*kvs),
                            file_d.wf(),
                            file_d@ == file,
                            f.kind == FieldKind::Mapped(kt, vt),
                            valid_map_key(kt),
                            elem_in_range(file, vt),
                            i <= kvs@.len(),
                            forall|q: int| 0 <= q < out@.len() ==> value_wf((#[trigger] out@[q]).0, kt, file) && value_wf(out@[q].1, vt, file),
                            keys_unique(out@),
                            ks.len() == i,
                            vs.len() == i,
                            forall|q: int| 0 <= q < i ==> crate::json::key_spec((#[trigger] kvs@[q]).0@, kt, ks[q]) && value_is(vs[q], kvs@[q].1, vt, file, *opts),
                            out@ == insert_all(ks, vs, i as int),
                            fits == field_fits(*v, *f, file, *opts),
                            *f == old(m).descriptor.spec_entry().fields@[k as int],
                            file == old(m).descriptor.file@,
                            fits ==> forall|q: int| 0 <= q < kvs@.len() ==> key_ok((#[trigger] kvs@[q]).0@, kt) && json_fits(kvs@[q].1, vt, file, *opts),
                        decreases kvs@.len() - i,
                    {
                        proof {
                            assert(decreases_to!(*v => v->Object_0));
                            assert(decreases_to!(*kvs => kvs@));
                            assert(decreases_to!(kvs@ => kvs@[i as int]));
                            assert(decreases_to!(kvs@[i as int] => kvs@[i as int].1));
                        }
                        let key = match parse_key(kvs[i].0.as_str(), kt) {
                            Ok(key) => key,
                            Err(e) => {
                                return Err(e);
                            },
                        };
                        proof {
                            assert(value_wf(key, kt, file)) by {
                                assert(crate::json::key_spec(kvs@[i as int].0@, kt, key));
                            }
                        }
                        let val = read_value(&kvs[i].1, vt, &file_d, opts)?;
                        let ghost old_ks = ks;
                        let ghost old_vs = vs;
                        proof {
                            lemma_map_insert_wf(out@, key, val, kt, vt, file);
                            ks = ks.push(key);
                            vs = vs.push(val);
                            lemma_insert_all_prefix(ks, vs, old_ks, old_vs, i as int);
                        }
                        entries_insert(&mut out, key, val);
                        proof {
                            assert(insert_all(ks, vs, i + 1) == map_insert(insert_all(ks, vs, i as int), ks[i as int], vs[i as int]));
                            assert(forall|q: int| 0 <= q < i ==> ks[q] == old_ks[q] && vs[q] == old_vs[q]);
                        }
                        i = i + 1;
                    }
                    proof {
                        assert(map_witness(out@, *v, kt, vt, file, *opts, ks, vs));
                        assert(exists|ks2: Seq<ReflectValueBox>, vs2: Seq<ReflectValueBox>| #[trigger] map_witness(out@, *v, kt, vt, file, *opts, ks2, vs2));
                        assert(f.kind == FieldKind::Mapped(kt, vt));
                        assert(holds_field(DynamicFieldValue::Mapped(out), *v, *f, file, *opts));
                    }
                },
                _ => {
                    return Err(ParseErrorKind::UnexpectedToken);
                },
            }
            let ghost fv = DynamicFieldValue::Mapped(out);
            proof {
                assert(holds_field(fv, *v, *f, file, *opts));
            }
            replace_slot(m, k, DynamicFieldValue::Mapped(out));
            proof {
                assert(m.fields@[k as int] == fv);
            }
            Ok(())
        },
    }
}

proof fn lemma_insert_all_prefix(
    ks: Seq<ReflectValueBox>,
    vs: Seq<ReflectValueBox>,
    ks2: Seq<ReflectValueBox>,
    vs2: Seq<ReflectValueBox>,
    n: int,
)
    requires
        0 <= n <= ks2.len() <= ks.len(),
        n <= vs2.len() <= vs.len(),
        forall|q: int| 0 <= q < n ==> ks[q] == ks2[q] && vs[q] == vs2[q],
    ensures
        insert_all(ks, vs, n) == insert_all(ks2, vs2, n),
    decreases n,
{
    if n > 0 {
        lemma_insert_all_prefix(ks, vs, ks2, vs2, n - 1);
    }
}

/// Merges the members of a JSON object into a message, in order. A key is
/// looked up as a field name, then as a JSON name; a key that names no
/// field is an error unless `opts` says to skip it.
fn merge_entries(m: &mut DynamicMessage, es: &Vec<(String, JsonValue)>, opts: &ParseOptions) -> (r: Result<(), ParseErrorKind>)
    requires
        message_wf(*old(m)),
    ensures
        merge_post(*old(m), *final(m), es@, *opts, r),
    decreases es, 3int,
{
    let ghost d = m.descriptor;
    let ghost start = *m;
    let nf = m.fields.len();
    let mut p: usize = 0;
    while p < es.len()
        invariant
            message_wf(*m),
            m.descriptor == d,
            d == start.descriptor,
            message_wf(start),
            m.fields@.len() == start.fields@.len(),
            m.unknown_fields == start.unknown_fields,
            start == *old(m),
            nf == m.fields@.len(),
            nf == d.spec_entry().fields@.len(),
            p <= es@.len(),
            merge_progress(start, *m, es@, *opts, p as int),
        decreases es@.len() - p,
    {
        let key: &str = es[p].0.as_str();
        let fd = m.descriptor.get_field_by_name_or_json_name(key);
        proof {
            lemma_pos_range(d.spec_entry().fields@, es@[p as int].0@);
            assert(key@ == es@[p as int].0@);
        }
        match fd {
            None => {
                if !opts.ignore_unknown_fields {
                    assert(entry_field(start.descriptor, es@, p as int) is None);
                    assert(!entry_fits(es@[p as int], d.index as int, d.file@, *opts));
                    return Err(ParseErrorKind::UnknownFieldName(es[p].0.clone()));
                }
            },
            Some(f) => {
                proof {
                    assert(decreases_to!(*es => es@));
                    assert(decreases_to!(es@ => es@[p as int]));
                    assert(decreases_to!(es@[p as int] => es@[p as int].1));
                }
                let ghost before = *m;
                assert(merge_progress(start, before, es@, *opts, p as int));
                let k = f.index;
                let res = merge_field(m, k, &es[p].1, opts);
                match res {
                    Ok(()) => {
                        proof {
                            let fields = d.spec_entry().fields@;
                            assert(pos_by_name_or_json_name(fields, key@) == Some(k as int));
                            assert(entry_field(d, es@, p as int) == Some(k as int));
                            assert forall|j: int|
                                0 <= j < m.fields@.len() && (forall|e: int| 0 <= e < p + 1 ==> !#[trigger] touches(d, es@, e, j))
                                    implies #[trigger] m.fields@[j] == start.fields@[j] by {
                                assert(!touches(d, es@, p as int, j));
                                assert(m.fields@[j] == before.fields@[j]);
                            }
                            assert forall|e: int, j: int|
                                0 <= e < p + 1 && entry_field(d, es@, e) == Some(j) && (forall|e2: int|
                                    e < e2 < p + 1 ==> !#[trigger] touches(d, es@, e2, j)) implies #[trigger] holds_field(m.fields@[j], es@[e].1, fields[j], d.file@, *opts) by {
                                lemma_pos_range(fields, es@[e].0@);
                                if e < p {
                                    assert(!touches(d, es@, p as int, j));
                                    assert(m.fields@[j] == before.fields@[j]);
                                    assert(forall|e2: int| e < e2 < p ==> !#[trigger] touches(d, es@, e2, j));
                                    let _ = es@[e].1;
                                    assert(holds_field(before.fields@[j], es@[e].1, fields[j], d.file@, *opts));
                                } else {
                                    assert(j == k as int);
                                }
                            }
                        }
                    },
                    Err(e) => {
                        proof {
                            assert(pos_by_name_or_json_name(d.spec_entry().fields@, key@) == Some(k as int));
                            assert(!entry_fits(es@[p as int], d.index as int, d.file@, *opts));
                        }
                        return Err(e);
                    },
                }
            },
        }
        p = p + 1;
    }
    Ok(())
}

/// Merges the members of a JSON object into a message; see `merge_post`.
/// Errors carry no position: the caller that tokenized the text knows it.
pub fn merge_object(m: &mut DynamicMessage, entries: &Vec<(String, JsonValue)>, opts: &ParseOptions) -> (r: Result<
    (),
    ParseErrorKind,
>)
    requires
        message_wf(*old(m)),
    ensures
        merge_post(*old(m), *final(m), entries@, *opts, r),
{
    merge_entries(m, entries, opts)
}

} // verus!

