//! Messages whose storage is built from a descriptor at run time.
use vstd::prelude::*;
use crate::descriptor::{FieldDescriptor, MessageDescriptor};
use crate::index::{ElemType, FieldIndex, FieldKind, FileIndex};
use crate::schema::Label;
use crate::value::{value_eq, value_wf, ReflectEqMode, ReflectValueBox};

verus! {

/// The storage of one field.
pub enum DynamicFieldValue {
    Singular(Option<ReflectValueBox>),
    Repeated(Vec<ReflectValueBox>),
    Mapped(Vec<(ReflectValueBox, ReflectValueBox)>),
}

/// A field read from the wire that the descriptor does not declare, kept
/// as it was read.
pub struct UnknownField {
    pub number: u32,
    /// The encoded record: tag, then payload.
    pub bytes: Vec<u8>,
}

/// A message built from a descriptor: one slot per field, by position.
pub struct DynamicMessage {
    pub descriptor: MessageDescriptor,
    pub fields: Vec<DynamicFieldValue>,
    /// Fields of numbers the descriptor does not declare, in the order read.
    pub unknown_fields: Vec<UnknownField>,
    /// The encoded size, as last computed; `None` once a field changed.
    pub cached_size: Option<u32>,
}

pub open spec fn field_value_wf(fv: DynamicFieldValue, f: FieldIndex, file: FileIndex) -> bool
    decreases fv,
{
    match fv {
        DynamicFieldValue::Singular(o) => f.kind == FieldKind::Singular && match o {
            Some(v) => value_wf(v, f.elem, file),
            None => true,
        },
        DynamicFieldValue::Repeated(vs) => f.kind == FieldKind::Repeated && forall|i: int|
            0 <= i < vs@.len() ==> value_wf(#[trigger] vs@[i], f.elem, file),
        DynamicFieldValue::Mapped(es) => match f.kind {
            FieldKind::Mapped(k, v) => crate::index::valid_map_key(k) && (forall|i: int|
                0 <= i < es@.len() ==> value_wf((#[trigger] es@[i]).0, k, file) && value_wf(
                    es@[i].1,
                    v,
                    file,
                )) && keys_unique(es@),
            _ => false,
        },
    }
}

/// No two entries have equal keys.
pub open spec fn keys_unique(es: Seq<(ReflectValueBox, ReflectValueBox)>) -> bool {
    forall|i: int, j: int|
        0 <= i < es.len() && 0 <= j < es.len() && i != j ==> !value_eq(
            (#[trigger] es[i]).0,
            (#[trigger] es[j]).0,
            false,
        )
}

/// A singular field holds a value.
pub open spec fn is_set(fv: DynamicFieldValue) -> bool {
    fv matches DynamicFieldValue::Singular(Some(_))
}

/// At most one field of each oneof holds a value.
pub open spec fn oneofs_exclusive(fields: Seq<DynamicFieldValue>, entries: Seq<FieldIndex>) -> bool {
    forall|i: int, j: int|
        0 <= i < fields.len() && 0 <= j < fields.len() && i != j && entries[i].oneof is Some
            && entries[i].oneof == entries[j].oneof ==> !(is_set(#[trigger] fields[i]) && is_set(
            #[trigger] fields[j],
        ))
}

/// A well-formed message: one slot per field of its descriptor, each
/// holding values of the field's type, map keys unique, and at most one
/// field of each oneof set.
pub open spec fn message_wf(m: DynamicMessage) -> bool
    decreases m,
{
    &&& m.descriptor.wf()
    &&& m.fields@.len() == m.descriptor.spec_entry().fields@.len()
    &&& forall|i: int|
        0 <= i < m.fields@.len() ==> field_value_wf(
            #[trigger] m.fields@[i],
            m.descriptor.spec_entry().fields@[i],
            m.descriptor.file@,
        )
    &&& oneofs_exclusive(m.fields@, m.descriptor.spec_entry().fields@)
}

/// Some entry of `ys` has a key and a value equal to those of `e`.
pub open spec fn has_entry(
    e: (ReflectValueBox, ReflectValueBox),
    ys: Seq<(ReflectValueBox, ReflectValueBox)>,
    nan_equal: bool,
) -> bool
    decreases e,
{
    exists|j: int|
        0 <= j < ys.len() && value_eq(e.0, (#[trigger] ys[j]).0, nan_equal) && value_eq(
            e.1,
            ys[j].1,
            nan_equal,
        )
}

/// Two maps are equal when they have as many entries and each entry of the
/// first has an equal entry in the second; the order of entries is ignored.
pub open spec fn entries_eq_spec(
    xs: Seq<(ReflectValueBox, ReflectValueBox)>,
    ys: Seq<(ReflectValueBox, ReflectValueBox)>,
    nan_equal: bool,
) -> bool
    decreases xs,
{
    xs.len() == ys.len() && forall|i: int| 0 <= i < xs.len() ==> has_entry(#[trigger] xs[i], ys, nan_equal)
}

pub open spec fn field_eq(a: DynamicFieldValue, b: DynamicFieldValue, nan_equal: bool) -> bool
    decreases a,
{
    match (a, b) {
        (DynamicFieldValue::Singular(x), DynamicFieldValue::Singular(y)) => match (x, y) {
            (Some(x), Some(y)) => value_eq(x, y, nan_equal),
            (None, None) => true,
            _ => false,
        },
        (DynamicFieldValue::Repeated(x), DynamicFieldValue::Repeated(y)) => x@.len() == y@.len()
            && forall|i: int| 0 <= i < x@.len() ==> value_eq(#[trigger] x@[i], y@[i], nan_equal),
        (DynamicFieldValue::Mapped(x), DynamicFieldValue::Mapped(y)) => entries_eq_spec(x@, y@, nan_equal),
        _ => false,
    }
}

/// Two messages are equal when each field compares equal as the accessor
/// reads it: an unset singular field reads as its type's default, so it
/// equals a field set to that default.
pub open spec fn message_eq(a: DynamicMessage, b: DynamicMessage, nan_equal: bool) -> bool
    decreases a,
{
    &&& a.fields@.len() == b.fields@.len()
    &&& forall|i: int|
        0 <= i < a.fields@.len() ==> field_eq(#[trigger] a.fields@[i], b.fields@[i], nan_equal) || (entries_ok(a)
            && unset_matches_default(a.fields@[i], b.fields@[i], a.descriptor.spec_entry().fields@[i], a.descriptor.file@, nan_equal))
}

/// The message's descriptor is in range and gives one entry per slot.
pub open spec fn entries_ok(m: DynamicMessage) -> bool {
    m.descriptor.index < m.descriptor.file@.messages@.len() && m.fields@.len() == m.descriptor.spec_entry().fields@.len()
}

/// A value is the default of singular field `f`: zero, false, empty, the
/// enum's first declared number (zero if none); no message is a default.
pub open spec fn default_eq(v: ReflectValueBox, f: FieldIndex, file: FileIndex, nan_equal: bool) -> bool {
    f.kind == FieldKind::Singular && match (v, f.elem) {
        (ReflectValueBox::U32(x), ElemType::U32) => x == 0,
        (ReflectValueBox::U64(x), ElemType::U64) => x == 0,
        (ReflectValueBox::I32(x), ElemType::I32) => x == 0,
        (ReflectValueBox::I64(x), ElemType::I64) => x == 0,
        (ReflectValueBox::F32(x), ElemType::F32) => crate::float::f32_eq_spec(x, 0, nan_equal),
        (ReflectValueBox::F64(x), ElemType::F64) => crate::float::f64_eq_spec(x, 0, nan_equal),
        (ReflectValueBox::Bool(x), ElemType::Bool) => !x,
        (ReflectValueBox::String(x), ElemType::String) => x@.len() == 0,
        (ReflectValueBox::Bytes(x), ElemType::Bytes) => x@.len() == 0,
        (ReflectValueBox::Enum(_, x), ElemType::Enum(k)) => k < file.enums@.len() && x
            == crate::accessor::enum_default_number(file, k as int),
        _ => false,
    }
}

/// One slot is an unset singular field and the other holds its default.
pub open spec fn unset_matches_default(a: DynamicFieldValue, b: DynamicFieldValue, f: FieldIndex, file: FileIndex, nan_equal: bool) -> bool {
    (a == DynamicFieldValue::Singular(None) && b is Singular && b->Singular_0 is Some && default_eq(
        b->Singular_0->0,
        f,
        file,
        nan_equal,
    )) || (b == DynamicFieldValue::Singular(None) && a is Singular && a->Singular_0 is Some && default_eq(
        a->Singular_0->0,
        f,
        file,
        nan_equal,
    ))
}

fn is_default(v: &ReflectValueBox, f: &FieldIndex, file: &FileIndex, mode: &ReflectEqMode) -> (r: bool)
    ensures
        r == default_eq(*v, *f, *file, mode.nan_equal),
{
    if f.kind != FieldKind::Singular {
        return false;
    }
    match (v, f.elem) {
        (ReflectValueBox::U32(x), ElemType::U32) => *x == 0,
        (ReflectValueBox::U64(x), ElemType::U64) => *x == 0,
        (ReflectValueBox::I32(x), ElemType::I32) => *x == 0,
        (ReflectValueBox::I64(x), ElemType::I64) => *x == 0,
        (ReflectValueBox::F32(x), ElemType::F32) => crate::float::f32_eq(*x, 0, mode.nan_equal),
        (ReflectValueBox::F64(x), ElemType::F64) => crate::float::f64_eq(*x, 0, mode.nan_equal),
        (ReflectValueBox::Bool(x), ElemType::Bool) => !*x,
        (ReflectValueBox::String(x), ElemType::String) => x.as_str().unicode_len() == 0,
        (ReflectValueBox::Bytes(x), ElemType::Bytes) => x.len() == 0,
        (ReflectValueBox::Enum(_, x), ElemType::Enum(k)) => {
            if k < file.enums.len() {
                let values = &file.enums[k].values;
                let n = if values.len() > 0 {
                    values[0].number
                } else {
                    0
                };
                *x == n
            } else {
                false
            }
        },
        _ => false,
    }
}

fn slots_match_default(a: &DynamicFieldValue, b: &DynamicFieldValue, f: &FieldIndex, file: &FileIndex, mode: &ReflectEqMode) -> (r: bool)
    ensures
        r == unset_matches_default(*a, *b, *f, *file, mode.nan_equal),
{
    match (a, b) {
        (DynamicFieldValue::Singular(None), DynamicFieldValue::Singular(Some(v))) => is_default(v, f, file, mode),
        (DynamicFieldValue::Singular(Some(v)), DynamicFieldValue::Singular(None)) => is_default(v, f, file, mode),
        _ => false,
    }
}


fn has_equal_entry(
    e: &(ReflectValueBox, ReflectValueBox),
    b: &Vec<(ReflectValueBox, ReflectValueBox)>,
    mode: &ReflectEqMode,
    Ghost(whole): Ghost<DynamicFieldValue>,
    Ghost(at): Ghost<int>,
) -> (r: bool)
    requires
        whole is Mapped,
        0 <= at < whole->Mapped_0@.len(),
        whole->Mapped_0@[at] == *e,
    ensures
        r == has_entry(*e, b@, mode.nan_equal),
    decreases whole, 1int,
{
    proof {
        let v = whole->Mapped_0;
        assert(decreases_to!(whole => v));
        assert(decreases_to!(v => v@));
        assert(decreases_to!(v@ => v@[at]));
        assert(decreases_to!(v@[at] => v@[at].0));
        assert(decreases_to!(v@[at] => v@[at].1));
        assert(decreases_to!(whole => e.0));
        assert(decreases_to!(whole => e.1));
    }
    let mut j: usize = 0;
    while j < b.len()
        invariant
            j <= b@.len(),
            whole is Mapped,
            0 <= at < whole->Mapped_0@.len(),
            whole->Mapped_0@[at] == *e,
            decreases_to!(whole => e.0),
            decreases_to!(whole => e.1),
            forall|q: int|
                0 <= q < j ==> !(value_eq(e.0, (#[trigger] b@[q]).0, mode.nan_equal)
                    && value_eq(e.1, b@[q].1, mode.nan_equal)),
        decreases b@.len() - j,
    {
        if e.0.reflect_eq(&b[j].0, mode) && e.1.reflect_eq(&b[j].1, mode) {
            return true;
        }
        j = j + 1;
    }
    false
}

pub(crate) fn entries_eq(
    a: &Vec<(ReflectValueBox, ReflectValueBox)>,
    b: &Vec<(ReflectValueBox, ReflectValueBox)>,
    mode: &ReflectEqMode,
    Ghost(whole): Ghost<DynamicFieldValue>,
) -> (r: bool)
    requires
        whole == DynamicFieldValue::Mapped(*a),
    ensures
        r == field_eq(DynamicFieldValue::Mapped(*a), DynamicFieldValue::Mapped(*b), mode.nan_equal),
    decreases whole, 2int,
{
    if a.len() != b.len() {
        return false;
    }
    let mut i: usize = 0;
    while i < a.len()
        invariant
            i <= a@.len(),
            a@.len() == b@.len(),
            whole == DynamicFieldValue::Mapped(*a),
            forall|p: int| 0 <= p < i ==> has_entry(#[trigger] a@[p], b@, mode.nan_equal),
        decreases a@.len() - i,
    {
        let found = has_equal_entry(&a[i], b, mode, Ghost(whole), Ghost(i as int));
        if !found {
            return false;
        }
        i = i + 1;
    }
    true
}

fn field_value_reflect_eq(a: &DynamicFieldValue, b: &DynamicFieldValue, mode: &ReflectEqMode) -> (r: bool)
    ensures
        r == field_eq(*a, *b, mode.nan_equal),
    decreases *a, 3int,
{
    match (a, b) {
        (DynamicFieldValue::Singular(x), DynamicFieldValue::Singular(y)) => match (x, y) {
            (Some(x), Some(y)) => {
                proof {
                    assert(decreases_to!(*a => a->Singular_0));
                }
                x.reflect_eq(y, mode)
            },
            (None, None) => true,
            _ => false,
        },
        (DynamicFieldValue::Repeated(x), DynamicFieldValue::Repeated(y)) => {
            if x.len() != y.len() {
                return false;
            }
            let mut i: usize = 0;
            while i < x.len()
                invariant
                    i <= x@.len(),
                    x@.len() == y@.len(),
                    *a == DynamicFieldValue::Repeated(*x),
                    *b == DynamicFieldValue::Repeated(*y),
                    forall|k: int| 0 <= k < i ==> value_eq(#[trigger] x@[k], y@[k], mode.nan_equal),
                decreases x@.len() - i,
            {
                proof {
                    assert(decreases_to!(*a => a->Repeated_0));
                    assert(decreases_to!(*x => x@));
                    assert(decreases_to!(x@ => x@[i as int]));
                }
                if !x[i].reflect_eq(&y[i], mode) {
                    return false;
                }
                i = i + 1;
            }
            true
        },
        (DynamicFieldValue::Mapped(x), DynamicFieldValue::Mapped(y)) => entries_eq(x, y, mode, Ghost(*a)),
        _ => false,
    }
}

impl DynamicMessage {
    /// Reflective equality of two messages of one type, field by field in
    /// declaration order; see `message_eq`. Unknown fields are not compared.
    pub fn reflect_eq(&self, other: &DynamicMessage, mode: &ReflectEqMode) -> (r: bool)
        requires
            self.descriptor == other.descriptor,
        ensures
            r == message_eq(*self, *other, mode.nan_equal),
    {
        self.fields_reflect_eq(other, mode)
    }

    /// Field-by-field comparison, whatever the two types.
    pub(crate) fn fields_reflect_eq(&self, other: &DynamicMessage, mode: &ReflectEqMode) -> (r: bool)
        ensures
            r == message_eq(*self, *other, mode.nan_equal),
        decreases *self, 0int,
    {
        if self.fields.len() != other.fields.len() {
            return false;
        }
        let file: &FileIndex = &self.descriptor.file.imp;
        let ok = self.descriptor.index < file.messages.len()
            && self.fields.len() == file.messages[self.descriptor.index].fields.len();
        let mut i: usize = 0;
        while i < self.fields.len()
            invariant
                i <= self.fields@.len(),
                self.fields@.len() == other.fields@.len(),
                *file == self.descriptor.file@,
                ok == entries_ok(*self),
                forall|k: int|
                    0 <= k < i ==> field_eq(#[trigger] self.fields@[k], other.fields@[k], mode.nan_equal) || (entries_ok(*self)
                        && unset_matches_default(self.fields@[k], other.fields@[k], self.descriptor.spec_entry().fields@[k], self.descriptor.file@, mode.nan_equal)),
            decreases self.fields@.len() - i,
        {
            proof {
                assert(decreases_to!(*self => self.fields));
                assert(decreases_to!(self.fields => self.fields@));
                assert(decreases_to!(self.fields@ => self.fields@[i as int]));
            }
            let same = field_value_reflect_eq(&self.fields[i], &other.fields[i], mode);
            let dflt = ok && slots_match_default(&self.fields[i], &other.fields[i], &file.messages[self.descriptor.index].fields[i], file, mode);
            if !same && !dflt {
                return false;
            }
            i = i + 1;
        }
        true
    }
}


/// A field holds nothing: an unset singular field, an empty sequence or an
/// empty map.
pub open spec fn is_empty_value(fv: DynamicFieldValue, f: FieldIndex) -> bool {
    match f.kind {
        FieldKind::Singular => fv == DynamicFieldValue::Singular(None),
        FieldKind::Repeated => fv is Repeated && fv->Repeated_0@.len() == 0,
        FieldKind::Mapped(_, _) => fv is Mapped && fv->Mapped_0@.len() == 0,
    }
}

pub(crate) fn empty_value(f: &FieldIndex) -> (r: DynamicFieldValue)
    ensures
        is_empty_value(r, *f),
{
    match f.kind {
        FieldKind::Singular => DynamicFieldValue::Singular(None),
        FieldKind::Repeated => DynamicFieldValue::Repeated(Vec::new()),
        FieldKind::Mapped(_, _) => DynamicFieldValue::Mapped(Vec::new()),
    }
}

pub(crate) proof fn lemma_empty_wf(fv: DynamicFieldValue, f: FieldIndex, file: FileIndex)
    requires
        is_empty_value(fv, f),
        f.kind matches FieldKind::Mapped(k, _) ==> crate::index::valid_map_key(k),
    ensures
        field_value_wf(fv, f, file),
{
}

impl MessageDescriptor {
    /// A new message of this type with every field absent.
    pub fn new_instance(&self) -> (r: DynamicMessage)
        requires
            self.wf(),
            !self.spec_entry().map_entry,
        ensures
            message_wf(r),
            r.descriptor == *self,
            forall|i: int| 0 <= i < r.fields@.len() ==> is_empty_value(#[trigger] r.fields@[i], self.spec_entry().fields@[i]),
            r.unknown_fields@.len() == 0,
            r.cached_size is None,
    {
        let entry = &self.file.imp.messages[self.index];
        let mut fields: Vec<DynamicFieldValue> = Vec::new();
        let mut j: usize = 0;
        while j < entry.fields.len()
            invariant
                *entry == self.spec_entry(),
                j <= entry.fields@.len(),
                fields@.len() == j,
                forall|i: int| 0 <= i < j ==> is_empty_value(#[trigger] fields@[i], entry.fields@[i]),
            decreases entry.fields@.len() - j,
        {
            fields.push(empty_value(&entry.fields[j]));
            j = j + 1;
        }
        let r = DynamicMessage {
            descriptor: self.share(),
            fields,
            unknown_fields: Vec::new(),
            cached_size: None,
        };
        assert forall|i: int| 0 <= i < r.fields@.len() implies field_value_wf(
            #[trigger] r.fields@[i],
            r.descriptor.spec_entry().fields@[i],
            r.descriptor.file@,
        ) by {
            assert(crate::index::field_wf(self.file@, *entry, entry.fields@[i]));
            lemma_empty_wf(r.fields@[i], entry.fields@[i], r.descriptor.file@);
        }
        r
    }
}


/// The unknown fields written out: each record's bytes, in order.
pub open spec fn unknown_bytes(us: Seq<UnknownField>) -> Seq<u8>
    decreases us.len(),
{
    if us.len() == 0 {
        seq![]
    } else {
        unknown_bytes(us.drop_last()) + us.last().bytes@
    }
}

impl DynamicMessage {
    /// Keeps a field read from the wire whose number the descriptor does
    /// not declare; `bytes` is the whole encoded record.
    pub fn add_unknown_field(&mut self, number: u32, bytes: Vec<u8>)
        ensures
            final(self).unknown_fields@ == old(self).unknown_fields@.push(UnknownField { number, bytes }),
            final(self).descriptor == old(self).descriptor,
            final(self).fields == old(self).fields,
            final(self).cached_size is None,
    {
        self.unknown_fields.push(UnknownField { number, bytes });
        self.cached_size = None;
    }

    /// Appends the unknown fields to `out`, byte for byte as they were read.
    pub fn write_unknown_fields(&self, out: &mut Vec<u8>)
        ensures
            final(out)@ == old(out)@ + unknown_bytes(self.unknown_fields@),
    {
        let mut i: usize = 0;
        while i < self.unknown_fields.len()
            invariant
                i <= self.unknown_fields@.len(),
                out@ == old(out)@ + unknown_bytes(self.unknown_fields@.subrange(0, i as int)),
            decreases self.unknown_fields@.len() - i,
        {
            let bytes = &self.unknown_fields[i].bytes;
            let ghost before = out@;
            let mut k: usize = 0;
            while k < bytes.len()
                invariant
                    k <= bytes@.len(),
                    out@ == before + bytes@.subrange(0, k as int),
                decreases bytes@.len() - k,
            {
                out.push(bytes[k]);
                proof {
                    assert(before + bytes@.subrange(0, k + 1) =~= (before + bytes@.subrange(0, k as int)).push(bytes@[k as int]));
                }
                k = k + 1;
            }
            proof {
                let us = self.unknown_fields@;
                assert(us.subrange(0, i + 1).drop_last() =~= us.subrange(0, i as int));
                assert(bytes@.subrange(0, bytes@.len() as int) =~= bytes@);
                assert(out@ =~= old(out)@ + unknown_bytes(us.subrange(0, i + 1)));
            }
            i = i + 1;
        }
        assert(self.unknown_fields@.subrange(0, self.unknown_fields@.len() as int) =~= self.unknown_fields@);
    }

    /// The encoded size, if it was computed since the last change.
    pub fn get_cached_size(&self) -> (r: Option<u32>)
        ensures
            r == self.cached_size,
    {
        self.cached_size
    }

    /// Records the encoded size that the wire codec computed.
    pub fn set_cached_size(&mut self, size: u32)
        ensures
            final(self).cached_size == Some(size),
            final(self).descriptor == old(self).descriptor,
            final(self).fields == old(self).fields,
            final(self).unknown_fields == old(self).unknown_fields,
    {
        self.cached_size = Some(size);
    }
}


fn clone_field_value(fv: &DynamicFieldValue) -> (r: DynamicFieldValue)
    ensures
        field_eq(*fv, r, true),
        forall|f: FieldIndex, file: FileIndex| field_value_wf(*fv, f, file) ==> field_value_wf(r, f, file),
        is_set(*fv) == is_set(r),
    decreases *fv, 3int,
{
    match fv {
        DynamicFieldValue::Singular(Some(v)) => {
            proof {
                assert(decreases_to!(*fv => fv->Singular_0));
            }
            let c = v.clone_value();
            proof {
                assert forall|f: FieldIndex, file: FileIndex| field_value_wf(*fv, f, file) implies field_value_wf(
                    DynamicFieldValue::Singular(Some(c)),
                    f,
                    file,
                ) by {
                    assert(value_wf(*v, f.elem, file));
                }
            }
            DynamicFieldValue::Singular(Some(c))
        },
        DynamicFieldValue::Singular(None) => DynamicFieldValue::Singular(None),
        DynamicFieldValue::Repeated(xs) => {
            let mut out: Vec<ReflectValueBox> = Vec::new();
            let mut i: usize = 0;
            while i < xs.len()
                invariant
                    *fv == DynamicFieldValue::Repeated(*xs),
                    i <= xs@.len(),
                    out@.len() == i,
                    forall|k: int| 0 <= k < i ==> value_eq(#[trigger] xs@[k], out@[k], true),
                    forall|k: int, e: ElemType, file: FileIndex|
                        0 <= k < i && #[trigger] value_wf(xs@[k], e, file) ==> value_wf(out@[k], e, file),
                decreases xs@.len() - i,
            {
                proof {
                    assert(decreases_to!(*fv => fv->Repeated_0));
                    assert(decreases_to!(*xs => xs@));
                    assert(decreases_to!(xs@ => xs@[i as int]));
                }
                out.push(xs[i].clone_value());
                i = i + 1;
            }
            proof {
                assert forall|f: FieldIndex, file: FileIndex| field_value_wf(*fv, f, file) implies field_value_wf(
                    DynamicFieldValue::Repeated(out),
                    f,
                    file,
                ) by {
                    assert forall|q: int| 0 <= q < out@.len() implies value_wf(#[trigger] out@[q], f.elem, file) by {
                        assert(value_wf(xs@[q], f.elem, file));
                    }
                }
            }
            DynamicFieldValue::Repeated(out)
        },
        DynamicFieldValue::Mapped(es) => {
            let mut out: Vec<(ReflectValueBox, ReflectValueBox)> = Vec::new();
            let mut i: usize = 0;
            while i < es.len()
                invariant
                    *fv == DynamicFieldValue::Mapped(*es),
                    i <= es@.len(),
                    out@.len() == i,
                    forall|k: int| 0 <= k < i ==> value_eq((#[trigger] es@[k]).0, out@[k].0, true)
                        && value_eq(es@[k].1, out@[k].1, true),
                    forall|k: int, e: ElemType, file: FileIndex|
                        0 <= k < i && #[trigger] value_wf(es@[k].0, e, file) ==> value_wf(out@[k].0, e, file),
                    forall|k: int, e: ElemType, file: FileIndex|
                        0 <= k < i && #[trigger] value_wf(es@[k].1, e, file) ==> value_wf(out@[k].1, e, file),
                decreases es@.len() - i,
            {
                proof {
                    assert(decreases_to!(*fv => fv->Mapped_0));
                    assert(decreases_to!(*es => es@));
                    assert(decreases_to!(es@ => es@[i as int]));
                    assert(decreases_to!(es@[i as int] => es@[i as int].0));
                    assert(decreases_to!(es@[i as int] => es@[i as int].1));
                }
                let k = es[i].0.clone_value();
                let v = es[i].1.clone_value();
                out.push((k, v));
                i = i + 1;
            }
            proof {
                assert forall|i: int| 0 <= i < es@.len() implies has_entry(#[trigger] es@[i], out@, true) by {
                    assert(value_eq(es@[i].0, out@[i].0, true) && value_eq(es@[i].1, out@[i].1, true));
                }
                assert forall|f: FieldIndex, file: FileIndex| field_value_wf(*fv, f, file) implies field_value_wf(
                    DynamicFieldValue::Mapped(out),
                    f,
                    file,
                ) by {
                    if let FieldKind::Mapped(kt, vt) = f.kind {
                        assert forall|q: int| 0 <= q < out@.len() implies value_wf((#[trigger] out@[q]).0, kt, file)
                            && value_wf(out@[q].1, vt, file) by {
                            assert(value_wf(es@[q].0, kt, file));
                            assert(value_wf(es@[q].1, vt, file));
                        }
                        assert forall|a: int, b: int|
                            0 <= a < out@.len() && 0 <= b < out@.len() && a != b implies !value_eq(
                            (#[trigger] out@[a]).0,
                            (#[trigger] out@[b]).0,
                            false,
                        ) by {
                            assert(value_wf(es@[a].0, kt, file));
                            assert(value_wf(es@[b].0, kt, file));
                            assert(!value_eq(es@[a].0, es@[b].0, false));
                            crate::map::lemma_key_eq(es@[a].0, out@[a].0, out@[b].0, kt, file);
                            crate::map::lemma_key_eq(es@[a].0, out@[b].0, es@[b].0, kt, file);
                            crate::map::lemma_key_eq(out@[b].0, es@[b].0, es@[a].0, kt, file);
                            crate::map::lemma_key_eq(es@[b].0, out@[b].0, es@[a].0, kt, file);
                        }
                    }
                }
            }
            DynamicFieldValue::Mapped(out)
        },
    }
}

impl DynamicMessage {
    /// A deep copy: every present field is copied, unknown fields included;
    /// the copy equals this message.
    pub fn clone_message(&self) -> (r: DynamicMessage)
        ensures
            message_eq(*self, r, true),
            r.descriptor == self.descriptor,
            message_wf(*self) ==> message_wf(r),
            r.cached_size == self.cached_size,
            r.unknown_fields@.len() == self.unknown_fields@.len(),
            forall|i: int| 0 <= i < r.unknown_fields@.len() ==> (#[trigger] r.unknown_fields@[i]).number
                == self.unknown_fields@[i].number && r.unknown_fields@[i].bytes@ == self.unknown_fields@[i].bytes@,
        decreases *self, 0int,
    {
        let mut fields: Vec<DynamicFieldValue> = Vec::new();
        let mut i: usize = 0;
        while i < self.fields.len()
            invariant
                i <= self.fields@.len(),
                fields@.len() == i,
                forall|k: int| 0 <= k < i ==> field_eq(#[trigger] self.fields@[k], fields@[k], true),
                forall|k: int| 0 <= k < i ==> is_set(#[trigger] self.fields@[k]) == is_set(fields@[k]),
                forall|k: int, f: FieldIndex, file: FileIndex|
                    0 <= k < i && #[trigger] field_value_wf(self.fields@[k], f, file) ==> field_value_wf(fields@[k], f, file),
            decreases self.fields@.len() - i,
        {
            proof {
                assert(decreases_to!(*self => self.fields));
                assert(decreases_to!(self.fields => self.fields@));
                assert(decreases_to!(self.fields@ => self.fields@[i as int]));
            }
            fields.push(clone_field_value(&self.fields[i]));
            i = i + 1;
        }
        let mut unknown: Vec<UnknownField> = Vec::new();
        let mut j: usize = 0;
        while j < self.unknown_fields.len()
            invariant
                j <= self.unknown_fields@.len(),
                unknown@.len() == j,
                forall|q: int| 0 <= q < j ==> (#[trigger] unknown@[q]).number == self.unknown_fields@[q].number
                    && unknown@[q].bytes@ == self.unknown_fields@[q].bytes@,
            decreases self.unknown_fields@.len() - j,
        {
            let b = self.unknown_fields[j].bytes.clone();
            assert(b@ =~= self.unknown_fields@[j as int].bytes@);
            unknown.push(UnknownField { number: self.unknown_fields[j].number, bytes: b });
            j = j + 1;
        }
        let r = DynamicMessage {
            descriptor: self.descriptor.share(),
            fields,
            unknown_fields: unknown,
            cached_size: self.cached_size,
        };
        proof {
            if message_wf(*self) {
                let entries = self.descriptor.spec_entry().fields@;
                assert forall|k: int| 0 <= k < r.fields@.len() implies field_value_wf(
                    #[trigger] r.fields@[k],
                    entries[k],
                    r.descriptor.file@,
                ) by {
                    assert(field_value_wf(self.fields@[k], entries[k], self.descriptor.file@));
                }
                assert forall|a: int, b: int|
                    0 <= a < r.fields@.len() && 0 <= b < r.fields@.len() && a != b && entries[a].oneof is Some
                        && entries[a].oneof == entries[b].oneof implies !(is_set(#[trigger] r.fields@[a])
                    && is_set(#[trigger] r.fields@[b])) by {
                    assert(is_set(self.fields@[a]) == is_set(r.fields@[a]));
                    assert(is_set(self.fields@[b]) == is_set(r.fields@[b]));
                }
            }
        }
        r
    }
}


/// A value is initialized when, being a message, it is initialized.
pub open spec fn value_initialized(v: ReflectValueBox) -> bool
    decreases v,
{
    match v {
        ReflectValueBox::Message(m) => message_initialized(*m),
        _ => true,
    }
}

/// Every message a field holds is initialized.
pub open spec fn field_initialized(fv: DynamicFieldValue) -> bool
    decreases fv,
{
    match fv {
        DynamicFieldValue::Singular(Some(v)) => value_initialized(v),
        DynamicFieldValue::Singular(None) => true,
        DynamicFieldValue::Repeated(xs) => forall|i: int| 0 <= i < xs@.len() ==> value_initialized(#[trigger] xs@[i]),
        DynamicFieldValue::Mapped(es) => forall|i: int| 0 <= i < es@.len() ==> value_initialized((#[trigger] es@[i]).1),
    }
}

/// A message is initialized when every required field is set and every
/// message it holds is initialized.
pub open spec fn message_initialized(m: DynamicMessage) -> bool
    decreases m,
{
    forall|i: int|
        0 <= i < m.fields@.len() ==> {
            &&& (i < m.descriptor.spec_entry().fields@.len() && m.descriptor.spec_entry().fields@[i].label
                == Label::Required ==> is_set(#[trigger] m.fields@[i]))
            &&& field_initialized(m.fields@[i])
        }
}

fn value_is_initialized(v: &ReflectValueBox) -> (r: bool)
    requires
        value_wf_any(*v),
    ensures
        r == value_initialized(*v),
    decreases *v, 0int,
{
    match v {
        ReflectValueBox::Message(m) => m.is_initialized(),
        _ => true,
    }
}

fn field_is_initialized(fv: &DynamicFieldValue) -> (r: bool)
    requires
        field_wf_any(*fv),
    ensures
        r == field_initialized(*fv),
    decreases *fv, 2int,
{
    match fv {
        DynamicFieldValue::Singular(Some(v)) => {
            proof {
                assert(decreases_to!(*fv => fv->Singular_0));
            }
            value_is_initialized(v)
        },
        DynamicFieldValue::Singular(None) => true,
        DynamicFieldValue::Repeated(xs) => {
            let mut i: usize = 0;
            while i < xs.len()
                invariant
                    *fv == DynamicFieldValue::Repeated(*xs),
                    field_wf_any(*fv),
                    i <= xs@.len(),
                    forall|k: int| 0 <= k < i ==> value_initialized(#[trigger] xs@[k]),
                decreases xs@.len() - i,
            {
                proof {
                    assert(decreases_to!(*fv => fv->Repeated_0));
                    assert(decreases_to!(*xs => xs@));
                    assert(decreases_to!(xs@ => xs@[i as int]));
                }
                if !value_is_initialized(&xs[i]) {
                    return false;
                }
                i = i + 1;
            }
            true
        },
        DynamicFieldValue::Mapped(es) => {
            let mut i: usize = 0;
            while i < es.len()
                invariant
                    *fv == DynamicFieldValue::Mapped(*es),
                    field_wf_any(*fv),
                    i <= es@.len(),
                    forall|k: int| 0 <= k < i ==> value_initialized((#[trigger] es@[k]).1),
                decreases es@.len() - i,
            {
                proof {
                    assert(decreases_to!(*fv => fv->Mapped_0));
                    assert(decreases_to!(*es => es@));
                    assert(decreases_to!(es@ => es@[i as int]));
                    assert(decreases_to!(es@[i as int] => es@[i as int].1));
                }
                if !value_is_initialized(&es[i].1) {
                    return false;
                }
                i = i + 1;
            }
            true
        },
    }
}

/// Some schema gives the value a type.
pub open spec fn value_wf_any(v: ReflectValueBox) -> bool {
    v is Message ==> message_wf(*v->Message_0)
}

/// The messages a field holds are well formed.
pub open spec fn field_wf_any(fv: DynamicFieldValue) -> bool {
    match fv {
        DynamicFieldValue::Singular(Some(v)) => value_wf_any(v),
        DynamicFieldValue::Singular(None) => true,
        DynamicFieldValue::Repeated(xs) => forall|i: int| 0 <= i < xs@.len() ==> value_wf_any(#[trigger] xs@[i]),
        DynamicFieldValue::Mapped(es) => forall|i: int| 0 <= i < es@.len() ==> value_wf_any((#[trigger] es@[i]).1),
    }
}

proof fn lemma_value_wf_any(v: ReflectValueBox, e: ElemType, file: FileIndex)
    requires
        value_wf(v, e, file),
    ensures
        value_wf_any(v),
{
}

proof fn lemma_field_wf_any(fv: DynamicFieldValue, f: FieldIndex, file: FileIndex)
    requires
        field_value_wf(fv, f, file),
    ensures
        field_wf_any(fv),
{
    match fv {
        DynamicFieldValue::Repeated(xs) => {
            assert forall|i: int| 0 <= i < xs@.len() implies value_wf_any(#[trigger] xs@[i]) by {
                lemma_value_wf_any(xs@[i], f.elem, file);
            }
        },
        DynamicFieldValue::Mapped(es) => {
            if let FieldKind::Mapped(k, v) = f.kind {
                assert forall|i: int| 0 <= i < es@.len() implies value_wf_any((#[trigger] es@[i]).1) by {
                    lemma_value_wf_any(es@[i].1, v, file);
                }
            }
        },
        _ => {},
    }
}

impl DynamicMessage {
    /// Whether every required field is set, here and in every message held.
    pub fn is_initialized(&self) -> (r: bool)
        requires
            message_wf(*self),
        ensures
            r == message_initialized(*self),
        decreases *self, 3int,
    {
        let entry = &self.descriptor.file.imp.messages[self.descriptor.index];
        let mut i: usize = 0;
        while i < self.fields.len()
            invariant
                message_wf(*self),
                *entry == self.descriptor.spec_entry(),
                i <= self.fields@.len(),
                forall|k: int|
                    0 <= k < i ==> {
                        &&& (k < self.descriptor.spec_entry().fields@.len()
                            && self.descriptor.spec_entry().fields@[k].label == Label::Required
                            ==> is_set(#[trigger] self.fields@[k]))
                        &&& field_initialized(self.fields@[k])
                    },
            decreases self.fields@.len() - i,
        {
            proof {
                assert(decreases_to!(*self => self.fields));
                assert(decreases_to!(self.fields => self.fields@));
                assert(decreases_to!(self.fields@ => self.fields@[i as int]));
                lemma_field_wf_any(self.fields@[i as int], entry.fields@[i as int], self.descriptor.file@);
            }
            if entry.fields[i].label == Label::Required {
                match &self.fields[i] {
                    DynamicFieldValue::Singular(Some(_)) => {},
                    _ => {
                        return false;
                    },
                }
            }
            if !field_is_initialized(&self.fields[i]) {
                return false;
            }
            i = i + 1;
        }
        true
    }

    /// Succeeds when the message is initialized; otherwise gives the
    /// declared name of the message type.
    pub fn check_initialized(&self) -> (r: Result<(), NotInitialized>)
        requires
            message_wf(*self),
        ensures
            r is Ok <==> message_initialized(*self),
            r matches Err(e) ==> e.message@ == self.descriptor.spec_entry().name@,
    {
        if self.is_initialized() {
            Ok(())
        } else {
            Err(NotInitialized { message: self.descriptor.file.imp.messages[self.descriptor.index].name.clone() })
        }
    }
}

/// A message lacks a required field, itself or in a message it holds.
#[derive(Debug)]
pub struct NotInitialized {
    /// The name of the message type checked, as declared.
    pub message: String,
}

} // verus!
