//! The value model: owned and borrowed values of every element type, the
//! typing of values against a schema, and reflective equality.
use vstd::prelude::*;
use crate::descriptor::{EnumDescriptor, MessageDescriptor};
use crate::descriptor::FileDescriptor;
use crate::dynamic::{message_eq, message_wf, DynamicMessage};
use crate::float::{f32_eq, f32_eq_spec, f64_eq, f64_eq_spec};
use crate::index::{ElemType, FileIndex};

verus! {

/// An owned value. Floating-point values are held as their IEEE 754 bit
/// patterns.
pub enum ReflectValueBox {
    U32(u32),
    U64(u64),
    I32(i32),
    I64(i64),
    F32(u32),
    F64(u64),
    Bool(bool),
    String(String),
    Bytes(Vec<u8>),
    /// An enum value: the enum and the number, which need not be declared.
    Enum(EnumDescriptor, i32),
    Message(Box<DynamicMessage>),
}

/// The two ways to compare floating-point values: IEEE 754, where a NaN
/// equals nothing, or with every NaN equal to every NaN.
#[derive(Clone, Copy, Debug, PartialEq, Eq, Structural)]
pub struct ReflectEqMode {
    pub nan_equal: bool,
}

/// A value has the element type `e` of schema unit `file`.
pub open spec fn value_wf(v: ReflectValueBox, e: ElemType, file: FileIndex) -> bool
    decreases v,
{
    match (v, e) {
        (ReflectValueBox::U32(_), ElemType::U32) => true,
        (ReflectValueBox::U64(_), ElemType::U64) => true,
        (ReflectValueBox::I32(_), ElemType::I32) => true,
        (ReflectValueBox::I64(_), ElemType::I64) => true,
        (ReflectValueBox::F32(_), ElemType::F32) => true,
        (ReflectValueBox::F64(_), ElemType::F64) => true,
        (ReflectValueBox::Bool(_), ElemType::Bool) => true,
        (ReflectValueBox::String(_), ElemType::String) => true,
        (ReflectValueBox::Bytes(_), ElemType::Bytes) => true,
        (ReflectValueBox::Enum(d, _), ElemType::Enum(k)) => d.wf() && d.file@ == file && d.index
            == k,
        (ReflectValueBox::Message(m), ElemType::Message(t)) => m.descriptor.file@ == file
            && m.descriptor.index == t && message_wf(*m),
        _ => false,
    }
}

/// Reflective equality of two values. Strings and bytes compare by content,
/// floating-point values as `mode` says, enum values by number, messages
/// field by field.
pub open spec fn value_eq(a: ReflectValueBox, b: ReflectValueBox, nan_equal: bool) -> bool
    decreases a,
{
    match (a, b) {
        (ReflectValueBox::U32(x), ReflectValueBox::U32(y)) => x == y,
        (ReflectValueBox::U64(x), ReflectValueBox::U64(y)) => x == y,
        (ReflectValueBox::I32(x), ReflectValueBox::I32(y)) => x == y,
        (ReflectValueBox::I64(x), ReflectValueBox::I64(y)) => x == y,
        (ReflectValueBox::F32(x), ReflectValueBox::F32(y)) => f32_eq_spec(x, y, nan_equal),
        (ReflectValueBox::F64(x), ReflectValueBox::F64(y)) => f64_eq_spec(x, y, nan_equal),
        (ReflectValueBox::Bool(x), ReflectValueBox::Bool(y)) => x == y,
        (ReflectValueBox::String(x), ReflectValueBox::String(y)) => x@ == y@,
        (ReflectValueBox::Bytes(x), ReflectValueBox::Bytes(y)) => x@ == y@,
        (ReflectValueBox::Enum(_, x), ReflectValueBox::Enum(_, y)) => x == y,
        (ReflectValueBox::Message(x), ReflectValueBox::Message(y)) => message_eq(*x, *y, nan_equal),
        _ => false,
    }
}


/// A value borrowed from a message.
pub enum ReflectValueRef<'a> {
    U32(u32),
    U64(u64),
    I32(i32),
    I64(i64),
    F32(u32),
    F64(u64),
    Bool(bool),
    String(&'a str),
    Bytes(&'a [u8]),
    Enum(EnumDescriptor, i32),
    Message(&'a DynamicMessage),
}

/// The type of an element: a scalar kind, an enum or a message.
pub enum RuntimeTypeBox {
    I32,
    I64,
    U32,
    U64,
    F32,
    F64,
    Bool,
    String,
    VecU8,
    Enum(EnumDescriptor),
    Message(MessageDescriptor),
}

/// The runtime type of element type `e` in schema unit `file`.
pub open spec fn runtime_type_of(e: ElemType, file: FileDescriptor) -> RuntimeTypeBox {
    match e {
        ElemType::I32 => RuntimeTypeBox::I32,
        ElemType::I64 => RuntimeTypeBox::I64,
        ElemType::U32 => RuntimeTypeBox::U32,
        ElemType::U64 => RuntimeTypeBox::U64,
        ElemType::F32 => RuntimeTypeBox::F32,
        ElemType::F64 => RuntimeTypeBox::F64,
        ElemType::Bool => RuntimeTypeBox::Bool,
        ElemType::String => RuntimeTypeBox::String,
        ElemType::Bytes => RuntimeTypeBox::VecU8,
        ElemType::Enum(k) => RuntimeTypeBox::Enum(EnumDescriptor { file, index: k }),
        ElemType::Message(t) => RuntimeTypeBox::Message(MessageDescriptor { file, index: t }),
    }
}

pub fn runtime_type(e: ElemType, file: &FileDescriptor) -> (r: RuntimeTypeBox)
    ensures
        r == runtime_type_of(e, *file),
{
    match e {
        ElemType::I32 => RuntimeTypeBox::I32,
        ElemType::I64 => RuntimeTypeBox::I64,
        ElemType::U32 => RuntimeTypeBox::U32,
        ElemType::U64 => RuntimeTypeBox::U64,
        ElemType::F32 => RuntimeTypeBox::F32,
        ElemType::F64 => RuntimeTypeBox::F64,
        ElemType::Bool => RuntimeTypeBox::Bool,
        ElemType::String => RuntimeTypeBox::String,
        ElemType::Bytes => RuntimeTypeBox::VecU8,
        ElemType::Enum(k) => RuntimeTypeBox::Enum(EnumDescriptor { file: file.share(), index: k }),
        ElemType::Message(t) => RuntimeTypeBox::Message(
            MessageDescriptor { file: file.share(), index: t },
        ),
    }
}

/// A borrowed value shows the owned value `v`.
pub open spec fn ref_matches(r: ReflectValueRef, v: ReflectValueBox) -> bool {
    match (r, v) {
        (ReflectValueRef::U32(x), ReflectValueBox::U32(y)) => x == y,
        (ReflectValueRef::U64(x), ReflectValueBox::U64(y)) => x == y,
        (ReflectValueRef::I32(x), ReflectValueBox::I32(y)) => x == y,
        (ReflectValueRef::I64(x), ReflectValueBox::I64(y)) => x == y,
        (ReflectValueRef::F32(x), ReflectValueBox::F32(y)) => x == y,
        (ReflectValueRef::F64(x), ReflectValueBox::F64(y)) => x == y,
        (ReflectValueRef::Bool(x), ReflectValueBox::Bool(y)) => x == y,
        (ReflectValueRef::String(x), ReflectValueBox::String(y)) => x@ == y@,
        (ReflectValueRef::Bytes(x), ReflectValueBox::Bytes(y)) => x@ == y@,
        (ReflectValueRef::Enum(d, x), ReflectValueBox::Enum(e, y)) => d == e && x == y,
        (ReflectValueRef::Message(x), ReflectValueBox::Message(y)) => *x == *y,
        _ => false,
    }
}

fn bytes_eq(a: &Vec<u8>, b: &Vec<u8>) -> (r: bool)
    ensures
        r == (a@ == b@),
{
    if a.len() != b.len() {
        return false;
    }
    let mut i: usize = 0;
    while i < a.len()
        invariant
            i <= a@.len(),
            a@.len() == b@.len(),
            forall|k: int| 0 <= k < i ==> a@[k] == b@[k],
        decreases a@.len() - i,
    {
        if a[i] != b[i] {
            return false;
        }
        i = i + 1;
    }
    assert(a@ =~= b@);
    true
}

impl ReflectValueBox {
    /// Borrows this value.
    pub fn as_value_ref(&self) -> (r: ReflectValueRef<'_>)
        ensures
            ref_matches(r, *self),
    {
        match self {
            ReflectValueBox::U32(x) => ReflectValueRef::U32(*x),
            ReflectValueBox::U64(x) => ReflectValueRef::U64(*x),
            ReflectValueBox::I32(x) => ReflectValueRef::I32(*x),
            ReflectValueBox::I64(x) => ReflectValueRef::I64(*x),
            ReflectValueBox::F32(x) => ReflectValueRef::F32(*x),
            ReflectValueBox::F64(x) => ReflectValueRef::F64(*x),
            ReflectValueBox::Bool(x) => ReflectValueRef::Bool(*x),
            ReflectValueBox::String(x) => ReflectValueRef::String(x.as_str()),
            ReflectValueBox::Bytes(x) => ReflectValueRef::Bytes(x.as_slice()),
            ReflectValueBox::Enum(d, x) => ReflectValueRef::Enum(d.share(), *x),
            ReflectValueBox::Message(m) => ReflectValueRef::Message(&**m),
        }
    }

    /// A deep copy: identical for scalars, strings and enum values, with the
    /// same bytes for bytes, and a deep copy for messages; of every type
    /// this value has.
    pub fn clone_value(&self) -> (r: ReflectValueBox)
        ensures
            value_eq(*self, r, true),
            !(*self is Message) && !(*self is Bytes) ==> r == *self,
            *self is Bytes ==> r is Bytes && r->Bytes_0@ == self->Bytes_0@,
            forall|e: ElemType, file: FileIndex| value_wf(*self, e, file) ==> value_wf(r, e, file),
        decreases *self, 0int,
    {
        match self {
            ReflectValueBox::U32(x) => ReflectValueBox::U32(*x),
            ReflectValueBox::U64(x) => ReflectValueBox::U64(*x),
            ReflectValueBox::I32(x) => ReflectValueBox::I32(*x),
            ReflectValueBox::I64(x) => ReflectValueBox::I64(*x),
            ReflectValueBox::F32(x) => {
                let r = ReflectValueBox::F32(*x);
                assert(f32_eq_spec(*x, *x, true));
                r
            },
            ReflectValueBox::F64(x) => {
                let r = ReflectValueBox::F64(*x);
                assert(f64_eq_spec(*x, *x, true));
                r
            },
            ReflectValueBox::Bool(x) => ReflectValueBox::Bool(*x),
            ReflectValueBox::String(x) => ReflectValueBox::String(x.clone()),
            ReflectValueBox::Bytes(x) => {
                let c = x.clone();
                assert(c@ =~= x@);
                ReflectValueBox::Bytes(c)
            },
            ReflectValueBox::Enum(d, x) => ReflectValueBox::Enum(d.share(), *x),
            ReflectValueBox::Message(m) => ReflectValueBox::Message(Box::new(m.clone_message())),
        }
    }

    /// Reflective equality; see `value_eq`.
    pub fn reflect_eq(&self, other: &ReflectValueBox, mode: &ReflectEqMode) -> (r: bool)
        ensures
            r == value_eq(*self, *other, mode.nan_equal),
        decreases *self, 0int,
    {
        match (self, other) {
            (ReflectValueBox::U32(x), ReflectValueBox::U32(y)) => *x == *y,
            (ReflectValueBox::U64(x), ReflectValueBox::U64(y)) => *x == *y,
            (ReflectValueBox::I32(x), ReflectValueBox::I32(y)) => *x == *y,
            (ReflectValueBox::I64(x), ReflectValueBox::I64(y)) => *x == *y,
            (ReflectValueBox::F32(x), ReflectValueBox::F32(y)) => f32_eq(*x, *y, mode.nan_equal),
            (ReflectValueBox::F64(x), ReflectValueBox::F64(y)) => f64_eq(*x, *y, mode.nan_equal),
            (ReflectValueBox::Bool(x), ReflectValueBox::Bool(y)) => *x == *y,
            (ReflectValueBox::String(x), ReflectValueBox::String(y)) => *x == *y,
            (ReflectValueBox::Bytes(x), ReflectValueBox::Bytes(y)) => bytes_eq(x, y),
            (ReflectValueBox::Enum(_, x), ReflectValueBox::Enum(_, y)) => *x == *y,
            (ReflectValueBox::Message(x), ReflectValueBox::Message(y)) => x.fields_reflect_eq(y, mode),
            _ => false,
        }
    }
}


/// The shape and element types of a field.
pub enum RuntimeFieldType {
    Singular(RuntimeTypeBox),
    Repeated(RuntimeTypeBox),
    Mapped(RuntimeTypeBox, RuntimeTypeBox),
}

} // verus!
