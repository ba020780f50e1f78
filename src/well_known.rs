//! Generated message types of the well-known schema units: durations,
//! timestamps, and wrappers of single values.
use vstd::prelude::*;
use crate::descriptor::MessageDescriptor;
use crate::generated::{plain_elem, plain_message_file, GeneratedMessage};
use crate::index::{ElemType, FieldKind};
use crate::value::ReflectValueBox;

verus! {

/// A span of time: whole seconds and nanoseconds of the same sign.
#[derive(Clone, Copy, Debug, PartialEq, Eq, Structural)]
pub struct Duration {
    pub seconds: i64,
    pub nanos: i32,
}

/// A point in time: seconds since the Unix epoch and nanoseconds.
#[derive(Clone, Copy, Debug, PartialEq, Eq, Structural)]
pub struct Timestamp {
    pub seconds: i64,
    pub nanos: i32,
}

impl GeneratedMessage for Duration {
    open spec fn spec_repeated_field(i: int) -> bool {
        false
    }

    open spec fn spec_repeated(&self, i: int) -> Seq<ReflectValueBox> {
        Seq::empty()
    }

    fn repeated_len(&self, i: usize) -> (r: usize) {
        0
    }

    fn repeated_get(&self, i: usize, k: usize) -> (r: ReflectValueBox) {
        vstd::pervasive::unreached()
    }

    fn repeated_push(&mut self, i: usize, v: ReflectValueBox) {
    }

    open spec fn spec_field_count() -> nat {
        2
    }

    open spec fn spec_elem(i: int) -> ElemType {
        if i == 0 {
            ElemType::I64
        } else {
            ElemType::I32
        }
    }

    open spec fn spec_has(&self, i: int) -> bool {
        if i == 0 {
            self.seconds != 0
        } else {
            self.nanos != 0
        }
    }

    open spec fn spec_value(&self, i: int) -> ReflectValueBox {
        if i == 0 {
            ReflectValueBox::I64(self.seconds)
        } else {
            ReflectValueBox::I32(self.nanos)
        }
    }

    fn descriptor_static() -> (r: MessageDescriptor) {
        let names = vec!["seconds", "nanos"];
        proof {
            reveal_strlit("seconds");
            reveal_strlit("nanos");
            assert(names@[0]@.len() != names@[1]@.len());
        }
        let file = plain_message_file(
            "google/protobuf/duration.proto",
            "google.protobuf",
            "Duration",
            "google.protobuf.Duration",
            names,
            vec![ElemType::I64, ElemType::I32],
            vec![false, false],
        );
        MessageDescriptor { file, index: 0 }
    }

    fn new() -> (r: Self) {
        Duration { seconds: 0, nanos: 0 }
    }

    fn has_field(&self, i: usize) -> (r: bool) {
        if i == 0 {
            self.seconds != 0
        } else {
            self.nanos != 0
        }
    }

    fn get_field(&self, i: usize) -> (r: ReflectValueBox) {
        if i == 0 {
            ReflectValueBox::I64(self.seconds)
        } else {
            ReflectValueBox::I32(self.nanos)
        }
    }

    fn set_field(&mut self, i: usize, v: ReflectValueBox) {
        match v {
            ReflectValueBox::I64(x) => {
                self.seconds = x;
            },
            ReflectValueBox::I32(x) => {
                self.nanos = x;
            },
            _ => {},
        }
    }
}

impl GeneratedMessage for Timestamp {
    open spec fn spec_repeated_field(i: int) -> bool {
        false
    }

    open spec fn spec_repeated(&self, i: int) -> Seq<ReflectValueBox> {
        Seq::empty()
    }

    fn repeated_len(&self, i: usize) -> (r: usize) {
        0
    }

    fn repeated_get(&self, i: usize, k: usize) -> (r: ReflectValueBox) {
        vstd::pervasive::unreached()
    }

    fn repeated_push(&mut self, i: usize, v: ReflectValueBox) {
    }

    open spec fn spec_field_count() -> nat {
        2
    }

    open spec fn spec_elem(i: int) -> ElemType {
        if i == 0 {
            ElemType::I64
        } else {
            ElemType::I32
        }
    }

    open spec fn spec_has(&self, i: int) -> bool {
        if i == 0 {
            self.seconds != 0
        } else {
            self.nanos != 0
        }
    }

    open spec fn spec_value(&self, i: int) -> ReflectValueBox {
        if i == 0 {
            ReflectValueBox::I64(self.seconds)
        } else {
            ReflectValueBox::I32(self.nanos)
        }
    }

    fn descriptor_static() -> (r: MessageDescriptor) {
        let names = vec!["seconds", "nanos"];
        proof {
            reveal_strlit("seconds");
            reveal_strlit("nanos");
            assert(names@[0]@.len() != names@[1]@.len());
        }
        let file = plain_message_file(
            "google/protobuf/timestamp.proto",
            "google.protobuf",
            "Timestamp",
            "google.protobuf.Timestamp",
            names,
            vec![ElemType::I64, ElemType::I32],
            vec![false, false],
        );
        MessageDescriptor { file, index: 0 }
    }

    fn new() -> (r: Self) {
        Timestamp { seconds: 0, nanos: 0 }
    }

    fn has_field(&self, i: usize) -> (r: bool) {
        if i == 0 {
            self.seconds != 0
        } else {
            self.nanos != 0
        }
    }

    fn get_field(&self, i: usize) -> (r: ReflectValueBox) {
        if i == 0 {
            ReflectValueBox::I64(self.seconds)
        } else {
            ReflectValueBox::I32(self.nanos)
        }
    }

    fn set_field(&mut self, i: usize, v: ReflectValueBox) {
        match v {
            ReflectValueBox::I64(x) => {
                self.seconds = x;
            },
            ReflectValueBox::I32(x) => {
                self.nanos = x;
            },
            _ => {},
        }
    }
}

/// A wrapped 32-bit signed integer.
#[derive(Clone, Copy, Debug, PartialEq, Eq, Structural)]
pub struct Int32Value {
    pub value: i32,
}

/// A wrapped boolean.
#[derive(Clone, Copy, Debug, PartialEq, Eq, Structural)]
pub struct BoolValue {
    pub value: bool,
}

/// A wrapped string.
#[derive(Debug)]
pub struct StringValue {
    pub value: String,
}

impl GeneratedMessage for Int32Value {
    open spec fn spec_repeated_field(i: int) -> bool {
        false
    }

    open spec fn spec_repeated(&self, i: int) -> Seq<ReflectValueBox> {
        Seq::empty()
    }

    fn repeated_len(&self, i: usize) -> (r: usize) {
        0
    }

    fn repeated_get(&self, i: usize, k: usize) -> (r: ReflectValueBox) {
        vstd::pervasive::unreached()
    }

    fn repeated_push(&mut self, i: usize, v: ReflectValueBox) {
    }

    open spec fn spec_field_count() -> nat {
        1
    }

    open spec fn spec_elem(i: int) -> ElemType {
        ElemType::I32
    }

    open spec fn spec_has(&self, i: int) -> bool {
        self.value != 0
    }

    open spec fn spec_value(&self, i: int) -> ReflectValueBox {
        ReflectValueBox::I32(self.value)
    }

    fn descriptor_static() -> (r: MessageDescriptor) {
        let file = plain_message_file(
            "google/protobuf/wrappers.proto",
            "google.protobuf",
            "Int32Value",
            "google.protobuf.Int32Value",
            vec!["value"],
            vec![ElemType::I32],
            vec![false],
        );
        MessageDescriptor { file, index: 0 }
    }

    fn new() -> (r: Self) {
        Int32Value { value: 0 }
    }

    fn has_field(&self, i: usize) -> (r: bool) {
        self.value != 0
    }

    fn get_field(&self, i: usize) -> (r: ReflectValueBox) {
        ReflectValueBox::I32(self.value)
    }

    fn set_field(&mut self, i: usize, v: ReflectValueBox) {
        match v {
            ReflectValueBox::I32(x) => {
                self.value = x;
            },
            _ => {},
        }
    }
}

impl GeneratedMessage for BoolValue {
    open spec fn spec_repeated_field(i: int) -> bool {
        false
    }

    open spec fn spec_repeated(&self, i: int) -> Seq<ReflectValueBox> {
        Seq::empty()
    }

    fn repeated_len(&self, i: usize) -> (r: usize) {
        0
    }

    fn repeated_get(&self, i: usize, k: usize) -> (r: ReflectValueBox) {
        vstd::pervasive::unreached()
    }

    fn repeated_push(&mut self, i: usize, v: ReflectValueBox) {
    }

    open spec fn spec_field_count() -> nat {
        1
    }

    open spec fn spec_elem(i: int) -> ElemType {
        ElemType::Bool
    }

    open spec fn spec_has(&self, i: int) -> bool {
        self.value
    }

    open spec fn spec_value(&self, i: int) -> ReflectValueBox {
        ReflectValueBox::Bool(self.value)
    }

    fn descriptor_static() -> (r: MessageDescriptor) {
        let file = plain_message_file(
            "google/protobuf/wrappers.proto",
            "google.protobuf",
            "BoolValue",
            "google.protobuf.BoolValue",
            vec!["value"],
            vec![ElemType::Bool],
            vec![false],
        );
        MessageDescriptor { file, index: 0 }
    }

    fn new() -> (r: Self) {
        BoolValue { value: false }
    }

    fn has_field(&self, i: usize) -> (r: bool) {
        self.value
    }

    fn get_field(&self, i: usize) -> (r: ReflectValueBox) {
        ReflectValueBox::Bool(self.value)
    }

    fn set_field(&mut self, i: usize, v: ReflectValueBox) {
        match v {
            ReflectValueBox::Bool(x) => {
                self.value = x;
            },
            _ => {},
        }
    }
}

impl GeneratedMessage for StringValue {
    open spec fn spec_repeated_field(i: int) -> bool {
        false
    }

    open spec fn spec_repeated(&self, i: int) -> Seq<ReflectValueBox> {
        Seq::empty()
    }

    fn repeated_len(&self, i: usize) -> (r: usize) {
        0
    }

    fn repeated_get(&self, i: usize, k: usize) -> (r: ReflectValueBox) {
        vstd::pervasive::unreached()
    }

    fn repeated_push(&mut self, i: usize, v: ReflectValueBox) {
    }

    open spec fn spec_field_count() -> nat {
        1
    }

    open spec fn spec_elem(i: int) -> ElemType {
        ElemType::String
    }

    open spec fn spec_has(&self, i: int) -> bool {
        self.value@.len() != 0
    }

    open spec fn spec_value(&self, i: int) -> ReflectValueBox {
        ReflectValueBox::String(self.value)
    }

    fn descriptor_static() -> (r: MessageDescriptor) {
        let file = plain_message_file(
            "google/protobuf/wrappers.proto",
            "google.protobuf",
            "StringValue",
            "google.protobuf.StringValue",
            vec!["value"],
            vec![ElemType::String],
            vec![false],
        );
        MessageDescriptor { file, index: 0 }
    }

    fn new() -> (r: Self) {
        StringValue { value: String::new() }
    }

    fn has_field(&self, i: usize) -> (r: bool) {
        self.value.as_str().unicode_len() != 0
    }

    fn get_field(&self, i: usize) -> (r: ReflectValueBox) {
        ReflectValueBox::String(self.value.clone())
    }

    fn set_field(&mut self, i: usize, v: ReflectValueBox) {
        match v {
            ReflectValueBox::String(x) => {
                self.value = x;
            },
            _ => {},
        }
    }
}

/// A set of field paths.
#[derive(Debug)]
pub struct FieldMask {
    pub paths: Vec<String>,
}

/// The elements of a list of strings.
pub open spec fn strings_of(v: Seq<String>) -> Seq<ReflectValueBox> {
    v.map_values(|s: String| ReflectValueBox::String(s))
}

impl GeneratedMessage for FieldMask {
    open spec fn spec_repeated_field(i: int) -> bool {
        true
    }

    open spec fn spec_repeated(&self, i: int) -> Seq<ReflectValueBox> {
        strings_of(self.paths@)
    }

    fn repeated_len(&self, i: usize) -> (r: usize) {
        self.paths.len()
    }

    fn repeated_get(&self, i: usize, k: usize) -> (r: ReflectValueBox) {
        ReflectValueBox::String(self.paths[k].clone())
    }

    fn repeated_push(&mut self, i: usize, v: ReflectValueBox) {
        match v {
            ReflectValueBox::String(x) => {
                let ghost before = self.paths@;
                self.paths.push(x);
                assert(strings_of(self.paths@) =~= strings_of(before).push(ReflectValueBox::String(x)));
            },
            _ => {},
        }
    }

    open spec fn spec_field_count() -> nat {
        1
    }

    open spec fn spec_elem(i: int) -> ElemType {
        ElemType::String
    }

    open spec fn spec_has(&self, i: int) -> bool {
        false
    }

    open spec fn spec_value(&self, i: int) -> ReflectValueBox {
        ReflectValueBox::Bool(false)
    }

    fn descriptor_static() -> (r: MessageDescriptor) {
        let file = plain_message_file(
            "google/protobuf/field_mask.proto",
            "google.protobuf",
            "FieldMask",
            "google.protobuf.FieldMask",
            vec!["paths"],
            vec![ElemType::String],
            vec![true],
        );
        MessageDescriptor { file, index: 0 }
    }

    fn new() -> (r: Self) {
        let r = FieldMask { paths: Vec::new() };
        assert(strings_of(r.paths@) =~= Seq::empty());
        r
    }

    fn has_field(&self, i: usize) -> (r: bool) {
        false
    }

    fn get_field(&self, i: usize) -> (r: ReflectValueBox) {
        vstd::pervasive::unreached()
    }

    fn set_field(&mut self, i: usize, v: ReflectValueBox) {
    }
}

} // verus!
