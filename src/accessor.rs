//! The accessor protocol: reading and writing the fields of a message
//! through its field descriptors.
use vstd::prelude::*;
use crate::descriptor::{FieldDescriptor, FileDescriptor};
use crate::dynamic::{
    is_empty_value, is_set, message_wf, oneofs_exclusive, field_value_wf, DynamicFieldValue,
    DynamicMessage,
};
use crate::index::{ElemType, FieldIndex, FieldKind, FileIndex};
use crate::value::{ref_matches, value_wf, ReflectValueBox, ReflectValueRef};

verus! {

/// `f` is a field of message `m`, and `m` is well formed.
pub open spec fn field_of(f: FieldDescriptor, m: DynamicMessage) -> bool {
    &&& f.wf()
    &&& f.message == m.descriptor
    &&& message_wf(m)
}

/// The fields after setting field `i` to `v`: the other fields of its
/// oneof, if it has one, become unset; every other field is kept.
pub open spec fn singular_set(
    fields: Seq<DynamicFieldValue>,
    entries: Seq<FieldIndex>,
    i: int,
    v: ReflectValueBox,
) -> Seq<DynamicFieldValue> {
    Seq::new(
        fields.len(),
        |j: int|
            if j == i {
                DynamicFieldValue::Singular(Some(v))
            } else if entries[i].oneof is Some && entries[j].oneof == entries[i].oneof {
                DynamicFieldValue::Singular(None)
            } else {
                fields[j]
            },
    )
}

/// The value an unset singular field reads as: zero, false, empty, or the
/// enum's first declared number (zero if it declares none). Message fields
/// have none.
pub open spec fn is_default_ref(r: ReflectValueRef, e: ElemType, file: FileIndex) -> bool {
    match (r, e) {
        (ReflectValueRef::U32(x), ElemType::U32) => x == 0,
        (ReflectValueRef::U64(x), ElemType::U64) => x == 0,
        (ReflectValueRef::I32(x), ElemType::I32) => x == 0,
        (ReflectValueRef::I64(x), ElemType::I64) => x == 0,
        (ReflectValueRef::F32(x), ElemType::F32) => x == 0,
        (ReflectValueRef::F64(x), ElemType::F64) => x == 0,
        (ReflectValueRef::Bool(x), ElemType::Bool) => !x,
        (ReflectValueRef::String(x), ElemType::String) => x@.len() == 0,
        (ReflectValueRef::Bytes(x), ElemType::Bytes) => x@.len() == 0,
        (ReflectValueRef::Enum(d, x), ElemType::Enum(k)) => d.file@ == file && d.index == k && x
            == enum_default_number(file, k as int),
        _ => false,
    }
}

pub open spec fn enum_default_number(file: FileIndex, k: int) -> i32 {
    if file.enums@[k].values@.len() > 0 {
        file.enums@[k].values@[0].number
    } else {
        0
    }
}

/// A borrowed view of a repeated field.
pub struct ReflectRepeatedRef<'a> {
    pub vec: &'a Vec<ReflectValueBox>,
}

/// A mutable view of a repeated field, with the element type that values
/// pushed into it must have.
pub struct ReflectRepeatedMut<'a> {
    pub vec: &'a mut Vec<ReflectValueBox>,
    pub elem: ElemType,
    pub file: FileDescriptor,
}

impl<'a> ReflectRepeatedRef<'a> {
    pub fn len(&self) -> (r: usize)
        ensures
            r == self.vec@.len(),
    {
        self.vec.len()
    }

    pub fn is_empty(&self) -> (r: bool)
        ensures
            r == (self.vec@.len() == 0),
    {
        self.vec.len() == 0
    }

    /// The element at position `i`.
    pub fn get(&self, i: usize) -> (r: ReflectValueRef<'a>)
        requires
            i < self.vec@.len(),
        ensures
            ref_matches(r, self.vec@[i as int]),
    {
        let v: &'a Vec<ReflectValueBox> = self.vec;
        v[i].as_value_ref()
    }
}

impl<'a> ReflectRepeatedMut<'a> {
    pub fn len(&self) -> (r: usize)
        ensures
            r == old(self.vec)@.len(),
    {
        self.vec.len()
    }

    pub fn is_empty(&self) -> (r: bool)
        ensures
            r == (old(self.vec)@.len() == 0),
    {
        self.vec.len() == 0
    }

    /// Appends a value of the field's element type.
    pub fn push(&mut self, v: ReflectValueBox)
        requires
            value_wf(v, old(self).elem, old(self).file@),
        ensures
            final(self).vec@ == old(self).vec@.push(v),
            *final(final(self).vec) == *final(old(self).vec),
            final(self).elem == old(self).elem,
            final(self).file == old(self).file,
    {
        self.vec.push(v);
    }

    /// Removes every element.
    pub fn clear(&mut self)
        ensures
            final(self).vec@.len() == 0,
            *final(final(self).vec) == *final(old(self).vec),
            final(self).elem == old(self).elem,
            final(self).file == old(self).file,
    {
        self.vec.clear();
    }
}


fn same_oneof(a: Option<usize>, b: Option<usize>) -> (r: bool)
    ensures
        r == (a is Some && a == b),
{
    match (a, b) {
        (Some(x), Some(y)) => x == y,
        _ => false,
    }
}

impl FieldDescriptor {
    /// Sets a singular field, unsetting the other fields of its oneof.
    pub fn set_singular_field(&self, m: &mut DynamicMessage, v: ReflectValueBox)
        requires
            field_of(*self, *old(m)),
            self.spec_entry().kind == FieldKind::Singular,
            value_wf(v, self.spec_entry().elem, old(m).descriptor.file@),
        ensures
            message_wf(*final(m)),
            final(m).descriptor == old(m).descriptor,
            final(m).fields@ == singular_set(
                old(m).fields@,
                old(m).descriptor.spec_entry().fields@,
                self.index as int,
                v,
            ),
            final(m).unknown_fields == old(m).unknown_fields,
            final(m).cached_size is None,
    {
        let entry = &self.message.file.imp.messages[self.message.index];
        let ghost entries = entry.fields@;
        let ghost file = self.message.file@;
        let ghost old_fields = m.fields@;
        let i = self.index;
        let oneof = entry.fields[i].oneof;
        let mut j: usize = 0;
        while j < m.fields.len()
            invariant
                *entry == self.spec_entry_message(),
                entries == entry.fields@,
                i < entries.len(),
                oneof == entries[i as int].oneof,
                m.fields@.len() == old_fields.len(),
                old_fields.len() == entries.len(),
                j <= m.fields@.len(),
                m.descriptor == self.message,
                m.unknown_fields == old(m).unknown_fields,
                forall|q: int|
                    0 <= q < m.fields@.len() ==> #[trigger] m.fields@[q] == if q < j && q != i
                        && oneof is Some && entries[q].oneof == oneof {
                        DynamicFieldValue::Singular(None)
                    } else {
                        old_fields[q]
                    },
            decreases m.fields@.len() - j,
        {
            if j != i && same_oneof(oneof, entry.fields[j].oneof) {
                m.fields.set(j, DynamicFieldValue::Singular(None));
            }
            j = j + 1;
        }
        m.fields.set(i, DynamicFieldValue::Singular(Some(v)));
        m.cached_size = None;
        proof {
            let want = singular_set(old_fields, entries, i as int, v);
            assert(m.fields@ =~= want);
            assert forall|q: int| 0 <= q < m.fields@.len() implies field_value_wf(
                #[trigger] m.fields@[q],
                entries[q],
                file,
            ) by {
                if q != i && oneof is Some && entries[q].oneof == oneof {
                    assert(crate::index::field_wf(file, *entry, entries[q]));
                }
            }
            assert(oneofs_exclusive(m.fields@, entries)) by {
                assert forall|a: int, b: int|
                    0 <= a < m.fields@.len() && 0 <= b < m.fields@.len() && a != b
                        && entries[a].oneof is Some && entries[a].oneof == entries[b].oneof implies !(
                    is_set(#[trigger] m.fields@[a]) && is_set(#[trigger] m.fields@[b])) by {
                    if a != i && b != i && !(oneof is Some && entries[a].oneof == oneof) {
                        assert(!(is_set(old_fields[a]) && is_set(old_fields[b])));
                    }
                }
            }
        }
    }

    /// The value of a singular field; `None` when it is unset.
    pub fn get_singular<'a>(&self, m: &'a DynamicMessage) -> (r: Option<ReflectValueRef<'a>>)
        requires
            field_of(*self, *m),
            self.spec_entry().kind == FieldKind::Singular,
        ensures
            match m.fields@[self.index as int] {
                DynamicFieldValue::Singular(Some(v)) => r is Some && ref_matches(r->0, v),
                _ => r is None,
            },
    {
        let fields: &'a Vec<DynamicFieldValue> = &m.fields;
        match &fields[self.index] {
            DynamicFieldValue::Singular(Some(v)) => Some(v.as_value_ref()),
            _ => None,
        }
    }

    /// The value of a singular field, or the default of its type when it is
    /// unset; `None` only for an unset message field.
    pub fn get_singular_field_or_default<'a>(&self, m: &'a DynamicMessage) -> (r: Option<
        ReflectValueRef<'a>,
    >)
        requires
            field_of(*self, *m),
            self.spec_entry().kind == FieldKind::Singular,
        ensures
            match m.fields@[self.index as int] {
                DynamicFieldValue::Singular(Some(v)) => r is Some && ref_matches(r->0, v),
                _ => match self.spec_entry().elem {
                    ElemType::Message(_) => r is None,
                    e => r is Some && is_default_ref(r->0, e, m.descriptor.file@),
                },
            },
    {
        match self.get_singular(m) {
            Some(v) => Some(v),
            None => {
                let entry = &self.message.file.imp.messages[self.message.index];
                let e = entry.fields[self.index].elem;
                proof {
                    assert(crate::index::field_wf(self.message.file@, *entry, entry.fields@[self.index as int]));
                }
                match e {
                    ElemType::U32 => Some(ReflectValueRef::U32(0)),
                    ElemType::U64 => Some(ReflectValueRef::U64(0)),
                    ElemType::I32 => Some(ReflectValueRef::I32(0)),
                    ElemType::I64 => Some(ReflectValueRef::I64(0)),
                    ElemType::F32 => Some(ReflectValueRef::F32(0)),
                    ElemType::F64 => Some(ReflectValueRef::F64(0)),
                    ElemType::Bool => Some(ReflectValueRef::Bool(false)),
                    ElemType::String => {
                        proof {
                            reveal_strlit("");
                        }
                        Some(ReflectValueRef::String(""))
                    },
                    ElemType::Bytes => {
                        let empty: &[u8] = &[];
                        assert(empty@.len() == 0);
                        Some(ReflectValueRef::Bytes(empty))
                    },
                    ElemType::Enum(k) => {
                        let values = &self.message.file.imp.enums[k].values;
                        let n = if values.len() > 0 {
                            values[0].number
                        } else {
                            0
                        };
                        Some(
                            ReflectValueRef::Enum(
                                crate::descriptor::EnumDescriptor {
                                    file: self.message.file.share(),
                                    index: k,
                                },
                                n,
                            ),
                        )
                    },
                    ElemType::Message(_) => None,
                }
            },
        }
    }

    /// Whether the field holds anything: a value, elements or entries.
    pub fn has_field(&self, m: &DynamicMessage) -> (r: bool)
        requires
            field_of(*self, *m),
        ensures
            r == !is_empty_value(m.fields@[self.index as int], self.spec_entry()),
    {
        let entry = &self.message.file.imp.messages[self.message.index];
        proof {
            assert(field_value_wf(m.fields@[self.index as int], entry.fields@[self.index as int], m.descriptor.file@));
        }
        match &m.fields[self.index] {
            DynamicFieldValue::Singular(o) => o.is_some(),
            DynamicFieldValue::Repeated(v) => v.len() != 0,
            DynamicFieldValue::Mapped(v) => v.len() != 0,
        }
    }

    /// Unsets a singular field, or empties a repeated or map field.
    pub fn clear_field(&self, m: &mut DynamicMessage)
        requires
            field_of(*self, *old(m)),
        ensures
            message_wf(*final(m)),
            final(m).descriptor == old(m).descriptor,
            final(m).fields@.len() == old(m).fields@.len(),
            is_empty_value(final(m).fields@[self.index as int], self.spec_entry()),
            forall|j: int|
                0 <= j < final(m).fields@.len() && j != self.index ==> #[trigger] final(m).fields@[j]
                    == old(m).fields@[j],
            final(m).unknown_fields == old(m).unknown_fields,
            final(m).cached_size is None,
    {
        let entry = &self.message.file.imp.messages[self.message.index];
        let ghost old_fields = m.fields@;
        let e = crate::dynamic::empty_value(&entry.fields[self.index]);
        m.fields.set(self.index, e);
        m.cached_size = None;
        proof {
            let entries = entry.fields@;
            let file = self.message.file@;
            assert forall|q: int| 0 <= q < m.fields@.len() implies field_value_wf(
                #[trigger] m.fields@[q],
                entries[q],
                file,
            ) by {
                if q == self.index {
                    assert(crate::index::field_wf(file, *entry, entries[q]));
                    crate::dynamic::lemma_empty_wf(m.fields@[q], entries[q], file);
                }
            }
            assert(oneofs_exclusive(m.fields@, entries)) by {
                assert forall|a: int, b: int|
                    0 <= a < m.fields@.len() && 0 <= b < m.fields@.len() && a != b
                        && entries[a].oneof is Some && entries[a].oneof == entries[b].oneof implies !(
                    is_set(#[trigger] m.fields@[a]) && is_set(#[trigger] m.fields@[b])) by {
                    assert(!(is_set(old_fields[a]) && is_set(old_fields[b])));
                }
            }
        }
    }

    /// A borrowed view of a repeated field.
    pub fn get_repeated<'a>(&self, m: &'a DynamicMessage) -> (r: ReflectRepeatedRef<'a>)
        requires
            field_of(*self, *m),
            self.spec_entry().kind == FieldKind::Repeated,
        ensures
            m.fields@[self.index as int] == DynamicFieldValue::Repeated(*r.vec),
    {
        let entry = &self.message.file.imp.messages[self.message.index];
        proof {
            assert(field_value_wf(m.fields@[self.index as int], entry.fields@[self.index as int], m.descriptor.file@));
        }
        let fields: &'a Vec<DynamicFieldValue> = &m.fields;
        match &fields[self.index] {
            DynamicFieldValue::Repeated(v) => ReflectRepeatedRef { vec: v },
            _ => vstd::pervasive::unreached(),
        }
    }

    /// A mutable view of a repeated field. The message's encoded size is
    /// forgotten.
    pub fn mut_repeated<'a>(&self, m: &'a mut DynamicMessage) -> (r: ReflectRepeatedMut<'a>)
        requires
            field_of(*self, *old(m)),
            self.spec_entry().kind == FieldKind::Repeated,
        ensures
            old(m).fields@[self.index as int] == DynamicFieldValue::Repeated(*r.vec),
            r.elem == self.spec_entry().elem,
            r.file == old(m).descriptor.file,
            final(m).descriptor == old(m).descriptor,
            final(m).fields@ == old(m).fields@.update(
                self.index as int,
                DynamicFieldValue::Repeated(*final(r.vec)),
            ),
            final(m).unknown_fields == old(m).unknown_fields,
            final(m).cached_size is None,
    {
        let entry = &self.message.file.imp.messages[self.message.index];
        proof {
            assert(field_value_wf(m.fields@[self.index as int], entry.fields@[self.index as int], m.descriptor.file@));
        }
        let elem = entry.fields[self.index].elem;
        let file = self.message.file.share();
        m.cached_size = None;
        let slot = &mut m.fields[self.index];
        match slot {
            DynamicFieldValue::Repeated(v) => ReflectRepeatedMut { vec: v, elem, file },
            _ => vstd::pervasive::unreached(),
        }
    }
}

} // verus!
