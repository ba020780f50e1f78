//! The generated backing: message types whose storage is a native
//! structure fixed at build time, reached through the same reflection as
//! dynamic messages.
use vstd::prelude::*;
use crate::descriptor::MessageDescriptor;
use crate::dynamic::{
    field_value_wf, is_set, message_wf, oneofs_exclusive, DynamicFieldValue, DynamicMessage,
};
use std::sync::Arc;
use crate::descriptor::FileDescriptor;
use crate::index::{
    ElemType, FieldIndex, FieldKind, FileIndex, MessageIndex, field_wf, index_wf,
};
use crate::schema::Label;
use crate::value::{value_eq, value_wf, ReflectEqMode, ReflectValueBox};

verus! {

/// Element types a generated field may have here: numbers, booleans and
/// strings.
pub open spec fn plain_elem(e: ElemType) -> bool {
    match e {
        ElemType::I32 | ElemType::I64 | ElemType::U32 | ElemType::U64 | ElemType::F32
        | ElemType::F64 | ElemType::Bool | ElemType::String => true,
        _ => false,
    }
}

/// The kind a generated field of `M` has.
pub open spec fn generated_kind<M: GeneratedMessage>(i: int) -> FieldKind {
    if M::spec_repeated_field(i) {
        FieldKind::Repeated
    } else {
        FieldKind::Singular
    }
}

/// `d` describes the generated type `M`: a well-formed, non-map-entry
/// message with `M`'s fields, each singular or repeated as `M` has it, of
/// `M`'s element type, and outside any oneof.
pub open spec fn describes<M: GeneratedMessage>(d: MessageDescriptor) -> bool {
    &&& d.wf()
    &&& !d.spec_entry().map_entry
    &&& d.spec_entry().fields@.len() == M::spec_field_count()
    &&& forall|i: int|
        0 <= i < d.spec_entry().fields@.len() ==> {
            let f = #[trigger] d.spec_entry().fields@[i];
            &&& f.kind == generated_kind::<M>(i)
            &&& f.oneof is None
            &&& f.elem == M::spec_elem(i)
            &&& plain_elem(f.elem)
        }
}

/// A message type compiled ahead of time. Each field is reached by
/// position: a singular field through a getter and a setter of its native
/// storage, a repeated field through its length, an element getter and a
/// push.
pub trait GeneratedMessage: Sized {
    /// The number of fields.
    spec fn spec_field_count() -> nat;

    /// The element type of field `i`.
    spec fn spec_elem(i: int) -> ElemType;

    /// Field `i` is repeated.
    spec fn spec_repeated_field(i: int) -> bool;

    /// Singular field `i` holds a value: for fields without presence, a
    /// value other than the default.
    spec fn spec_has(&self, i: int) -> bool;

    /// The value of singular field `i`, the default of its type when it
    /// holds none.
    spec fn spec_value(&self, i: int) -> ReflectValueBox;

    /// The elements of repeated field `i`, in order.
    spec fn spec_repeated(&self, i: int) -> Seq<ReflectValueBox>;

    /// The descriptor of the type.
    fn descriptor_static() -> (r: MessageDescriptor)
        ensures
            r.wf(),
            !r.spec_entry().map_entry,
            r.spec_entry().fields@.len() == Self::spec_field_count(),
            forall|i: int|
                0 <= i < r.spec_entry().fields@.len() ==> {
                    let f = #[trigger] r.spec_entry().fields@[i];
                    &&& f.kind == if Self::spec_repeated_field(i) {
                        FieldKind::Repeated
                    } else {
                        FieldKind::Singular
                    }
                    &&& f.oneof is None
                    &&& f.elem == Self::spec_elem(i)
                    &&& plain_elem(f.elem)
                },
    ;

    /// A message with every field at its default.
    fn new() -> (r: Self)
        ensures
            forall|i: int|
                0 <= i < Self::spec_field_count() ==> !r.spec_has(i) && r.spec_repeated(i).len() == 0,
    ;

    /// Whether singular field `i` holds a value.
    fn has_field(&self, i: usize) -> (r: bool)
        requires
            i < Self::spec_field_count(),
            !Self::spec_repeated_field(i as int),
        ensures
            r == self.spec_has(i as int),
    ;

    /// The value of singular field `i`.
    fn get_field(&self, i: usize) -> (r: ReflectValueBox)
        requires
            i < Self::spec_field_count(),
            !Self::spec_repeated_field(i as int),
        ensures
            r == self.spec_value(i as int),
            forall|file: crate::index::FileIndex| value_wf(r, Self::spec_elem(i as int), file),
    ;

    /// Sets singular field `i`; the other fields keep their values.
    fn set_field(&mut self, i: usize, v: ReflectValueBox)
        requires
            i < Self::spec_field_count(),
            !Self::spec_repeated_field(i as int),
            plain_elem(Self::spec_elem(i as int)),
            exists|file: crate::index::FileIndex| value_wf(v, Self::spec_elem(i as int), file),
        ensures
            final(self).spec_value(i as int) == v,
            forall|j: int|
                0 <= j < Self::spec_field_count() && j != i ==> final(self).spec_value(j)
                    == old(self).spec_value(j) && final(self).spec_has(j) == old(self).spec_has(j),
            forall|j: int| 0 <= j < Self::spec_field_count() ==> final(self).spec_repeated(j) == old(self).spec_repeated(j),
    ;

    /// The number of elements of repeated field `i`.
    fn repeated_len(&self, i: usize) -> (r: usize)
        requires
            i < Self::spec_field_count(),
            Self::spec_repeated_field(i as int),
        ensures
            r == self.spec_repeated(i as int).len(),
    ;

    /// Element `k` of repeated field `i`.
    fn repeated_get(&self, i: usize, k: usize) -> (r: ReflectValueBox)
        requires
            i < Self::spec_field_count(),
            Self::spec_repeated_field(i as int),
            k < self.spec_repeated(i as int).len(),
        ensures
            r == self.spec_repeated(i as int)[k as int],
            forall|file: crate::index::FileIndex| value_wf(r, Self::spec_elem(i as int), file),
    ;

    /// Appends to repeated field `i`; the other fields keep their values.
    fn repeated_push(&mut self, i: usize, v: ReflectValueBox)
        requires
            i < Self::spec_field_count(),
            Self::spec_repeated_field(i as int),
            plain_elem(Self::spec_elem(i as int)),
            exists|file: crate::index::FileIndex| value_wf(v, Self::spec_elem(i as int), file),
        ensures
            final(self).spec_repeated(i as int) == old(self).spec_repeated(i as int).push(v),
            forall|j: int|
                0 <= j < Self::spec_field_count() && j != i ==> final(self).spec_repeated(j)
                    == old(self).spec_repeated(j),
            forall|j: int|
                0 <= j < Self::spec_field_count() ==> final(self).spec_value(j) == old(self).spec_value(j)
                    && final(self).spec_has(j) == old(self).spec_has(j),
    ;
}

/// The slot a dynamic message holds for a singular field of a generated
/// message.
pub open spec fn slot_of<M: GeneratedMessage>(g: M, i: int) -> DynamicFieldValue {
    if g.spec_has(i) {
        DynamicFieldValue::Singular(Some(g.spec_value(i)))
    } else {
        DynamicFieldValue::Singular(None)
    }
}

/// A dynamic slot holds what field `i` of a generated message holds.
pub open spec fn slot_matches<M: GeneratedMessage>(g: M, i: int, fv: DynamicFieldValue) -> bool {
    if M::spec_repeated_field(i) {
        fv is Repeated && fv->Repeated_0@ == g.spec_repeated(i)
    } else {
        fv == slot_of(g, i)
    }
}

/// A copy of a generated message as a dynamic message of the same type:
/// each singular field set in it is set to the same value in the copy, and
/// each repeated field has the same elements.
pub fn to_dynamic<M: GeneratedMessage>(g: &M) -> (r: DynamicMessage)
    ensures
        message_wf(r),
        describes::<M>(r.descriptor),
        r.fields@.len() == M::spec_field_count(),
        forall|i: int| 0 <= i < r.fields@.len() ==> slot_matches(*g, i, #[trigger] r.fields@[i]),
{
    let d = M::descriptor_static();
    let n = d.file.imp.messages[d.index].fields.len();
    let mut fields: Vec<DynamicFieldValue> = Vec::new();
    let mut i: usize = 0;
    while i < n
        invariant
            describes::<M>(d),
            n == d.spec_entry().fields@.len(),
            i <= n,
            fields@.len() == i,
            forall|q: int| 0 <= q < i ==> slot_matches(*g, q, #[trigger] fields@[q]),
            forall|q: int|
                0 <= q < i && !M::spec_repeated_field(q) && #[trigger] g.spec_has(q) ==> value_wf(
                    g.spec_value(q),
                    d.spec_entry().fields@[q].elem,
                    d.file@,
                ),
            forall|q: int, k: int|
                0 <= q < i && M::spec_repeated_field(q) && 0 <= k < g.spec_repeated(q).len() ==> value_wf(
                    #[trigger] g.spec_repeated(q)[k],
                    d.spec_entry().fields@[q].elem,
                    d.file@,
                ),
        decreases n - i,
    {
        assert(d.spec_entry().fields@[i as int].elem == M::spec_elem(i as int));
        if d.file.imp.messages[d.index].fields[i].kind == FieldKind::Repeated {
            let len = g.repeated_len(i);
            let mut xs: Vec<ReflectValueBox> = Vec::new();
            let mut k: usize = 0;
            while k < len
                invariant
                    describes::<M>(d),
                    i < n,
                    n == d.spec_entry().fields@.len(),
                    M::spec_repeated_field(i as int),
                    len == g.spec_repeated(i as int).len(),
                    k <= len,
                    xs@ == g.spec_repeated(i as int).subrange(0, k as int),
                    forall|q: int| 0 <= q < k ==> value_wf(
                        #[trigger] g.spec_repeated(i as int)[q],
                        d.spec_entry().fields@[i as int].elem,
                        d.file@,
                    ),
                decreases len - k,
            {
                let x = g.repeated_get(i, k);
                xs.push(x);
                proof {
                    assert(xs@ =~= g.spec_repeated(i as int).subrange(0, k + 1));
                }
                k = k + 1;
            }
            assert(xs@ =~= g.spec_repeated(i as int));
            fields.push(DynamicFieldValue::Repeated(xs));
        } else if g.has_field(i) {
            fields.push(DynamicFieldValue::Singular(Some(g.get_field(i))));
        } else {
            fields.push(DynamicFieldValue::Singular(None));
        }
        i = i + 1;
    }
    let r = DynamicMessage { descriptor: d, fields, unknown_fields: Vec::new(), cached_size: None };
    proof {
        let entries = r.descriptor.spec_entry().fields@;
        assert forall|q: int| 0 <= q < r.fields@.len() implies field_value_wf(
            #[trigger] r.fields@[q],
            entries[q],
            r.descriptor.file@,
        ) by {
            assert(slot_matches(*g, q, r.fields@[q]));
            if M::spec_repeated_field(q) {
                let xs = r.fields@[q]->Repeated_0@;
                assert forall|k: int| 0 <= k < xs.len() implies value_wf(#[trigger] xs[k], entries[q].elem, r.descriptor.file@) by {
                    assert(xs[k] == g.spec_repeated(q)[k]);
                }
            }
        }
        assert(oneofs_exclusive(r.fields@, entries));
    }
    r
}

/// What merging a dynamic message leaves in field `i` of a generated one:
/// a set singular value replaces the field, repeated elements are appended,
/// anything else is kept.
pub open spec fn merged_field<M: GeneratedMessage>(before: M, after: M, i: int, fv: DynamicFieldValue) -> bool {
    match fv {
        DynamicFieldValue::Singular(Some(v)) => after.spec_value(i) == v,
        DynamicFieldValue::Repeated(xs) => after.spec_repeated(i) == before.spec_repeated(i) + xs@,
        _ => after.spec_value(i) == before.spec_value(i) && after.spec_has(i) == before.spec_has(i),
    }
}

/// Copies the fields of a dynamic message of the same type into a
/// generated message: set singular fields replace, repeated fields append.
pub fn merge_from_dynamic<M: GeneratedMessage>(g: &mut M, m: &DynamicMessage)
    requires
        message_wf(*m),
        describes::<M>(m.descriptor),
    ensures
        forall|i: int| 0 <= i < m.fields@.len() ==> merged_field(*old(g), *final(g), i, #[trigger] m.fields@[i]),
{
    let n = m.fields.len();
    let ghost g0 = *g;
    let mut i: usize = 0;
    while i < n
        invariant
            describes::<M>(m.descriptor),
            message_wf(*m),
            n == m.fields@.len(),
            i <= n,
            g0 == *old(g),
            forall|q: int| 0 <= q < i ==> merged_field(g0, *g, q, #[trigger] m.fields@[q]),
            forall|q: int|
                i <= q < n ==> g.spec_value(q) == g0.spec_value(q) && g.spec_has(q) == g0.spec_has(q)
                    && g.spec_repeated(q) == g0.spec_repeated(q),
        decreases n - i,
    {
        proof {
            assert(field_value_wf(m.fields@[i as int], m.descriptor.spec_entry().fields@[i as int], m.descriptor.file@));
        }
        match &m.fields[i] {
            DynamicFieldValue::Singular(Some(v)) => {
                let c = copy_scalar(v);
                assert(value_wf(c, M::spec_elem(i as int), m.descriptor.file@));
                g.set_field(i, c);
            },
            DynamicFieldValue::Repeated(xs) => {
                let ghost start = *g;
                let mut k: usize = 0;
                while k < xs.len()
                    invariant
                        describes::<M>(m.descriptor),
                        message_wf(*m),
                        n == m.fields@.len(),
                        i < n,
                        m.fields@[i as int] == DynamicFieldValue::Repeated(*xs),
                        M::spec_repeated_field(i as int),
                        forall|q: int| 0 <= q < xs@.len() ==> value_wf(#[trigger] xs@[q], M::spec_elem(i as int), m.descriptor.file@),
                        k <= xs@.len(),
                        g.spec_repeated(i as int) == start.spec_repeated(i as int) + xs@.subrange(0, k as int),
                        forall|q: int|
                            0 <= q < n && q != i ==> g.spec_repeated(q) == start.spec_repeated(q),
                        forall|q: int|
                            0 <= q < n ==> g.spec_value(q) == start.spec_value(q) && g.spec_has(q) == start.spec_has(q),
                    decreases xs@.len() - k,
                {
                    let c = copy_scalar(&xs[k]);
                    assert(value_wf(c, M::spec_elem(i as int), m.descriptor.file@));
                    g.repeated_push(i, c);
                    proof {
                        assert(start.spec_repeated(i as int) + xs@.subrange(0, k + 1) =~= (start.spec_repeated(i as int)
                            + xs@.subrange(0, k as int)).push(xs@[k as int]));
                    }
                    k = k + 1;
                }
                assert(xs@.subrange(0, xs@.len() as int) =~= xs@);
            },
            _ => {},
        }
        i = i + 1;
    }
}

/// A copy of a value of a scalar or string type.
fn copy_scalar(v: &ReflectValueBox) -> (r: ReflectValueBox)
    requires
        !(v is Message),
        !(v is Bytes),
        !(v is Enum),
    ensures
        r == *v,
{
    match v {
        ReflectValueBox::U32(x) => ReflectValueBox::U32(*x),
        ReflectValueBox::U64(x) => ReflectValueBox::U64(*x),
        ReflectValueBox::I32(x) => ReflectValueBox::I32(*x),
        ReflectValueBox::I64(x) => ReflectValueBox::I64(*x),
        ReflectValueBox::F32(x) => ReflectValueBox::F32(*x),
        ReflectValueBox::F64(x) => ReflectValueBox::F64(*x),
        ReflectValueBox::Bool(x) => ReflectValueBox::Bool(*x),
        ReflectValueBox::String(x) => ReflectValueBox::String(x.clone()),
        _ => vstd::pervasive::unreached(),
    }
}

/// Field `i` of a generated message equals a dynamic slot, as between two
/// dynamic messages: `f` and `file` describe the dynamic slot's field.
pub open spec fn generated_field_eq<M: GeneratedMessage>(
    g: M,
    i: int,
    fv: DynamicFieldValue,
    f: FieldIndex,
    file: FileIndex,
    nan_equal: bool,
) -> bool {
    if M::spec_repeated_field(i) {
        fv is Repeated && fv->Repeated_0@.len() == g.spec_repeated(i).len() && forall|k: int|
            0 <= k < g.spec_repeated(i).len() ==> value_eq(
                #[trigger] g.spec_repeated(i)[k],
                fv->Repeated_0@[k],
                nan_equal,
            )
    } else {
        crate::dynamic::field_eq(slot_of(g, i), fv, nan_equal) || crate::dynamic::unset_matches_default(
            slot_of(g, i),
            fv,
            f,
            file,
            nan_equal,
        )
    }
}

/// A generated message and a dynamic message of the same type are equal
/// when each field compares equal, as between two dynamic messages.
pub open spec fn generated_eq<M: GeneratedMessage>(g: M, m: DynamicMessage, nan_equal: bool) -> bool {
    &&& m.fields@.len() == M::spec_field_count()
    &&& forall|i: int|
        0 <= i < m.fields@.len() ==> generated_field_eq(
            g,
            i,
            #[trigger] m.fields@[i],
            m.descriptor.spec_entry().fields@[i],
            m.descriptor.file@,
            nan_equal,
        )
}

/// Reflective equality of a generated message and a dynamic message of the
/// same type, field by field.
pub fn reflect_eq_generated<M: GeneratedMessage>(g: &M, m: &DynamicMessage, mode: &ReflectEqMode) -> (r: bool)
    requires
        message_wf(*m),
        describes::<M>(m.descriptor),
    ensures
        r == generated_eq(*g, *m, mode.nan_equal),
{
    let d = to_dynamic(g);
    let r = d.fields_reflect_eq(m, mode);
    proof {
        assert(crate::dynamic::entries_ok(d));
        assert forall|i: int| 0 <= i < m.fields@.len() implies (crate::dynamic::field_eq(#[trigger] d.fields@[i], m.fields@[i], mode.nan_equal)
            || crate::dynamic::unset_matches_default(d.fields@[i], m.fields@[i], d.descriptor.spec_entry().fields@[i], d.descriptor.file@, mode.nan_equal))
            == generated_field_eq(*g, i, m.fields@[i], m.descriptor.spec_entry().fields@[i], m.descriptor.file@, mode.nan_equal) by {
            assert(slot_matches(*g, i, d.fields@[i]));
            assert(field_value_wf(m.fields@[i], m.descriptor.spec_entry().fields@[i], m.descriptor.file@));
            let fd = d.descriptor.spec_entry().fields@[i];
            let fm = m.descriptor.spec_entry().fields@[i];
            assert(fd.kind == fm.kind && fd.elem == fm.elem && plain_elem(fd.elem));
        }
        if r {
            assert forall|i: int| 0 <= i < m.fields@.len() implies generated_field_eq(*g, i, #[trigger] m.fields@[i], m.descriptor.spec_entry().fields@[i], m.descriptor.file@, mode.nan_equal) by {
                assert(crate::dynamic::field_eq(d.fields@[i], m.fields@[i], mode.nan_equal)
                    || crate::dynamic::unset_matches_default(d.fields@[i], m.fields@[i], d.descriptor.spec_entry().fields@[i], d.descriptor.file@, mode.nan_equal));
            }
        } else if generated_eq(*g, *m, mode.nan_equal) {
            assert forall|i: int| 0 <= i < d.fields@.len() implies crate::dynamic::field_eq(#[trigger] d.fields@[i], m.fields@[i], mode.nan_equal)
                || (crate::dynamic::entries_ok(d) && crate::dynamic::unset_matches_default(d.fields@[i], m.fields@[i], d.descriptor.spec_entry().fields@[i], d.descriptor.file@, mode.nan_equal)) by {
                assert(generated_field_eq(*g, i, m.fields@[i], m.descriptor.spec_entry().fields@[i], m.descriptor.file@, mode.nan_equal));
            }
        }
    }
    r
}

/// The schema unit of a generated type: one message whose fields are
/// numbered from 1 in order, named, typed and repeated or not as given.
pub fn plain_message_file(
    file_name: &str,
    package: &str,
    name: &str,
    full_name: &str,
    names: Vec<&str>,
    elems: Vec<ElemType>,
    repeated: Vec<bool>,
) -> (r: FileDescriptor)
    requires
        names@.len() == elems@.len(),
        names@.len() == repeated@.len(),
        names@.len() <= crate::schema::MAX_FIELD_NUMBER,
        forall|i: int, j: int| 0 <= i < names@.len() && 0 <= j < names@.len() && i != j ==> (#[trigger] names@[i])@ != (#[trigger] names@[j])@,
        forall|i: int| 0 <= i < elems@.len() ==> plain_elem(#[trigger] elems@[i]),
    ensures
        r.wf(),
        r.backing == crate::descriptor::Backing::Generated,
        r@.messages@.len() == 1,
        !r@.messages@[0].map_entry,
        r@.messages@[0].full_name@ == full_name@,
        r@.messages@[0].fields@.len() == names@.len(),
        forall|i: int|
            0 <= i < names@.len() ==> {
                let f = #[trigger] r@.messages@[0].fields@[i];
                &&& f.name@ == names@[i]@
                &&& f.number == i + 1
                &&& f.kind == if repeated@[i] { FieldKind::Repeated } else { FieldKind::Singular }
                &&& f.oneof is None
                &&& f.elem == elems@[i]
            },
{
    let mut fields: Vec<FieldIndex> = Vec::new();
    let mut i: usize = 0;
    while i < names.len()
        invariant
            names@.len() == elems@.len(),
            names@.len() == repeated@.len(),
            names@.len() <= crate::schema::MAX_FIELD_NUMBER,
            i <= names@.len(),
            fields@.len() == i,
            forall|q: int|
                0 <= q < i ==> {
                    let f = #[trigger] fields@[q];
                    &&& f.name@ == names@[q]@
                    &&& f.json_name@ == names@[q]@
                    &&& f.number == q + 1
                    &&& f.label == if repeated@[q] { Label::Repeated } else { Label::Optional }
                    &&& f.kind == if repeated@[q] { FieldKind::Repeated } else { FieldKind::Singular }
                    &&& f.oneof is None
                    &&& f.elem == elems@[q]
                },
        decreases names@.len() - i,
    {
        fields.push(
            FieldIndex {
                name: String::from_str(names[i]),
                json_name: String::from_str(names[i]),
                number: (i + 1) as u32,
                label: if repeated[i] { Label::Repeated } else { Label::Optional },
                elem: elems[i],
                kind: if repeated[i] { FieldKind::Repeated } else { FieldKind::Singular },
                oneof: None,
            },
        );
        i = i + 1;
    }
    let message = MessageIndex {
        name: String::from_str(name),
        full_name: String::from_str(full_name),
        fields,
        oneofs: Vec::new(),
        nested_messages: Vec::new(),
        first_enum: 0,
        enum_count: 0,
        parent: None,
        map_entry: false,
    };
    let idx = FileIndex {
        name: String::from_str(file_name),
        package: String::from_str(package),
        messages: vec![message],
        enums: Vec::new(),
    };
    proof {
        let m = idx.messages@[0];
        assert forall|j: int| 0 <= j < m.fields@.len() implies field_wf(idx, m, #[trigger] m.fields@[j]) by {
            assert(plain_elem(elems@[j]));
        }
        assert forall|a: int, b: int|
            0 <= a < m.fields@.len() && 0 <= b < m.fields@.len() && a != b implies {
                &&& (#[trigger] m.fields@[a]).number != (#[trigger] m.fields@[b]).number
                &&& m.fields@[a].name@ != m.fields@[b].name@
                &&& m.fields@[a].json_name@ != m.fields@[b].json_name@
            } by {
            assert(names@[a]@ != names@[b]@);
        }
        assert(index_wf(idx));
    }
    FileDescriptor { imp: Arc::new(idx), backing: crate::descriptor::Backing::Generated }
}

} // verus!
