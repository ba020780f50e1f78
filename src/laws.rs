//! Laws that relate several operations of the library.
use vstd::prelude::*;
use crate::accessor::singular_set;
use crate::dynamic::{
    entries_eq_spec, field_eq, has_entry, message_eq, DynamicFieldValue, DynamicMessage,
};
use crate::float::{f32_eq_spec, f32_is_nan_spec, f64_eq_spec, f64_is_nan_spec};
use crate::index::FieldIndex;
use crate::index::{valid_map_key, ElemType, FileIndex};
use crate::map::{key_pos, lemma_key_eq, lemma_key_pos, lemma_map_insert_wf, map_insert};
use crate::json_merge::insert_all;
use crate::dynamic::{
    field_value_wf, is_set, keys_unique, message_wf, oneofs_exclusive, unknown_bytes, UnknownField,
};
use crate::index::FieldKind;
use crate::value::{value_eq, value_wf, ReflectValueBox};

verus! {

/// Setting a singular field and reading it back gives the value set: the
/// field holds exactly that value afterwards.
pub proof fn lemma_singular_round_trip(
    fields: Seq<DynamicFieldValue>,
    entries: Seq<FieldIndex>,
    i: int,
    v: ReflectValueBox,
)
    requires
        0 <= i < fields.len(),
        fields.len() == entries.len(),
    ensures
        singular_set(fields, entries, i, v)[i] == DynamicFieldValue::Singular(Some(v)),
        singular_set(fields, entries, i, v).len() == fields.len(),
{
}

/// Pushing onto a repeated field and reading the last element gives the
/// value pushed, after the elements that were there.
pub proof fn lemma_repeated_round_trip(elems: Seq<ReflectValueBox>, v: ReflectValueBox)
    ensures
        elems.push(v)[elems.len() as int] == v,
        elems.push(v).subrange(0, elems.len() as int) == elems,
{
    assert(elems.push(v).subrange(0, elems.len() as int) =~= elems);
}

/// Setting field `a` of a oneof and then field `b` of the same oneof leaves
/// `a` unset and `b` set.
pub proof fn lemma_oneof_exclusive(
    fields: Seq<DynamicFieldValue>,
    entries: Seq<FieldIndex>,
    a: int,
    b: int,
    va: ReflectValueBox,
    vb: ReflectValueBox,
)
    requires
        0 <= a < fields.len(),
        0 <= b < fields.len(),
        a != b,
        fields.len() == entries.len(),
        entries[a].oneof is Some,
        entries[a].oneof == entries[b].oneof,
    ensures
        singular_set(singular_set(fields, entries, a, va), entries, b, vb)[a]
            == DynamicFieldValue::Singular(None),
        singular_set(singular_set(fields, entries, a, va), entries, b, vb)[b]
            == DynamicFieldValue::Singular(Some(vb)),
{
}

/// With NaNs equal, every value equals itself.
pub proof fn lemma_value_eq_refl(v: ReflectValueBox)
    ensures
        value_eq(v, v, true),
    decreases v, 0int,
{
    match v {
        ReflectValueBox::Message(m) => {
            lemma_message_eq_refl(*m);
        },
        _ => {},
    }
}

/// With NaNs equal, every message equals itself.
pub proof fn lemma_message_eq_refl(m: DynamicMessage)
    ensures
        message_eq(m, m, true),
    decreases m, 2int,
{
    assert forall|i: int| 0 <= i < m.fields@.len() implies field_eq(#[trigger] m.fields@[i], m.fields@[i], true) by {
        assert(decreases_to!(m => m.fields));
        assert(decreases_to!(m.fields => m.fields@));
        assert(decreases_to!(m.fields@ => m.fields@[i]));
        lemma_field_eq_refl(m.fields@[i]);
    }
}

proof fn lemma_field_eq_refl(f: DynamicFieldValue)
    ensures
        field_eq(f, f, true),
    decreases f, 1int,
{
    match f {
        DynamicFieldValue::Singular(Some(v)) => {
            lemma_value_eq_refl(v);
        },
        DynamicFieldValue::Singular(None) => {},
        DynamicFieldValue::Repeated(xs) => {
            assert forall|i: int| 0 <= i < xs@.len() implies value_eq(#[trigger] xs@[i], xs@[i], true) by {
                assert(decreases_to!(f => xs));
                assert(decreases_to!(xs => xs@));
                assert(decreases_to!(xs@ => xs@[i]));
                lemma_value_eq_refl(xs@[i]);
            }
        },
        DynamicFieldValue::Mapped(xs) => {
            assert forall|i: int| 0 <= i < xs@.len() implies has_entry(#[trigger] xs@[i], xs@, true) by {
                assert(decreases_to!(f => xs));
                assert(decreases_to!(xs => xs@));
                assert(decreases_to!(xs@ => xs@[i]));
                assert(decreases_to!(xs@[i] => xs@[i].0));
                assert(decreases_to!(xs@[i] => xs@[i].1));
                lemma_value_eq_refl(xs@[i].0);
                lemma_value_eq_refl(xs@[i].1);
            }
        },
    }
}

/// A NaN equals itself when NaNs are equal, and not under IEEE 754.
pub proof fn lemma_nan_modes(bits32: u32, bits64: u64)
    requires
        f32_is_nan_spec(bits32),
        f64_is_nan_spec(bits64),
    ensures
        value_eq(ReflectValueBox::F32(bits32), ReflectValueBox::F32(bits32), true),
        !value_eq(ReflectValueBox::F32(bits32), ReflectValueBox::F32(bits32), false),
        value_eq(ReflectValueBox::F64(bits64), ReflectValueBox::F64(bits64), true),
        !value_eq(ReflectValueBox::F64(bits64), ReflectValueBox::F64(bits64), false),
{
}

/// A message with a NaN in a set singular field equals itself when NaNs
/// are equal, and not under IEEE 754.
pub proof fn lemma_message_nan_modes(m: DynamicMessage, i: int)
    requires
        0 <= i < m.fields@.len(),
        m.fields@[i] matches DynamicFieldValue::Singular(Some(v)) && match v {
            ReflectValueBox::F32(x) => f32_is_nan_spec(x),
            ReflectValueBox::F64(x) => f64_is_nan_spec(x),
            _ => false,
        },
    ensures
        message_eq(m, m, true),
        !message_eq(m, m, false),
{
    lemma_message_eq_refl(m);
    assert(!field_eq(m.fields@[i], m.fields@[i], false));
}


pub open spec fn seq_has(s: Seq<(ReflectValueBox, ReflectValueBox)>, e: (ReflectValueBox, ReflectValueBox)) -> bool {
    exists|i: int| 0 <= i < s.len() && s[i] == e
}

pub open spec fn has_key(s: Seq<(ReflectValueBox, ReflectValueBox)>, k: ReflectValueBox) -> bool {
    exists|i: int| 0 <= i < s.len() && value_eq(s[i].0, k, false)
}

/// `es` is the entry list of a well-formed map with key type `kt` and value
/// type `vt`.
pub open spec fn entries_wf(es: Seq<(ReflectValueBox, ReflectValueBox)>, kt: ElemType, vt: ElemType, file: FileIndex) -> bool {
    &&& valid_map_key(kt)
    &&& forall|i: int| 0 <= i < es.len() ==> value_wf((#[trigger] es[i]).0, kt, file) && value_wf(es[i].1, vt, file)
    &&& keys_unique(es)
}

pub(crate) proof fn lemma_insert_shape(
    es: Seq<(ReflectValueBox, ReflectValueBox)>,
    k: ReflectValueBox,
    v: ReflectValueBox,
    kt: ElemType,
    vt: ElemType,
    file: FileIndex,
)
    requires
        entries_wf(es, kt, vt, file),
        value_wf(k, kt, file),
        value_wf(v, vt, file),
    ensures
        seq_has(map_insert(es, k, v), (k, v)),
        forall|i: int|
            0 <= i < map_insert(es, k, v).len() ==> #[trigger] map_insert(es, k, v)[i] == (k, v) || (
            seq_has(es, map_insert(es, k, v)[i]) && !value_eq(map_insert(es, k, v)[i].0, k, false)),
        forall|j: int|
            0 <= j < es.len() && !value_eq(#[trigger] es[j].0, k, false) ==> seq_has(map_insert(es, k, v), es[j]),
        map_insert(es, k, v).len() == es.len() + if has_key(es, k) { 0int } else { 1int },
        entries_wf(map_insert(es, k, v), kt, vt, file),
{
    lemma_key_pos(es, k, 0);
    lemma_map_insert_wf(es, k, v, kt, vt, file);
    let r = map_insert(es, k, v);
    match key_pos(es, k, 0) {
        Some(p) => {
            assert(r[p] == (k, v));
            assert forall|i: int| 0 <= i < r.len() implies #[trigger] r[i] == (k, v) || (seq_has(es, r[i])
                && !value_eq(r[i].0, k, false)) by {
                if i != p {
                    assert(r[i] == es[i]);
                    assert(!value_eq(es[i].0, es[p].0, false));
                    lemma_key_eq(es[i].0, k, es[p].0, kt, file);
                    lemma_key_eq(es[p].0, k, es[i].0, kt, file);
                }
            }
            assert forall|j: int| 0 <= j < es.len() && !value_eq(#[trigger] es[j].0, k, false) implies seq_has(r, es[j]) by {
                assert(r[j] == es[j]);
            }
        },
        None => {
            assert(r[es.len() as int] == (k, v));
            assert forall|i: int| 0 <= i < r.len() implies #[trigger] r[i] == (k, v) || (seq_has(es, r[i])
                && !value_eq(r[i].0, k, false)) by {
                if i < es.len() {
                    assert(r[i] == es[i]);
                }
            }
            assert forall|j: int| 0 <= j < es.len() && !value_eq(#[trigger] es[j].0, k, false) implies seq_has(r, es[j]) by {
                assert(r[j] == es[j]);
            }
        },
    }
}

proof fn lemma_has_key_after_insert(
    es: Seq<(ReflectValueBox, ReflectValueBox)>,
    k1: ReflectValueBox,
    v1: ReflectValueBox,
    k2: ReflectValueBox,
    kt: ElemType,
    vt: ElemType,
    file: FileIndex,
)
    requires
        entries_wf(es, kt, vt, file),
        value_wf(k1, kt, file),
        value_wf(v1, vt, file),
        value_wf(k2, kt, file),
        !value_eq(k1, k2, false),
    ensures
        has_key(map_insert(es, k1, v1), k2) == has_key(es, k2),
{
    lemma_insert_shape(es, k1, v1, kt, vt, file);
    let r = map_insert(es, k1, v1);
    if has_key(r, k2) {
        let i = choose|i: int| 0 <= i < r.len() && value_eq(r[i].0, k2, false);
        if r[i] == (k1, v1) {
        } else {
            let j = choose|j: int| 0 <= j < es.len() && es[j] == r[i];
        }
    }
    if has_key(es, k2) {
        let j = choose|j: int| 0 <= j < es.len() && value_eq(es[j].0, k2, false);
        lemma_key_eq(es[j].0, k2, k1, kt, file);
        lemma_key_eq(k2, es[j].0, k1, kt, file);
        lemma_key_eq(es[j].0, k1, k2, kt, file);
        assert(!value_eq(es[j].0, k1, false));
        assert(seq_has(r, es[j]));
        let i = choose|i: int| 0 <= i < r.len() && r[i] == es[j];
    }
}

/// Each entry of inserting `(k1, v1)` then `(k2, v2)` is an entry of
/// inserting them the other way round.
proof fn lemma_insert_members(
    es: Seq<(ReflectValueBox, ReflectValueBox)>,
    k1: ReflectValueBox,
    v1: ReflectValueBox,
    k2: ReflectValueBox,
    v2: ReflectValueBox,
    kt: ElemType,
    vt: ElemType,
    file: FileIndex,
)
    requires
        entries_wf(es, kt, vt, file),
        value_wf(k1, kt, file),
        value_wf(v1, vt, file),
        value_wf(k2, kt, file),
        value_wf(v2, vt, file),
        !value_eq(k1, k2, false),
    ensures
        forall|i: int|
            0 <= i < map_insert(map_insert(es, k1, v1), k2, v2).len() ==> seq_has(
                map_insert(map_insert(es, k2, v2), k1, v1),
                #[trigger] map_insert(map_insert(es, k1, v1), k2, v2)[i],
            ),
{
    let e1 = map_insert(es, k1, v1);
    let e2 = map_insert(es, k2, v2);
    let a = map_insert(e1, k2, v2);
    let b = map_insert(e2, k1, v1);
    lemma_insert_shape(es, k1, v1, kt, vt, file);
    lemma_insert_shape(es, k2, v2, kt, vt, file);
    lemma_insert_shape(e1, k2, v2, kt, vt, file);
    lemma_insert_shape(e2, k1, v1, kt, vt, file);
    lemma_key_eq(k1, k2, k1, kt, file);
    assert forall|i: int| 0 <= i < a.len() implies seq_has(b, #[trigger] a[i]) by {
        if a[i] == (k2, v2) {
            let i2 = choose|q: int| 0 <= q < e2.len() && e2[q] == (k2, v2);
            assert(!value_eq(e2[i2].0, k1, false));
            assert(seq_has(b, e2[i2]));
        } else {
            let j = choose|q: int| 0 <= q < e1.len() && e1[q] == a[i];
            assert(!value_eq(e1[j].0, k2, false));
            if e1[j] == (k1, v1) {
            } else {
                let j2 = choose|q: int| 0 <= q < es.len() && es[q] == e1[j];
                assert(!value_eq(es[j2].0, k1, false));
                assert(!value_eq(es[j2].0, k2, false));
                assert(seq_has(e2, es[j2]));
                let i3 = choose|q: int| 0 <= q < e2.len() && e2[q] == es[j2];
                assert(seq_has(b, e2[i3]));
            }
        }
    }
}

/// Inserting two entries with different keys into a map in either order
/// gives maps that compare equal (NaNs equal, as by default).
pub proof fn lemma_map_insert_order(
    es: Seq<(ReflectValueBox, ReflectValueBox)>,
    k1: ReflectValueBox,
    v1: ReflectValueBox,
    k2: ReflectValueBox,
    v2: ReflectValueBox,
    kt: ElemType,
    vt: ElemType,
    file: FileIndex,
)
    requires
        entries_wf(es, kt, vt, file),
        value_wf(k1, kt, file),
        value_wf(v1, vt, file),
        value_wf(k2, kt, file),
        value_wf(v2, vt, file),
        !value_eq(k1, k2, false),
    ensures
        entries_eq_spec(
            map_insert(map_insert(es, k1, v1), k2, v2),
            map_insert(map_insert(es, k2, v2), k1, v1),
            true,
        ),
{
    let e1 = map_insert(es, k1, v1);
    let e2 = map_insert(es, k2, v2);
    let a = map_insert(e1, k2, v2);
    let b = map_insert(e2, k1, v1);
    lemma_insert_shape(es, k1, v1, kt, vt, file);
    lemma_insert_shape(es, k2, v2, kt, vt, file);
    lemma_insert_shape(e1, k2, v2, kt, vt, file);
    lemma_insert_shape(e2, k1, v1, kt, vt, file);
    lemma_key_eq(k1, k2, k1, kt, file);
    lemma_has_key_after_insert(es, k1, v1, k2, kt, vt, file);
    lemma_has_key_after_insert(es, k2, v2, k1, kt, vt, file);
    lemma_insert_members(es, k1, v1, k2, v2, kt, vt, file);
    assert forall|i: int| 0 <= i < a.len() implies has_entry(#[trigger] a[i], b, true) by {
        assert(seq_has(b, a[i]));
        let q = choose|q: int| 0 <= q < b.len() && b[q] == a[i];
        lemma_value_eq_refl(a[i].0);
        lemma_value_eq_refl(a[i].1);
        assert(value_eq(a[i].0, b[q].0, true) && value_eq(a[i].1, b[q].1, true));
    }
}


/// Inserting an entry into a map and looking its key up gives the value
/// inserted: the entry is there, and no other entry has an equal key.
pub proof fn lemma_map_round_trip(
    es: Seq<(ReflectValueBox, ReflectValueBox)>,
    k: ReflectValueBox,
    v: ReflectValueBox,
    kt: ElemType,
    vt: ElemType,
    file: FileIndex,
)
    requires
        entries_wf(es, kt, vt, file),
        value_wf(k, kt, file),
        value_wf(v, vt, file),
    ensures
        exists|i: int|
            0 <= i < map_insert(es, k, v).len() && map_insert(es, k, v)[i] == (k, v) && forall|j: int|
                0 <= j < map_insert(es, k, v).len() && j != i ==> !value_eq(
                    #[trigger] map_insert(es, k, v)[j].0,
                    k,
                    false,
                ),
{
    lemma_insert_shape(es, k, v, kt, vt, file);
    let r = map_insert(es, k, v);
    let i = choose|i: int| 0 <= i < r.len() && r[i] == (k, v);
    assert forall|j: int| 0 <= j < r.len() && j != i implies !value_eq(#[trigger] r[j].0, k, false) by {
        assert(!value_eq(r[j].0, r[i].0, false));
    }
}

/// Unknown fields are written out as they were kept: keeping one more
/// record appends exactly its bytes to what is written.
pub proof fn lemma_unknown_round_trip(us: Seq<UnknownField>, u: UnknownField)
    ensures
        unknown_bytes(us.push(u)) == unknown_bytes(us) + u.bytes@,
{
    assert(us.push(u).drop_last() =~= us);
}


/// A message whose only change is a value of the element type pushed onto
/// one repeated field stays well formed.
pub proof fn lemma_repeated_push_wf(m: DynamicMessage, m2: DynamicMessage, i: int, v: ReflectValueBox)
    requires
        message_wf(m),
        0 <= i < m.fields@.len(),
        m.descriptor.spec_entry().fields@[i].kind == FieldKind::Repeated,
        value_wf(v, m.descriptor.spec_entry().fields@[i].elem, m.descriptor.file@),
        m2.descriptor == m.descriptor,
        m2.fields@.len() == m.fields@.len(),
        forall|j: int| 0 <= j < m.fields@.len() && j != i ==> m2.fields@[j] == m.fields@[j],
        m.fields@[i] is Repeated,
        m2.fields@[i] is Repeated,
        m2.fields@[i]->Repeated_0@ == m.fields@[i]->Repeated_0@.push(v),
    ensures
        message_wf(m2),
{
    let entries = m.descriptor.spec_entry().fields@;
    let file = m.descriptor.file@;
    assert forall|j: int| 0 <= j < m2.fields@.len() implies field_value_wf(#[trigger] m2.fields@[j], entries[j], file) by {
        assert(field_value_wf(m.fields@[j], entries[j], file));
        if j == i {
            let xs = m2.fields@[i]->Repeated_0@;
            assert forall|k: int| 0 <= k < xs.len() implies value_wf(#[trigger] xs[k], entries[i].elem, file) by {
                if k < xs.len() - 1 {
                    assert(xs[k] == m.fields@[i]->Repeated_0@[k]);
                }
            }
        }
    }
    assert forall|a: int, b: int|
        0 <= a < m2.fields@.len() && 0 <= b < m2.fields@.len() && a != b && entries[a].oneof is Some
            && entries[a].oneof == entries[b].oneof implies !(is_set(#[trigger] m2.fields@[a]) && is_set(
        #[trigger] m2.fields@[b],
    )) by {
        assert(!(is_set(m.fields@[a]) && is_set(m.fields@[b])));
    }
}

/// A message whose only change is an entry of the map's types inserted
/// into one map field stays well formed.
pub proof fn lemma_map_insert_keeps_wf(
    m: DynamicMessage,
    m2: DynamicMessage,
    i: int,
    k: ReflectValueBox,
    v: ReflectValueBox,
)
    requires
        message_wf(m),
        0 <= i < m.fields@.len(),
        m.descriptor.spec_entry().fields@[i].kind matches FieldKind::Mapped(kt, vt) && value_wf(
            k,
            kt,
            m.descriptor.file@,
        ) && value_wf(v, vt, m.descriptor.file@),
        m2.descriptor == m.descriptor,
        m2.fields@.len() == m.fields@.len(),
        forall|j: int| 0 <= j < m.fields@.len() && j != i ==> m2.fields@[j] == m.fields@[j],
        m.fields@[i] is Mapped,
        m2.fields@[i] is Mapped,
        m2.fields@[i]->Mapped_0@ == map_insert(m.fields@[i]->Mapped_0@, k, v),
    ensures
        message_wf(m2),
{
    let entries = m.descriptor.spec_entry().fields@;
    let file = m.descriptor.file@;
    assert forall|j: int| 0 <= j < m2.fields@.len() implies field_value_wf(#[trigger] m2.fields@[j], entries[j], file) by {
        assert(field_value_wf(m.fields@[j], entries[j], file));
        if j == i {
            if let FieldKind::Mapped(kt, vt) = entries[i].kind {
                lemma_map_insert_wf(m.fields@[i]->Mapped_0@, k, v, kt, vt, file);
            }
        }
    }
    assert forall|a: int, b: int|
        0 <= a < m2.fields@.len() && 0 <= b < m2.fields@.len() && a != b && entries[a].oneof is Some
            && entries[a].oneof == entries[b].oneof implies !(is_set(#[trigger] m2.fields@[a]) && is_set(
        #[trigger] m2.fields@[b],
    )) by {
        assert(!(is_set(m.fields@[a]) && is_set(m.fields@[b])));
    }
}


/// Inserting two entries with different keys into a map in either order
/// gives maps that compare equal in either mode, when every value involved
/// equals itself in that mode (under IEEE 754: holds no NaN).
pub proof fn lemma_map_insert_order_mode(
    es: Seq<(ReflectValueBox, ReflectValueBox)>,
    k1: ReflectValueBox,
    v1: ReflectValueBox,
    k2: ReflectValueBox,
    v2: ReflectValueBox,
    kt: ElemType,
    vt: ElemType,
    file: FileIndex,
    nan_equal: bool,
)
    requires
        entries_wf(es, kt, vt, file),
        value_wf(k1, kt, file),
        value_wf(v1, vt, file),
        value_wf(k2, kt, file),
        value_wf(v2, vt, file),
        !value_eq(k1, k2, false),
        value_eq(v1, v1, nan_equal),
        value_eq(v2, v2, nan_equal),
        forall|i: int| 0 <= i < es.len() ==> value_eq((#[trigger] es[i]).1, es[i].1, nan_equal),
    ensures
        entries_eq_spec(
            map_insert(map_insert(es, k1, v1), k2, v2),
            map_insert(map_insert(es, k2, v2), k1, v1),
            nan_equal,
        ),
{
    let e1 = map_insert(es, k1, v1);
    let e2 = map_insert(es, k2, v2);
    let a = map_insert(e1, k2, v2);
    let b = map_insert(e2, k1, v1);
    lemma_insert_shape(es, k1, v1, kt, vt, file);
    lemma_insert_shape(es, k2, v2, kt, vt, file);
    lemma_insert_shape(e1, k2, v2, kt, vt, file);
    lemma_insert_shape(e2, k1, v1, kt, vt, file);
    lemma_key_eq(k1, k2, k1, kt, file);
    lemma_has_key_after_insert(es, k1, v1, k2, kt, vt, file);
    lemma_has_key_after_insert(es, k2, v2, k1, kt, vt, file);
    lemma_insert_members(es, k1, v1, k2, v2, kt, vt, file);
    assert forall|i: int| 0 <= i < a.len() implies has_entry(#[trigger] a[i], b, nan_equal) by {
        assert(seq_has(b, a[i]));
        let q = choose|q: int| 0 <= q < b.len() && b[q] == a[i];
        assert(value_wf(a[i].0, kt, file));
        lemma_key_eq(a[i].0, a[i].0, a[i].0, kt, file);
        assert(value_eq(a[i].0, a[i].0, nan_equal));
        if a[i] == (k1, v1) || a[i] == (k2, v2) {
        } else {
            let j = choose|j: int| 0 <= j < e1.len() && e1[j] == a[i];
            if e1[j] != (k1, v1) {
                let j2 = choose|j2: int| 0 <= j2 < es.len() && es[j2] == e1[j];
                assert(value_eq(es[j2].1, es[j2].1, nan_equal));
            }
        }
        assert(value_eq(a[i].0, b[q].0, nan_equal) && value_eq(a[i].1, b[q].1, nan_equal));
    }
}


/// Keys no two of which are equal.
pub open spec fn distinct_keys(ks: Seq<ReflectValueBox>) -> bool {
    forall|i: int, j: int| 0 <= i < ks.len() && 0 <= j < ks.len() && i != j ==> !value_eq(#[trigger] ks[i], #[trigger] ks[j], false)
}

proof fn lemma_insert_all_distinct(ks: Seq<ReflectValueBox>, vs: Seq<ReflectValueBox>, n: int)
    requires
        0 <= n <= ks.len(),
        n <= vs.len(),
        distinct_keys(ks),
    ensures
        insert_all(ks, vs, n).len() == n,
        forall|i: int| 0 <= i < n ==> #[trigger] insert_all(ks, vs, n)[i] == (ks[i], vs[i]),
    decreases n,
{
    if n > 0 {
        lemma_insert_all_distinct(ks, vs, n - 1);
        let prev = insert_all(ks, vs, n - 1);
        lemma_key_pos(prev, ks[n - 1], 0);
        if key_pos(prev, ks[n - 1], 0) is Some {
            let p = key_pos(prev, ks[n - 1], 0)->0;
            assert(prev[p] == (ks[p], vs[p]));
            assert(value_eq(ks[p], ks[n - 1], false));
        }
        assert(insert_all(ks, vs, n) == prev.push((ks[n - 1], vs[n - 1])));
    }
}

/// A map filled by inserting pairs with distinct keys does not depend on
/// the order of insertion: inserting the same pairs in any two orders gives
/// maps that compare equal, in a mode where each value equals itself
/// (under IEEE 754: no NaN).
pub proof fn lemma_map_any_order(
    ks1: Seq<ReflectValueBox>,
    vs1: Seq<ReflectValueBox>,
    ks2: Seq<ReflectValueBox>,
    vs2: Seq<ReflectValueBox>,
    kt: ElemType,
    file: FileIndex,
    nan_equal: bool,
)
    requires
        valid_map_key(kt),
        ks1.len() == vs1.len(),
        ks2.len() == vs2.len(),
        ks1.len() == ks2.len(),
        forall|i: int| 0 <= i < ks1.len() ==> value_wf(#[trigger] ks1[i], kt, file),
        distinct_keys(ks1),
        distinct_keys(ks2),
        forall|i: int| 0 <= i < ks1.len() ==> exists|j: int| 0 <= j < ks2.len() && ks2[j] == ks1[i] && vs2[j] == #[trigger] vs1[i],
        forall|i: int| 0 <= i < vs1.len() ==> value_eq(#[trigger] vs1[i], vs1[i], nan_equal),
    ensures
        entries_eq_spec(insert_all(ks1, vs1, ks1.len() as int), insert_all(ks2, vs2, ks2.len() as int), nan_equal),
{
    let n = ks1.len() as int;
    lemma_insert_all_distinct(ks1, vs1, n);
    lemma_insert_all_distinct(ks2, vs2, n);
    let a = insert_all(ks1, vs1, n);
    let b = insert_all(ks2, vs2, n);
    assert forall|i: int| 0 <= i < a.len() implies has_entry(#[trigger] a[i], b, nan_equal) by {
        assert(a[i] == (ks1[i], vs1[i]));
        let _ = vs1[i];
        let j = choose|j: int| 0 <= j < ks2.len() && ks2[j] == ks1[i] && vs2[j] == vs1[i];
        assert(b[j] == (ks2[j], vs2[j]));
        assert(value_wf(ks1[i], kt, file));
        lemma_key_eq(ks1[i], ks1[i], ks1[i], kt, file);
        assert(value_eq(ks1[i], ks1[i], nan_equal));
        assert(value_eq(a[i].0, b[j].0, nan_equal) && value_eq(a[i].1, b[j].1, nan_equal));
    }
}

} // verus!
