//! Views of map fields. Entries are kept in insertion order with unique
//! keys; that order carries no meaning, and equality ignores it.
use vstd::prelude::*;
use crate::accessor::field_of;
use crate::descriptor::{FieldDescriptor, FileDescriptor};
use crate::dynamic::{
    field_value_wf, is_set, keys_unique, message_wf, oneofs_exclusive, DynamicFieldValue,
    DynamicMessage,
};
use crate::index::{ElemType, FieldKind};
use crate::laws::{entries_wf, has_key, lemma_insert_shape, seq_has};
use crate::schema::str_is;
use crate::value::{
    ref_matches, runtime_type, runtime_type_of, value_eq, value_wf, ReflectEqMode,
    ReflectValueBox, ReflectValueRef, RuntimeTypeBox,
};

verus! {

/// The entries of a map field.
pub type MapEntries = Vec<(ReflectValueBox, ReflectValueBox)>;

/// A borrowed key equals an owned key.
pub open spec fn key_ref_matches(k: ReflectValueRef, v: ReflectValueBox) -> bool {
    match (k, v) {
        (ReflectValueRef::U32(x), ReflectValueBox::U32(y)) => x == y,
        (ReflectValueRef::U64(x), ReflectValueBox::U64(y)) => x == y,
        (ReflectValueRef::I32(x), ReflectValueBox::I32(y)) => x == y,
        (ReflectValueRef::I64(x), ReflectValueBox::I64(y)) => x == y,
        (ReflectValueRef::Bool(x), ReflectValueBox::Bool(y)) => x == y,
        (ReflectValueRef::String(x), ReflectValueBox::String(y)) => x@ == y@,
        _ => false,
    }
}

/// The result of looking `k` up in `es`: the value of the entry whose key
/// equals `k`, or `None` when there is none.
pub open spec fn lookup_matches(
    es: Seq<(ReflectValueBox, ReflectValueBox)>,
    k: ReflectValueRef,
    r: Option<ReflectValueRef>,
) -> bool {
    match r {
        Some(v) => exists|i: int|
            0 <= i < es.len() && key_ref_matches(k, (#[trigger] es[i]).0) && ref_matches(v, es[i].1),
        None => forall|i: int| 0 <= i < es.len() ==> !key_ref_matches(k, (#[trigger] es[i]).0),
    }
}

/// The first position at or after `from` whose key equals `k`.
pub open spec fn key_pos(es: Seq<(ReflectValueBox, ReflectValueBox)>, k: ReflectValueBox, from: int) -> Option<int>
    decreases es.len() - from,
{
    if from < 0 || from >= es.len() {
        None
    } else if value_eq(es[from].0, k, false) {
        Some(from)
    } else {
        key_pos(es, k, from + 1)
    }
}

/// The entries after inserting `(k, v)`: the entry with an equal key is
/// replaced, or the entry is added at the end.
pub open spec fn map_insert(
    es: Seq<(ReflectValueBox, ReflectValueBox)>,
    k: ReflectValueBox,
    v: ReflectValueBox,
) -> Seq<(ReflectValueBox, ReflectValueBox)> {
    match key_pos(es, k, 0) {
        Some(i) => es.update(i, (k, v)),
        None => es.push((k, v)),
    }
}

fn key_ref_eq(k: &ReflectValueRef, v: &ReflectValueBox) -> (r: bool)
    ensures
        r == key_ref_matches(*k, *v),
{
    match (k, v) {
        (ReflectValueRef::U32(x), ReflectValueBox::U32(y)) => *x == *y,
        (ReflectValueRef::U64(x), ReflectValueBox::U64(y)) => *x == *y,
        (ReflectValueRef::I32(x), ReflectValueBox::I32(y)) => *x == *y,
        (ReflectValueRef::I64(x), ReflectValueBox::I64(y)) => *x == *y,
        (ReflectValueRef::Bool(x), ReflectValueBox::Bool(y)) => *x == *y,
        (ReflectValueRef::String(x), ReflectValueBox::String(y)) => str_is(x, y.as_str()),
        _ => false,
    }
}

fn entries_get<'a>(es: &'a MapEntries, key: &ReflectValueRef) -> (r: Option<ReflectValueRef<'a>>)
    ensures
        lookup_matches(es@, *key, r),
{
    let mut i: usize = 0;
    while i < es.len()
        invariant
            i <= es@.len(),
            forall|q: int| 0 <= q < i ==> !key_ref_matches(*key, (#[trigger] es@[q]).0),
        decreases es@.len() - i,
    {
        if key_ref_eq(key, &es[i].0) {
            let r = es[i].1.as_value_ref();
            assert(key_ref_matches(*key, es@[i as int].0) && ref_matches(r, es@[i as int].1));
            return Some(r);
        }
        i = i + 1;
    }
    None
}

pub(crate) fn entries_insert(es: &mut MapEntries, k: ReflectValueBox, v: ReflectValueBox)
    ensures
        final(es)@ == map_insert(old(es)@, k, v),
{
    let ghost start = es@;
    let mode = ReflectEqMode { nan_equal: false };
    let mut i: usize = 0;
    while i < es.len()
        invariant
            es@ == start,
            start == old(es)@,
            i <= es@.len(),
            mode.nan_equal == false,
            key_pos(es@, k, 0) == key_pos(es@, k, i as int),
        decreases es@.len() - i,
    {
        if es[i].0.reflect_eq(&k, &mode) {
            assert(key_pos(start, k, i as int) == Some(i as int));
            es.set(i, (k, v));
            return;
        }
        i = i + 1;
    }
    es.push((k, v));
}

/// A borrowed view of a map field.
pub struct ReflectMapRef<'a> {
    pub entries: &'a MapEntries,
    pub key: ElemType,
    pub value: ElemType,
    pub file: FileDescriptor,
}

/// A mutable view of a map field, with the key and value types that
/// inserted entries must have.
pub struct ReflectMapMut<'a> {
    pub entries: &'a mut MapEntries,
    pub key: ElemType,
    pub value: ElemType,
    pub file: FileDescriptor,
}

/// Walks the entries of a map field, in no meaningful order.
pub struct ReflectMapIter<'a> {
    pub entries: &'a MapEntries,
    pub pos: usize,
}

/// Walks the entries of a map field, with the field's key and value types.
pub struct ReflectMapRefIter<'a> {
    pub iter: ReflectMapIter<'a>,
    pub key: ElemType,
    pub value: ElemType,
    pub file: FileDescriptor,
}

impl<'a> ReflectMapIter<'a> {
    pub fn new(entries: &'a MapEntries) -> (r: ReflectMapIter<'a>)
        ensures
            r.entries == entries,
            r.pos == 0,
    {
        ReflectMapIter { entries, pos: 0 }
    }

    /// The next entry, or `None` past the last one.
    pub fn next(&mut self) -> (r: Option<(ReflectValueRef<'a>, ReflectValueRef<'a>)>)
        ensures
            final(self).entries == old(self).entries,
            old(self).pos < old(self).entries@.len() ==> {
                &&& final(self).pos == old(self).pos + 1
                &&& r matches Some((k, v)) && ref_matches(k, old(self).entries@[old(self).pos as int].0)
                    && ref_matches(v, old(self).entries@[old(self).pos as int].1)
            },
            old(self).pos >= old(self).entries@.len() ==> final(self).pos == old(self).pos && r is None,
    {
        let es: &'a MapEntries = self.entries;
        if self.pos < es.len() {
            let e: &'a (ReflectValueBox, ReflectValueBox) = &es[self.pos];
            self.pos = self.pos + 1;
            Some((e.0.as_value_ref(), e.1.as_value_ref()))
        } else {
            None
        }
    }
}

impl<'a> ReflectMapRefIter<'a> {
    pub fn next(&mut self) -> (r: Option<(ReflectValueRef<'a>, ReflectValueRef<'a>)>)
        ensures
            final(self).iter.entries == old(self).iter.entries,
            final(self).key == old(self).key,
            final(self).value == old(self).value,
            final(self).file == old(self).file,
            old(self).iter.pos < old(self).iter.entries@.len() ==> {
                &&& final(self).iter.pos == old(self).iter.pos + 1
                &&& r matches Some((k, v)) && ref_matches(k, old(self).iter.entries@[old(self).iter.pos as int].0)
                    && ref_matches(v, old(self).iter.entries@[old(self).iter.pos as int].1)
            },
            old(self).iter.pos >= old(self).iter.entries@.len() ==> final(self).iter.pos == old(self).iter.pos && r is None,
    {
        self.iter.next()
    }

    fn _key_type(&self) -> (r: RuntimeTypeBox)
        ensures
            r == runtime_type_of(self.key, self.file),
    {
        runtime_type(self.key, &self.file)
    }

    fn _value_type(&self) -> (r: RuntimeTypeBox)
        ensures
            r == runtime_type_of(self.value, self.file),
    {
        runtime_type(self.value, &self.file)
    }
}

impl<'a> ReflectMapRef<'a> {
    /// The entries have unique keys of a map-key type, and values of the
    /// value type.
    pub open spec fn wf(&self) -> bool {
        entries_wf(self.entries@, self.key, self.value, self.file@)
    }

    pub fn new(entries: &'a MapEntries, key: ElemType, value: ElemType, file: FileDescriptor) -> (r: ReflectMapRef<'a>)
        requires
            entries_wf(entries@, key, value, file@),
        ensures
            r.wf(),
            r.entries == entries,
            r.key == key,
            r.value == value,
            r.file == file,
    {
        ReflectMapRef { entries, key, value, file }
    }

    /// Size of the map.
    pub fn len(&self) -> (r: usize)
        ensures
            r == self.entries@.len(),
    {
        self.entries.len()
    }

    /// Is the map empty?
    pub fn is_empty(&self) -> (r: bool)
        ensures
            r == (self.entries@.len() == 0),
    {
        self.entries.len() == 0
    }

    /// Finds the value for a key.
    pub fn get(&self, key: ReflectValueRef) -> (r: Option<ReflectValueRef<'a>>)
        ensures
            lookup_matches(self.entries@, key, r),
    {
        let es: &'a MapEntries = self.entries;
        entries_get(es, &key)
    }

    /// The key type.
    pub fn key_type(&self) -> (r: RuntimeTypeBox)
        ensures
            r == runtime_type_of(self.key, self.file),
    {
        runtime_type(self.key, &self.file)
    }

    /// The value type.
    pub fn value_type(&self) -> (r: RuntimeTypeBox)
        ensures
            r == runtime_type_of(self.value, self.file),
    {
        runtime_type(self.value, &self.file)
    }

    /// Reflective equality of two maps: as many entries, and each entry of
    /// this map has an entry of the other with an equal key and an equal
    /// value; the order of entries does not count.
    pub fn reflect_eq(&self, other: &ReflectMapRef, mode: &ReflectEqMode) -> (r: bool)
        ensures
            r == crate::dynamic::entries_eq_spec(self.entries@, other.entries@, mode.nan_equal),
    {
        crate::dynamic::entries_eq(self.entries, other.entries, mode, Ghost(DynamicFieldValue::Mapped(*self.entries)))
    }

    /// Walks the entries.
    pub fn iter(&self) -> (r: ReflectMapRefIter<'a>)
        ensures
            r.iter.entries == self.entries,
            r.iter.pos == 0,
            r.key == self.key,
            r.value == self.value,
            r.file == self.file,
    {
        ReflectMapRefIter {
            iter: ReflectMapIter::new(self.entries),
            key: self.key,
            value: self.value,
            file: self.file.share(),
        }
    }
}

impl<'a> ReflectMapMut<'a> {
    /// The entries have unique keys of a map-key type, and values of the
    /// value type.
    pub open spec fn wf(&self) -> bool {
        entries_wf(self.entries@, self.key, self.value, self.file@)
    }

    pub fn new(entries: &'a mut MapEntries, key: ElemType, value: ElemType, file: FileDescriptor) -> (r: ReflectMapMut<'a>)
        requires
            entries_wf(old(entries)@, key, value, file@),
        ensures
            r.wf(),
            *r.entries == *old(entries),
            *final(r.entries) == *final(entries),
            r.key == key,
            r.value == value,
            r.file == file,
    {
        ReflectMapMut { entries, key, value, file }
    }

    fn as_ref(&self) -> (r: ReflectMapRef<'_>)
        ensures
            *r.entries == *old(self.entries),
            r.key == self.key,
            r.value == self.value,
            r.file == self.file,
    {
        ReflectMapRef { entries: &*self.entries, key: self.key, value: self.value, file: self.file.share() }
    }

    /// The key type.
    pub fn key_type(&self) -> (r: RuntimeTypeBox)
        ensures
            r == runtime_type_of(self.key, self.file),
    {
        runtime_type(self.key, &self.file)
    }

    /// The value type.
    pub fn value_type(&self) -> (r: RuntimeTypeBox)
        ensures
            r == runtime_type_of(self.value, self.file),
    {
        runtime_type(self.value, &self.file)
    }

    /// Number of entries.
    pub fn len(&self) -> (r: usize)
        ensures
            r == old(self.entries)@.len(),
    {
        self.as_ref().len()
    }

    /// Is the map empty?
    pub fn is_empty(&self) -> (r: bool)
        ensures
            r == (old(self.entries)@.len() == 0),
    {
        self.as_ref().is_empty()
    }

    /// Finds the value for a key.
    pub fn get(&self, key: ReflectValueRef) -> (r: Option<ReflectValueRef<'_>>)
        ensures
            lookup_matches(old(self.entries)@, key, r),
    {
        entries_get(&*self.entries, &key)
    }

    /// Inserts an entry, replacing the entry with an equal key if there is
    /// one. The key and the value must have the map's types.
    pub fn insert(&mut self, key: ReflectValueBox, value: ReflectValueBox)
        requires
            old(self).wf(),
            value_wf(key, old(self).key, old(self).file@),
            value_wf(value, old(self).value, old(self).file@),
        ensures
            final(self).wf(),
            final(self).entries@ == map_insert(old(self).entries@, key, value),
            exists|i: int|
                0 <= i < final(self).entries@.len() && final(self).entries@[i] == (key, value)
                    && forall|j: int|
                    0 <= j < final(self).entries@.len() && j != i ==> !value_eq(
                        #[trigger] final(self).entries@[j].0,
                        key,
                        false,
                    ),
            final(self).entries@.len() == old(self).entries@.len() + if has_key(old(self).entries@, key) {
                0int
            } else {
                1int
            },
            forall|j: int|
                0 <= j < old(self).entries@.len() && !value_eq(#[trigger] old(self).entries@[j].0, key, false)
                    ==> seq_has(final(self).entries@, old(self).entries@[j]),
            *final(final(self).entries) == *final(old(self).entries),
            final(self).key == old(self).key,
            final(self).value == old(self).value,
            final(self).file == old(self).file,
    {
        proof {
            lemma_insert_shape(self.entries@, key, value, self.key, self.value, self.file@);
            let r = map_insert(self.entries@, key, value);
            let i = choose|i: int| 0 <= i < r.len() && r[i] == (key, value);
            assert forall|j: int| 0 <= j < r.len() && j != i implies !value_eq(#[trigger] r[j].0, key, false) by {
                assert(!value_eq(r[j].0, r[i].0, false));
            }
        }
        entries_insert(self.entries, key, value);
    }

    /// Removes every entry.
    pub fn clear(&mut self)
        requires
            old(self).wf(),
        ensures
            final(self).wf(),
            final(self).entries@.len() == 0,
            *final(final(self).entries) == *final(old(self).entries),
            final(self).key == old(self).key,
            final(self).value == old(self).value,
            final(self).file == old(self).file,
    {
        self.entries.clear();
    }
}


pub(crate) proof fn lemma_key_pos(es: Seq<(ReflectValueBox, ReflectValueBox)>, k: ReflectValueBox, from: int)
    requires
        0 <= from,
    ensures
        match key_pos(es, k, from) {
            Some(i) => from <= i < es.len() && value_eq(es[i].0, k, false),
            None => forall|j: int| from <= j < es.len() ==> !value_eq(#[trigger] es[j].0, k, false),
        },
    decreases es.len() - from,
{
    if from < es.len() {
        lemma_key_pos(es, k, from + 1);
    }
}

/// On values of a map-key type, equality is symmetric and transitive.
pub(crate) proof fn lemma_key_eq(a: ReflectValueBox, b: ReflectValueBox, c: ReflectValueBox, kt: ElemType, file: crate::index::FileIndex)
    requires
        crate::index::valid_map_key(kt),
        value_wf(a, kt, file),
        value_wf(b, kt, file),
        value_wf(c, kt, file),
    ensures
        value_eq(a, b, false) == value_eq(b, a, false),
        value_eq(a, b, false) && value_eq(b, c, false) ==> value_eq(a, c, false),
{
}

/// Inserting an entry of the right types into a map field keeps its keys
/// unique and its entries typed.
pub proof fn lemma_map_insert_wf(
    es: Seq<(ReflectValueBox, ReflectValueBox)>,
    k: ReflectValueBox,
    v: ReflectValueBox,
    kt: ElemType,
    vt: ElemType,
    file: crate::index::FileIndex,
)
    requires
        crate::index::valid_map_key(kt),
        forall|i: int| 0 <= i < es.len() ==> value_wf((#[trigger] es[i]).0, kt, file) && value_wf(es[i].1, vt, file),
        keys_unique(es),
        value_wf(k, kt, file),
        value_wf(v, vt, file),
    ensures
        forall|i: int|
            0 <= i < map_insert(es, k, v).len() ==> value_wf((#[trigger] map_insert(es, k, v)[i]).0, kt, file)
                && value_wf(map_insert(es, k, v)[i].1, vt, file),
        keys_unique(map_insert(es, k, v)),
{
    lemma_key_pos(es, k, 0);
    let r = map_insert(es, k, v);
    match key_pos(es, k, 0) {
        Some(p) => {
            assert forall|i: int, j: int|
                0 <= i < r.len() && 0 <= j < r.len() && i != j implies !value_eq(
                (#[trigger] r[i]).0,
                (#[trigger] r[j]).0,
                false,
            ) by {
                if i == p {
                    lemma_key_eq(es[j].0, es[p].0, k, kt, file);
                    lemma_key_eq(k, es[p].0, es[j].0, kt, file);
                    lemma_key_eq(es[p].0, k, es[j].0, kt, file);
                } else if j == p {
                    lemma_key_eq(es[i].0, k, es[p].0, kt, file);
                    lemma_key_eq(es[p].0, k, es[i].0, kt, file);
                    lemma_key_eq(k, es[p].0, es[i].0, kt, file);
                }
            }
        },
        None => {
            assert forall|i: int, j: int|
                0 <= i < r.len() && 0 <= j < r.len() && i != j implies !value_eq(
                (#[trigger] r[i]).0,
                (#[trigger] r[j]).0,
                false,
            ) by {
                if i == es.len() {
                    lemma_key_eq(k, es[j].0, k, kt, file);
                } else if j == es.len() {
                    assert(!value_eq(es[i].0, k, false));
                }
            }
        },
    }
}

impl FieldDescriptor {
    /// A borrowed view of a map field.
    pub fn get_map<'a>(&self, m: &'a DynamicMessage) -> (r: ReflectMapRef<'a>)
        requires
            field_of(*self, *m),
            self.spec_entry().kind is Mapped,
        ensures
            m.fields@[self.index as int] == DynamicFieldValue::Mapped(*r.entries),
            FieldKind::Mapped(r.key, r.value) == self.spec_entry().kind,
            r.file == m.descriptor.file,
            r.wf(),
    {
        let entry = &self.message.file.imp.messages[self.message.index];
        proof {
            assert(field_value_wf(m.fields@[self.index as int], entry.fields@[self.index as int], m.descriptor.file@));
        }
        let (key, value) = match entry.fields[self.index].kind {
            FieldKind::Mapped(k, v) => (k, v),
            _ => vstd::pervasive::unreached(),
        };
        let fields: &'a Vec<DynamicFieldValue> = &m.fields;
        match &fields[self.index] {
            DynamicFieldValue::Mapped(es) => ReflectMapRef { entries: es, key, value, file: self.message.file.share() },
            _ => vstd::pervasive::unreached(),
        }
    }

    /// A mutable view of a map field. The message's encoded size is
    /// forgotten.
    pub fn mut_map<'a>(&self, m: &'a mut DynamicMessage) -> (r: ReflectMapMut<'a>)
        requires
            field_of(*self, *old(m)),
            self.spec_entry().kind is Mapped,
        ensures
            old(m).fields@[self.index as int] == DynamicFieldValue::Mapped(*r.entries),
            FieldKind::Mapped(r.key, r.value) == self.spec_entry().kind,
            r.file == old(m).descriptor.file,
            r.wf(),
            final(m).descriptor == old(m).descriptor,
            final(m).fields@ == old(m).fields@.update(
                self.index as int,
                DynamicFieldValue::Mapped(*final(r.entries)),
            ),
            final(m).unknown_fields == old(m).unknown_fields,
            final(m).cached_size is None,
    {
        let entry = &self.message.file.imp.messages[self.message.index];
        proof {
            assert(field_value_wf(m.fields@[self.index as int], entry.fields@[self.index as int], m.descriptor.file@));
        }
        let (key, value) = match entry.fields[self.index].kind {
            FieldKind::Mapped(k, v) => (k, v),
            _ => vstd::pervasive::unreached(),
        };
        let file = self.message.file.share();
        m.cached_size = None;
        let slot = &mut m.fields[self.index];
        match slot {
            DynamicFieldValue::Mapped(es) => ReflectMapMut { entries: es, key, value, file },
            _ => vstd::pervasive::unreached(),
        }
    }
}

} // verus!
