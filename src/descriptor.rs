//! Descriptors: cheap handles made of a shared file index and a position.
use std::sync::Arc;
use vstd::prelude::*;
use crate::index::{
    flat_messages, index_matches, index_wf, lemma_build_wf, package_prefix, valid_file, error_holds, ElemType,
    FieldIndex, FieldKind, FileIndex, MessageIndex, SchemaError,
};
use crate::schema::{is_map_entry_shape, str_is, FileProto, Label};
use crate::value::{runtime_type, runtime_type_of, RuntimeFieldType, RuntimeTypeBox};

verus! {

/// Where the messages of a schema unit keep their fields: in native
/// structures compiled ahead of time, or in storage built at run time.
#[derive(Clone, Copy, Debug, PartialEq, Eq, Structural)]
pub enum Backing {
    Generated,
    Dynamic,
}

/// A schema unit, shared by every descriptor taken from it.
pub struct FileDescriptor {
    pub imp: Arc<FileIndex>,
    pub backing: Backing,
}

/// What a generated message type hands over when its schema unit is built:
/// the type's fully qualified name.
pub struct GeneratedMessageData {
    pub full_name: String,
}

impl View for FileDescriptor {
    type V = FileIndex;

    open spec fn view(&self) -> FileIndex {
        *self.imp
    }
}

impl FileDescriptor {
    pub open spec fn wf(&self) -> bool {
        index_wf(self@)
    }

    /// Another handle on the same schema unit.
    pub fn share(&self) -> (r: FileDescriptor)
        ensures
            r == *self,
    {
        FileDescriptor { imp: self.imp.clone(), backing: self.backing }
    }
}

/// A message type: a file and the message's position in its depth-first order.
pub struct MessageDescriptor {
    pub file: FileDescriptor,
    pub index: usize,
}

/// An enum type: a file and the enum's position in it.
pub struct EnumDescriptor {
    pub file: FileDescriptor,
    pub index: usize,
}

/// A field: its message and the field's position in it.
pub struct FieldDescriptor {
    pub message: MessageDescriptor,
    pub index: usize,
}

/// A oneof: its message and the oneof's position in it.
pub struct OneofDescriptor {
    pub message: MessageDescriptor,
    pub index: usize,
}

impl MessageDescriptor {
    pub open spec fn wf(&self) -> bool {
        self.file.wf() && self.index < self.file@.messages@.len()
    }

    /// The index entry of this message.
    pub open spec fn spec_entry(&self) -> MessageIndex {
        self.file@.messages@[self.index as int]
    }

    pub fn share(&self) -> (r: MessageDescriptor)
        ensures
            r == *self,
    {
        MessageDescriptor { file: self.file.share(), index: self.index }
    }
}

impl EnumDescriptor {
    pub open spec fn wf(&self) -> bool {
        self.file.wf() && self.index < self.file@.enums@.len()
    }

    pub fn share(&self) -> (r: EnumDescriptor)
        ensures
            r == *self,
    {
        EnumDescriptor { file: self.file.share(), index: self.index }
    }
}

impl FieldDescriptor {
    pub open spec fn wf(&self) -> bool {
        self.message.wf() && self.index < self.message.spec_entry().fields@.len()
    }

    /// The index entry of this field's message.
    pub open spec fn spec_entry_message(&self) -> MessageIndex {
        self.message.spec_entry()
    }

    /// The index entry of this field.
    pub open spec fn spec_entry(&self) -> FieldIndex {
        self.message.spec_entry().fields@[self.index as int]
    }

    pub fn share(&self) -> (r: FieldDescriptor)
        ensures
            r == *self,
    {
        FieldDescriptor { message: self.message.share(), index: self.index }
    }
}


/// The first field at or after `from` with number `n`.
pub open spec fn pos_by_number(fs: Seq<FieldIndex>, n: u32, from: int) -> Option<int>
    decreases fs.len() - from,
{
    if from < 0 || from >= fs.len() {
        None
    } else if fs[from].number == n {
        Some(from)
    } else {
        pos_by_number(fs, n, from + 1)
    }
}

/// The first field at or after `from` named `name`.
pub open spec fn pos_by_name(fs: Seq<FieldIndex>, name: Seq<char>, from: int) -> Option<int>
    decreases fs.len() - from,
{
    if from < 0 || from >= fs.len() {
        None
    } else if fs[from].name@ == name {
        Some(from)
    } else {
        pos_by_name(fs, name, from + 1)
    }
}

/// The first field at or after `from` whose JSON name is `name`.
pub open spec fn pos_by_json_name(fs: Seq<FieldIndex>, name: Seq<char>, from: int) -> Option<int>
    decreases fs.len() - from,
{
    if from < 0 || from >= fs.len() {
        None
    } else if fs[from].json_name@ == name {
        Some(from)
    } else {
        pos_by_json_name(fs, name, from + 1)
    }
}

/// The field a name denotes, trying field names before JSON names.
pub open spec fn pos_by_name_or_json_name(fs: Seq<FieldIndex>, name: Seq<char>) -> Option<int> {
    match pos_by_name(fs, name, 0) {
        Some(j) => Some(j),
        None => pos_by_json_name(fs, name, 0),
    }
}

/// The descriptor of field `pos` of `m`, if there is one.
pub open spec fn field_at_pos(m: MessageDescriptor, pos: Option<int>) -> Option<FieldDescriptor> {
    match pos {
        Some(j) => Some(FieldDescriptor { message: m, index: j as usize }),
        None => None,
    }
}

proof fn lemma_pos_unique(fs: Seq<FieldIndex>, j: int, from: int)
    requires
        0 <= from <= j < fs.len(),
        forall|a: int, b: int|
            0 <= a < fs.len() && 0 <= b < fs.len() && a != b ==> {
                &&& (#[trigger] fs[a]).number != (#[trigger] fs[b]).number
                &&& fs[a].name@ != fs[b].name@
                &&& fs[a].json_name@ != fs[b].json_name@
            },
    ensures
        pos_by_number(fs, fs[j].number, from) == Some(j),
        pos_by_name(fs, fs[j].name@, from) == Some(j),
        pos_by_json_name(fs, fs[j].json_name@, from) == Some(j),
    decreases j - from,
{
    if from < j {
        lemma_pos_unique(fs, j, from + 1);
    }
}

proof fn lemma_name_absent(fs: Seq<FieldIndex>, x: Seq<char>, from: int)
    requires
        0 <= from,
        forall|a: int| from <= a < fs.len() ==> (#[trigger] fs[a]).name@ != x,
    ensures
        pos_by_name(fs, x, from) is None,
    decreases fs.len() - from,
{
    if from < fs.len() {
        lemma_name_absent(fs, x, from + 1);
    }
}

/// Every declared field is found, at its own position, by its number, by
/// its name and by its JSON name, also when names and JSON names are
/// looked up together.
pub proof fn lemma_index_correct(d: MessageDescriptor, j: int)
    requires
        d.wf(),
        0 <= j < d.spec_entry().fields@.len(),
    ensures
        pos_by_number(d.spec_entry().fields@, d.spec_entry().fields@[j].number, 0) == Some(j),
        pos_by_name(d.spec_entry().fields@, d.spec_entry().fields@[j].name@, 0) == Some(j),
        pos_by_json_name(d.spec_entry().fields@, d.spec_entry().fields@[j].json_name@, 0) == Some(j),
        pos_by_name_or_json_name(d.spec_entry().fields@, d.spec_entry().fields@[j].name@) == Some(j),
        pos_by_name_or_json_name(d.spec_entry().fields@, d.spec_entry().fields@[j].json_name@) == Some(j),
{
    let m = d.file@.messages@[d.index as int];
    assert(index_wf(d.file@));
    lemma_pos_unique(m.fields@, j, 0);
    let fs = m.fields@;
    if fs[j].name@ == fs[j].json_name@ {
    } else {
        assert forall|a: int| 0 <= a < fs.len() implies (#[trigger] fs[a]).name@ != fs[j].json_name@ by {
            if a != j {
                assert(fs[a].name@ != fs[j].json_name@);
            }
        }
        lemma_name_absent(fs, fs[j].json_name@, 0);
    }
}

impl FileDescriptor {
    /// Builds a schema unit from its description; see `FileIndex::build`.
    pub fn new_dynamic(proto: FileProto) -> (r: Result<FileDescriptor, SchemaError>)
        ensures
            match r {
                Ok(fd) => valid_file(proto) && index_matches(proto, fd@) && fd.wf() && fd.backing
                    == Backing::Dynamic,
                Err(e) => !valid_file(proto) && error_holds(proto, e),
            },
    {
        match FileIndex::build(&proto) {
            Ok(idx) => {
                proof {
                    lemma_build_wf(proto, idx);
                }
                Ok(FileDescriptor { imp: Arc::new(idx), backing: Backing::Dynamic })
            },
            Err(e) => Err(e),
        }
    }

    /// Builds a schema unit whose messages are generated types. Every
    /// message but map entries must be given data, matched by full name.
    pub fn new_generated(proto: &FileProto, data: Vec<GeneratedMessageData>) -> (r: Result<
        FileDescriptor,
        SchemaError,
    >)
        ensures
            match r {
                Ok(fd) => {
                    &&& valid_file(*proto)
                    &&& index_matches(*proto, fd@)
                    &&& fd.wf()
                    &&& fd.backing == Backing::Generated
                    &&& forall|i: int|
                        0 <= i < fd@.messages@.len() && !(#[trigger] fd@.messages@[i]).map_entry ==> exists|k: int|
                            0 <= k < data@.len() && data@[k].full_name@ == fd@.messages@[i].full_name@
                },
                Err(SchemaError::MissingGeneratedData { message }) => {
                    &&& valid_file(*proto)
                    &&& message < flat_messages(*proto).len()
                    &&& !is_map_entry_shape(flat_messages(*proto)[message as int].0)
                    &&& forall|k: int| 0 <= k < data@.len() ==> (#[trigger] data@[k]).full_name@ != flat_messages(*proto)[message as int].1
                },
                Err(e) => !valid_file(*proto) && error_holds(*proto, e),
            },
    {
        let idx = match FileIndex::build(proto) {
            Ok(idx) => idx,
            Err(e) => {
                return Err(e);
            },
        };
        proof {
            lemma_build_wf(*proto, idx);
        }
        let mut i: usize = 0;
        while i < idx.messages.len()
            invariant
                index_matches(*proto, idx),
                valid_file(*proto),
                index_wf(idx),
                i <= idx.messages@.len(),
                forall|q: int|
                    0 <= q < i && !(#[trigger] idx.messages@[q]).map_entry ==> exists|k: int|
                        0 <= k < data@.len() && data@[k].full_name@ == idx.messages@[q].full_name@,
            decreases idx.messages@.len() - i,
        {
            assert(crate::index::message_matches(*proto, i as int, idx.messages@[i as int]));
            if !idx.messages[i].map_entry {
                let mut k: usize = 0;
                let mut found = false;
                while k < data.len() && !found
                    invariant
                        k <= data@.len(),
                        i < idx.messages@.len(),
                        index_matches(*proto, idx),
                        crate::index::message_matches(*proto, i as int, idx.messages@[i as int]),
                        found ==> exists|q: int| 0 <= q < data@.len() && data@[q].full_name@ == idx.messages@[i as int].full_name@,
                        !found ==> forall|q: int| 0 <= q < k ==> (#[trigger] data@[q]).full_name@ != idx.messages@[i as int].full_name@,
                    decreases data@.len() - k + if found { 0int } else { 1int },
                {
                    if data[k].full_name == idx.messages[i].full_name {
                        found = true;
                    } else {
                        k = k + 1;
                    }
                }
                if !found {
                    assert(idx.messages@.len() == flat_messages(*proto).len());
                    return Err(SchemaError::MissingGeneratedData { message: i });
                }
            }
            i = i + 1;
        }
        Ok(FileDescriptor { imp: Arc::new(idx), backing: Backing::Generated })
    }

    /// The name of the schema unit.
    pub fn name(&self) -> (r: &str)
        ensures
            r@ == self@.name@,
    {
        self.imp.name.as_str()
    }

    /// The package of the schema unit.
    pub fn package(&self) -> (r: &str)
        ensures
            r@ == self@.package@,
    {
        self.imp.package.as_str()
    }

    /// The message with the given fully qualified name.
    pub fn message_by_full_name(&self, name: &str) -> (r: Option<MessageDescriptor>)
        ensures
            match r {
                Some(d) => d.file == *self && d.index < self@.messages@.len()
                    && self@.messages@[d.index as int].full_name@ == name@
                    && forall|i: int| 0 <= i < d.index ==> (#[trigger] self@.messages@[i]).full_name@ != name@,
                None => forall|i: int| 0 <= i < self@.messages@.len() ==> (#[trigger] self@.messages@[i]).full_name@ != name@,
            },
    {
        let mut i: usize = 0;
        while i < self.imp.messages.len()
            invariant
                i <= self@.messages@.len(),
                forall|q: int| 0 <= q < i ==> (#[trigger] self@.messages@[q]).full_name@ != name@,
            decreases self@.messages@.len() - i,
        {
            if str_is(self.imp.messages[i].full_name.as_str(), name) {
                return Some(MessageDescriptor { file: self.share(), index: i });
            }
            i = i + 1;
        }
        None
    }

    /// The message with the given name relative to the package.
    pub fn message_by_package_relative_name(&self, name: &str) -> (r: Option<MessageDescriptor>)
        ensures
            match r {
                Some(d) => d.file == *self && d.index < self@.messages@.len()
                    && self@.messages@[d.index as int].full_name@ == package_prefix(self@.package@) + name@
                    && forall|i: int| 0 <= i < d.index ==> (#[trigger] self@.messages@[i]).full_name@
                        != package_prefix(self@.package@) + name@,
                None => forall|i: int| 0 <= i < self@.messages@.len() ==> (#[trigger] self@.messages@[i]).full_name@
                    != package_prefix(self@.package@) + name@,
            },
    {
        proof {
            reveal_strlit(".");
        }
        let full = if self.imp.package.as_str().unicode_len() == 0 {
            String::from_str(name)
        } else {
            self.imp.package.clone().concat(".").concat(name)
        };
        assert(full@ =~= package_prefix(self@.package@) + name@);
        self.message_by_full_name(full.as_str())
    }

    /// The messages declared at the top level of the schema unit, in order.
    pub fn messages(&self) -> (r: Vec<MessageDescriptor>)
        ensures
            forall|k: int| 0 <= k < r@.len() ==> (#[trigger] r@[k]).file == *self && r@[k].index < self@.messages@.len()
                && self@.messages@[r@[k].index as int].parent is None,
            forall|k1: int, k2: int| 0 <= k1 < k2 < r@.len() ==> (#[trigger] r@[k1]).index < (#[trigger] r@[k2]).index,
            forall|i: int|
                0 <= i < self@.messages@.len() && (#[trigger] self@.messages@[i]).parent is None
                    ==> exists|k: int| 0 <= k < r@.len() && r@[k].index == i,
    {
        let mut r: Vec<MessageDescriptor> = Vec::new();
        let mut i: usize = 0;
        while i < self.imp.messages.len()
            invariant
                i <= self@.messages@.len(),
                forall|k: int| 0 <= k < r@.len() ==> (#[trigger] r@[k]).file == *self && r@[k].index < i
                    && self@.messages@[r@[k].index as int].parent is None,
                forall|k1: int, k2: int| 0 <= k1 < k2 < r@.len() ==> (#[trigger] r@[k1]).index < (#[trigger] r@[k2]).index,
                forall|q: int|
                    0 <= q < i && (#[trigger] self@.messages@[q]).parent is None
                        ==> exists|k: int| 0 <= k < r@.len() && r@[k].index == q,
            decreases self@.messages@.len() - i,
        {
            let ghost before = r@;
            if self.imp.messages[i].parent.is_none() {
                r.push(MessageDescriptor { file: self.share(), index: i });
            }
            proof {
                assert forall|q: int|
                    0 <= q < i + 1 && (#[trigger] self@.messages@[q]).parent is None implies exists|k: int|
                    0 <= k < r@.len() && r@[k].index == q by {
                    if q == i {
                        assert(r@[r@.len() - 1].index == q);
                    } else {
                        let k = choose|k: int| 0 <= k < before.len() && before[k].index == q;
                        assert(r@[k] == before[k]);
                    }
                }
            }
            i = i + 1;
        }
        r
    }
}

impl MessageDescriptor {
    /// The message's name as declared.
    pub fn name(&self) -> (r: &str)
        requires
            self.wf(),
        ensures
            r@ == self.spec_entry().name@,
    {
        self.file.imp.messages[self.index].name.as_str()
    }

    /// The fully qualified name of the message.
    pub fn full_name(&self) -> (r: &str)
        requires
            self.wf(),
        ensures
            r@ == self.spec_entry().full_name@,
    {
        self.file.imp.messages[self.index].full_name.as_str()
    }

    /// The schema unit this message is declared in.
    pub fn file_descriptor(&self) -> (r: &FileDescriptor)
        ensures
            *r == self.file,
    {
        &self.file
    }

    /// The message's position in the depth-first order of its file.
    pub fn get_index_in_file_for_codegen(&self) -> (r: usize)
        ensures
            r == self.index,
    {
        self.index
    }

    /// Whether this is a map-entry message: one with singular `key = 1`
    /// and `value = 2` fields only.
    pub fn is_map_entry(&self) -> (r: bool)
        requires
            self.wf(),
        ensures
            r == self.spec_entry().map_entry,
            r ==> crate::index::entry_fields_shape(self.spec_entry().fields@),
    {
        assert(index_wf(self.file@));
        self.file.imp.messages[self.index].map_entry
    }

    /// The fields, in declaration order.
    pub fn fields(&self) -> (r: Vec<FieldDescriptor>)
        requires
            self.wf(),
        ensures
            r@.len() == self.spec_entry().fields@.len(),
            forall|j: int| 0 <= j < r@.len() ==> #[trigger] r@[j] == (FieldDescriptor { message: *self, index: j as usize }),
    {
        let n = self.file.imp.messages[self.index].fields.len();
        let mut r: Vec<FieldDescriptor> = Vec::new();
        let mut j: usize = 0;
        while j < n
            invariant
                n == self.spec_entry().fields@.len(),
                j <= n,
                r@.len() == j,
                forall|q: int| 0 <= q < j ==> #[trigger] r@[q] == (FieldDescriptor { message: *self, index: q as usize }),
            decreases n - j,
        {
            r.push(FieldDescriptor { message: self.share(), index: j });
            j = j + 1;
        }
        r
    }

    /// The oneofs, in declaration order.
    pub fn oneofs(&self) -> (r: Vec<OneofDescriptor>)
        requires
            self.wf(),
        ensures
            r@.len() == self.spec_entry().oneofs@.len(),
            forall|j: int| 0 <= j < r@.len() ==> #[trigger] r@[j] == (OneofDescriptor { message: *self, index: j as usize }),
    {
        let n = self.file.imp.messages[self.index].oneofs.len();
        let mut r: Vec<OneofDescriptor> = Vec::new();
        let mut j: usize = 0;
        while j < n
            invariant
                n == self.spec_entry().oneofs@.len(),
                j <= n,
                r@.len() == j,
                forall|q: int| 0 <= q < j ==> #[trigger] r@[q] == (OneofDescriptor { message: *self, index: q as usize }),
            decreases n - j,
        {
            r.push(OneofDescriptor { message: self.share(), index: j });
            j = j + 1;
        }
        r
    }

    /// The messages declared directly inside this one.
    pub fn get_nested_messages(&self) -> (r: Vec<MessageDescriptor>)
        requires
            self.wf(),
        ensures
            r@.len() == self.spec_entry().nested_messages@.len(),
            forall|j: int| 0 <= j < r@.len() ==> #[trigger] r@[j] == (MessageDescriptor {
                file: self.file,
                index: self.spec_entry().nested_messages@[j],
            }),
    {
        let nested = &self.file.imp.messages[self.index].nested_messages;
        let mut r: Vec<MessageDescriptor> = Vec::new();
        let mut j: usize = 0;
        while j < nested.len()
            invariant
                *nested == self.spec_entry().nested_messages,
                j <= nested@.len(),
                r@.len() == j,
                forall|q: int| 0 <= q < j ==> #[trigger] r@[q] == (MessageDescriptor {
                    file: self.file,
                    index: nested@[q],
                }),
            decreases nested@.len() - j,
        {
            r.push(MessageDescriptor { file: self.file.share(), index: nested[j] });
            j = j + 1;
        }
        r
    }

    /// The enums declared directly inside this message.
    pub fn get_enums(&self) -> (r: Vec<EnumDescriptor>)
        requires
            self.wf(),
        ensures
            r@.len() == self.spec_entry().enum_count,
            forall|j: int| 0 <= j < r@.len() ==> #[trigger] r@[j] == (EnumDescriptor {
                file: self.file,
                index: (self.spec_entry().first_enum + j) as usize,
            }),
    {
        assert(index_wf(self.file@));
        assert(self.spec_entry().first_enum + self.spec_entry().enum_count <= self.file@.enums@.len());
        let total = self.file.imp.enums.len();
        let first = self.file.imp.messages[self.index].first_enum;
        let count = self.file.imp.messages[self.index].enum_count;
        let mut r: Vec<EnumDescriptor> = Vec::new();
        let mut j: usize = 0;
        while j < count
            invariant
                first == self.spec_entry().first_enum,
                count == self.spec_entry().enum_count,
                first + count <= total,
                j <= count,
                r@.len() == j,
                forall|q: int| 0 <= q < j ==> #[trigger] r@[q] == (EnumDescriptor {
                    file: self.file,
                    index: (first + q) as usize,
                }),
            decreases count - j,
        {
            r.push(EnumDescriptor { file: self.file.share(), index: first + j });
            j = j + 1;
        }
        r
    }

    /// The field with the given number.
    pub fn get_field_by_number(&self, number: u32) -> (r: Option<FieldDescriptor>)
        requires
            self.wf(),
        ensures
            r == field_at_pos(*self, pos_by_number(self.spec_entry().fields@, number, 0)),
    {
        let fields = &self.file.imp.messages[self.index].fields;
        let mut j: usize = 0;
        while j < fields.len()
            invariant
                *fields == self.spec_entry().fields,
                j <= fields@.len(),
                pos_by_number(fields@, number, 0) == pos_by_number(fields@, number, j as int),
            decreases fields@.len() - j,
        {
            if fields[j].number == number {
                return Some(FieldDescriptor { message: self.share(), index: j });
            }
            j = j + 1;
        }
        None
    }

    /// The field with the given name.
    pub fn get_field_by_name(&self, name: &str) -> (r: Option<FieldDescriptor>)
        requires
            self.wf(),
        ensures
            r == field_at_pos(*self, pos_by_name(self.spec_entry().fields@, name@, 0)),
    {
        let fields = &self.file.imp.messages[self.index].fields;
        let mut j: usize = 0;
        while j < fields.len()
            invariant
                *fields == self.spec_entry().fields,
                j <= fields@.len(),
                pos_by_name(fields@, name@, 0) == pos_by_name(fields@, name@, j as int),
            decreases fields@.len() - j,
        {
            if str_is(fields[j].name.as_str(), name) {
                return Some(FieldDescriptor { message: self.share(), index: j });
            }
            j = j + 1;
        }
        None
    }

    /// The field with the given JSON name.
    pub fn get_field_by_json_name(&self, name: &str) -> (r: Option<FieldDescriptor>)
        requires
            self.wf(),
        ensures
            r == field_at_pos(*self, pos_by_json_name(self.spec_entry().fields@, name@, 0)),
    {
        let fields = &self.file.imp.messages[self.index].fields;
        let mut j: usize = 0;
        while j < fields.len()
            invariant
                *fields == self.spec_entry().fields,
                j <= fields@.len(),
                pos_by_json_name(fields@, name@, 0) == pos_by_json_name(fields@, name@, j as int),
            decreases fields@.len() - j,
        {
            if str_is(fields[j].json_name.as_str(), name) {
                return Some(FieldDescriptor { message: self.share(), index: j });
            }
            j = j + 1;
        }
        None
    }

    /// The field with the given name or, failing that, JSON name.
    pub fn get_field_by_name_or_json_name(&self, name: &str) -> (r: Option<FieldDescriptor>)
        requires
            self.wf(),
        ensures
            r == field_at_pos(*self, pos_by_name_or_json_name(self.spec_entry().fields@, name@)),
    {
        match self.get_field_by_name(name) {
            Some(f) => Some(f),
            None => self.get_field_by_json_name(name),
        }
    }
}


pub open spec fn runtime_field_type_of(f: FieldIndex, file: FileDescriptor) -> RuntimeFieldType {
    match f.kind {
        FieldKind::Singular => RuntimeFieldType::Singular(runtime_type_of(f.elem, file)),
        FieldKind::Repeated => RuntimeFieldType::Repeated(runtime_type_of(f.elem, file)),
        FieldKind::Mapped(k, v) => RuntimeFieldType::Mapped(
            runtime_type_of(k, file),
            runtime_type_of(v, file),
        ),
    }
}

impl FieldDescriptor {
    /// The field's name.
    pub fn name(&self) -> (r: &str)
        requires
            self.wf(),
        ensures
            r@ == self.spec_entry().name@,
    {
        self.message.file.imp.messages[self.message.index].fields[self.index].name.as_str()
    }

    /// The field's JSON name.
    pub fn json_name(&self) -> (r: &str)
        requires
            self.wf(),
        ensures
            r@ == self.spec_entry().json_name@,
    {
        self.message.file.imp.messages[self.message.index].fields[self.index].json_name.as_str()
    }

    /// The field's number.
    pub fn number(&self) -> (r: u32)
        requires
            self.wf(),
        ensures
            r == self.spec_entry().number,
    {
        self.message.file.imp.messages[self.message.index].fields[self.index].number
    }

    /// Whether the field is declared `repeated` (maps included).
    pub fn is_repeated(&self) -> (r: bool)
        requires
            self.wf(),
        ensures
            r == (self.spec_entry().label == Label::Repeated),
    {
        self.message.file.imp.messages[self.message.index].fields[self.index].label
            == Label::Repeated
    }

    /// Whether the field is a map.
    pub fn is_map(&self) -> (r: bool)
        requires
            self.wf(),
        ensures
            r == self.spec_entry().kind is Mapped,
    {
        match self.message.file.imp.messages[self.message.index].fields[self.index].kind {
            FieldKind::Mapped(_, _) => true,
            _ => false,
        }
    }

    /// The oneof the field belongs to.
    pub fn containing_oneof(&self) -> (r: Option<OneofDescriptor>)
        requires
            self.wf(),
        ensures
            match self.spec_entry().oneof {
                Some(o) => r == Some(OneofDescriptor { message: self.message, index: o }),
                None => r is None,
            },
    {
        match self.message.file.imp.messages[self.message.index].fields[self.index].oneof {
            Some(o) => Some(OneofDescriptor { message: self.message.share(), index: o }),
            None => None,
        }
    }

    /// The field's shape and element types.
    pub fn runtime_field_type(&self) -> (r: RuntimeFieldType)
        requires
            self.wf(),
        ensures
            r == runtime_field_type_of(self.spec_entry(), self.message.file),
    {
        let f = &self.message.file.imp.messages[self.message.index].fields[self.index];
        let file = &self.message.file;
        match f.kind {
            FieldKind::Singular => RuntimeFieldType::Singular(runtime_type(f.elem, file)),
            FieldKind::Repeated => RuntimeFieldType::Repeated(runtime_type(f.elem, file)),
            FieldKind::Mapped(k, v) => RuntimeFieldType::Mapped(
                runtime_type(k, file),
                runtime_type(v, file),
            ),
        }
    }
}

/// Field `f` belongs to oneof `o`.
pub open spec fn in_oneof(f: FieldIndex, o: usize) -> bool {
    f.oneof == Some(o)
}

proof fn lemma_members(
    r: Seq<FieldDescriptor>,
    idxs: Seq<usize>,
    fields: Seq<FieldIndex>,
    m: MessageDescriptor,
    o: usize,
)
    requires
        r.len() == idxs.len(),
        forall|q: int| 0 <= q < r.len() ==> (#[trigger] r[q]).message == m && r[q].index == idxs[q],
        forall|k: int| 0 <= k < idxs.len() ==> #[trigger] idxs[k] < fields.len() && fields[idxs[k] as int].oneof == Some(o),
        forall|k1: int, k2: int| 0 <= k1 < k2 < idxs.len() ==> #[trigger] idxs[k1] < #[trigger] idxs[k2],
        forall|q: int| 0 <= q < fields.len() && #[trigger] in_oneof(fields[q], o) ==> exists|k: int| 0 <= k < idxs.len() && idxs[k] == q,
    ensures
        forall|k: int| 0 <= k < r.len() ==> (#[trigger] r[k]).message == m && r[k].index < fields.len()
            && fields[r[k].index as int].oneof == Some(o),
        forall|q: int| 0 <= q < fields.len() && #[trigger] in_oneof(fields[q], o) ==> exists|k: int|
            0 <= k < r.len() && r[k].index == q,
        forall|k1: int, k2: int| 0 <= k1 < k2 < r.len() ==> (#[trigger] r[k1]).index < (#[trigger] r[k2]).index,
{
    assert forall|q: int| 0 <= q < fields.len() && #[trigger] in_oneof(fields[q], o) implies exists|k: int|
        0 <= k < r.len() && r[k].index == q by {
        let k = choose|k: int| 0 <= k < idxs.len() && idxs[k] == q;
        assert(r[k].index == idxs[k]);
    }
    assert forall|k1: int, k2: int| 0 <= k1 < k2 < r.len() implies (#[trigger] r[k1]).index < (#[trigger] r[k2]).index by {
        assert(r[k1].index == idxs[k1] && r[k2].index == idxs[k2]);
    }
}

impl OneofDescriptor {
    pub open spec fn wf(&self) -> bool {
        self.message.wf() && self.index < self.message.spec_entry().oneofs@.len()
    }

    /// The oneof's name.
    pub fn name(&self) -> (r: &str)
        requires
            self.wf(),
        ensures
            r@ == self.message.spec_entry().oneofs@[self.index as int]@,
    {
        self.message.file.imp.messages[self.message.index].oneofs[self.index].as_str()
    }

    /// The fields of this oneof, in declaration order.
    pub fn fields(&self) -> (r: Vec<FieldDescriptor>)
        requires
            self.wf(),
        ensures
            forall|k: int|
                0 <= k < r@.len() ==> (#[trigger] r@[k]).message == self.message && r@[k].index
                    < self.message.spec_entry().fields@.len()
                    && self.message.spec_entry().fields@[r@[k].index as int].oneof == Some(self.index),
            forall|j: int|
                0 <= j < self.message.spec_entry().fields@.len()
                    && #[trigger] in_oneof(self.message.spec_entry().fields@[j], self.index)
                    ==> exists|k: int| 0 <= k < r@.len() && r@[k].index == j,
            forall|k1: int, k2: int| 0 <= k1 < k2 < r@.len() ==> (#[trigger] r@[k1]).index < (#[trigger] r@[k2]).index,
    {
        let fields = &self.message.file.imp.messages[self.message.index].fields;
        let mut idxs: Vec<usize> = Vec::new();
        let mut j: usize = 0;
        while j < fields.len()
            invariant
                *fields == self.message.spec_entry().fields,
                j <= fields@.len(),
                forall|k: int| 0 <= k < idxs@.len() ==> #[trigger] idxs@[k] < j && fields@[idxs@[k] as int].oneof == Some(self.index),
                forall|k1: int, k2: int| 0 <= k1 < k2 < idxs@.len() ==> #[trigger] idxs@[k1] < #[trigger] idxs@[k2],
                forall|q: int| 0 <= q < j && #[trigger] in_oneof(fields@[q], self.index) ==> exists|k: int| 0 <= k < idxs@.len() && idxs@[k] == q,
            decreases fields@.len() - j,
        {
            let is_member = match fields[j].oneof {
                Some(o) => o == self.index,
                None => false,
            };
            let ghost before = idxs@;
            if is_member {
                idxs.push(j);
                assert(idxs@[idxs@.len() - 1] == j);
            }
            proof {
                assert forall|q: int| 0 <= q < j + 1 && #[trigger] in_oneof(fields@[q], self.index) implies exists|k: int|
                    0 <= k < idxs@.len() && idxs@[k] == q by {
                    if q < j {
                        let k = choose|k: int| 0 <= k < before.len() && before[k] == q;
                        assert(idxs@[k] == before[k]);
                    } else {
                        assert(idxs@[idxs@.len() - 1] == q);
                    }
                }
                assert forall|k1: int, k2: int| 0 <= k1 < k2 < idxs@.len() implies #[trigger] idxs@[k1] < #[trigger] idxs@[k2] by {
                    assert(idxs@[k1] == before[k1]);
                    if k2 < before.len() {
                        assert(idxs@[k2] == before[k2]);
                    }
                }
            }
            j = j + 1;
        }
        let mut r: Vec<FieldDescriptor> = Vec::new();
        let mut k: usize = 0;
        while k < idxs.len()
            invariant
                k <= idxs@.len(),
                r@.len() == k,
                forall|q: int| 0 <= q < k ==> (#[trigger] r@[q]).message == self.message && r@[q].index == idxs@[q],
            decreases idxs@.len() - k,
        {
            r.push(FieldDescriptor { message: self.message.share(), index: idxs[k] });
            k = k + 1;
        }
        proof {
            lemma_members(r@, idxs@, fields@, self.message, self.index);
        }
        r
    }
}

impl EnumDescriptor {
    /// The enum's name as declared.
    pub fn name(&self) -> (r: &str)
        requires
            self.wf(),
        ensures
            r@ == self.file@.enums@[self.index as int].name@,
    {
        self.file.imp.enums[self.index].name.as_str()
    }

    /// The fully qualified name of the enum.
    pub fn full_name(&self) -> (r: &str)
        requires
            self.wf(),
        ensures
            r@ == self.file@.enums@[self.index as int].full_name@,
    {
        self.file.imp.enums[self.index].full_name.as_str()
    }

    /// The number of the first value with the given name.
    pub fn get_value_by_name(&self, name: &str) -> (r: Option<i32>)
        requires
            self.wf(),
        ensures
            match r {
                Some(n) => exists|k: int|
                    0 <= k < self.file@.enums@[self.index as int].values@.len()
                        && (#[trigger] self.file@.enums@[self.index as int].values@[k]).name@ == name@
                        && self.file@.enums@[self.index as int].values@[k].number == n
                        && forall|q: int| 0 <= q < k ==> (#[trigger] self.file@.enums@[self.index as int].values@[q]).name@ != name@,
                None => forall|k: int|
                    0 <= k < self.file@.enums@[self.index as int].values@.len()
                        ==> (#[trigger] self.file@.enums@[self.index as int].values@[k]).name@ != name@,
            },
    {
        let values = &self.file.imp.enums[self.index].values;
        let mut k: usize = 0;
        while k < values.len()
            invariant
                *values == self.file@.enums@[self.index as int].values,
                k <= values@.len(),
                forall|q: int| 0 <= q < k ==> (#[trigger] values@[q]).name@ != name@,
            decreases values@.len() - k,
        {
            if str_is(values[k].name.as_str(), name) {
                assert(values@[k as int].name@ == name@);
                return Some(values[k].number);
            }
            k = k + 1;
        }
        None
    }

    /// The name of the first value with the given number.
    pub fn get_value_by_number(&self, number: i32) -> (r: Option<&str>)
        requires
            self.wf(),
        ensures
            match r {
                Some(s) => exists|k: int|
                    0 <= k < self.file@.enums@[self.index as int].values@.len()
                        && (#[trigger] self.file@.enums@[self.index as int].values@[k]).number == number
                        && self.file@.enums@[self.index as int].values@[k].name@ == s@
                        && forall|q: int| 0 <= q < k ==> (#[trigger] self.file@.enums@[self.index as int].values@[q]).number != number,
                None => forall|k: int|
                    0 <= k < self.file@.enums@[self.index as int].values@.len()
                        ==> (#[trigger] self.file@.enums@[self.index as int].values@[k]).number != number,
            },
    {
        let values = &self.file.imp.enums[self.index].values;
        let mut k: usize = 0;
        while k < values.len()
            invariant
                *values == self.file@.enums@[self.index as int].values,
                k <= values@.len(),
                forall|q: int| 0 <= q < k ==> (#[trigger] values@[q]).number != number,
            decreases values@.len() - k,
        {
            if values[k].number == number {
                return Some(values[k].name.as_str());
            }
            k = k + 1;
        }
        None
    }
}

} // verus!
