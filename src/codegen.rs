//! Names that code generation derives from schema file paths and type names.
use vstd::prelude::*;
use crate::index::push_char;
use crate::schema::str_is;

verus! {

/// A character that may start an identifier.
pub open spec fn ident_start_spec(c: char) -> bool {
    ('a' <= c && c <= 'z') || ('A' <= c && c <= 'Z') || c == '_'
}

/// A character that may continue an identifier.
pub open spec fn ident_continue_spec(c: char) -> bool {
    ('a' <= c && c <= 'z') || ('A' <= c && c <= 'Z') || ('0' <= c && c <= '9') || c == '_'
}

pub fn ident_start(c: char) -> (r: bool)
    ensures
        r == ident_start_spec(c),
{
    (c >= 'a' && c <= 'z') || (c >= 'A' && c <= 'Z') || c == '_'
}

pub fn ident_continue(c: char) -> (r: bool)
    ensures
        r == ident_continue_spec(c),
{
    (c >= 'a' && c <= 'z') || (c >= 'A' && c <= 'Z') || (c >= '0' && c <= '9') || c == '_'
}

/// Path separators: both slashes are accepted, whatever the platform.
pub open spec fn is_separator(c: char) -> bool {
    c == '/' || c == '\\'
}

/// The position just after the last separator among the first `i`
/// characters, or 0 when there is none.
pub open spec fn after_last_separator(s: Seq<char>, i: int) -> int
    decreases i,
{
    if i <= 0 {
        0
    } else if is_separator(s[i - 1]) {
        i
    } else {
        after_last_separator(s, i - 1)
    }
}

/// A path without its directories.
pub open spec fn file_name_of(s: Seq<char>) -> Seq<char> {
    s.subrange(after_last_separator(s, s.len() as int), s.len() as int)
}

/// `s` without the suffix `suf`, if it ends with it.
pub open spec fn without_suffix(s: Seq<char>, suf: Seq<char>) -> Seq<char> {
    if s.len() >= suf.len() && s.subrange(s.len() - suf.len(), s.len() as int) == suf {
        s.subrange(0, s.len() - suf.len())
    } else {
        s
    }
}

/// Every character that cannot stand at its place in an identifier is
/// replaced by an underscore.
pub open spec fn ident_chars(s: Seq<char>) -> Seq<char> {
    Seq::new(
        s.len(),
        |i: int|
            if (i == 0 && ident_start_spec(s[i])) || (i != 0 && ident_continue_spec(s[i])) {
                s[i]
            } else {
                '_'
            },
    )
}

/// The reserved words of the target language, which cannot name a module.
pub open spec fn rust_keywords() -> Seq<Seq<char>> {
    seq![
        "as"@, "break"@, "const"@, "continue"@, "crate"@, "else"@, "enum"@, "extern"@,
        "false"@, "fn"@, "for"@, "if"@, "impl"@, "in"@, "let"@, "loop"@, "match"@, "mod"@,
        "move"@, "mut"@, "pub"@, "ref"@, "return"@, "self"@, "Self"@, "static"@, "struct"@,
        "super"@, "trait"@, "true"@, "type"@, "unsafe"@, "use"@, "where"@, "while"@,
        "abstract"@, "alignof"@, "become"@, "box"@, "do"@, "final"@, "macro"@, "offsetof"@,
        "override"@, "priv"@, "proc"@, "pure"@, "sizeof"@, "typeof"@, "unsized"@, "virtual"@,
        "yield"@, "async"@, "await"@, "dyn"@, "try"@,
    ]
}

pub open spec fn is_rust_keyword_spec(s: Seq<char>) -> bool {
    rust_keywords().contains(s)
}

/// The module name generated for a schema file: the file name without
/// directories and without `.proto`, made an identifier, with `_pb`
/// appended to a reserved word.
pub open spec fn rust_mod_of(path: Seq<char>) -> Seq<char> {
    let name = ident_chars(without_suffix(file_name_of(path), ".proto"@));
    if is_rust_keyword_spec(name) {
        name + "_pb"@
    } else {
        name
    }
}

/// Whether a name is a reserved word.
pub fn is_rust_keyword(s: &str) -> (r: bool)
    ensures
        r == is_rust_keyword_spec(s@),
{
    let kws: Vec<&str> = vec![
        "as", "break", "const", "continue", "crate", "else", "enum", "extern",
        "false", "fn", "for", "if", "impl", "in", "let", "loop", "match", "mod",
        "move", "mut", "pub", "ref", "return", "self", "Self", "static", "struct",
        "super", "trait", "true", "type", "unsafe", "use", "where", "while",
        "abstract", "alignof", "become", "box", "do", "final", "macro", "offsetof",
        "override", "priv", "proc", "pure", "sizeof", "typeof", "unsized", "virtual",
        "yield", "async", "await", "dyn", "try",
    ];
    let ghost views = kws@.map_values(|k: &str| k@);
    assert(views =~= rust_keywords());
    let mut k: usize = 0;
    while k < kws.len()
        invariant
            k <= kws@.len(),
            views == kws@.map_values(|k: &str| k@),
            views == rust_keywords(),
            forall|q: int| 0 <= q < k ==> views[q] != s@,
        decreases kws@.len() - k,
    {
        if str_is(s, kws[k]) {
            assert(views[k as int] == s@);
            return true;
        }
        k = k + 1;
    }
    false
}

/// The module name generated for a schema file; see `rust_mod_of`.
pub fn proto_path_to_rust_mod(path: &str) -> (r: String)
    ensures
        r@ == rust_mod_of(path@),
{
    let n = path.unicode_len();
    // Find where the file name starts.
    let mut start: usize = n;
    while start > 0 && !(path.get_char(start - 1) == '/' || path.get_char(start - 1) == '\\')
        invariant
            n == path@.len(),
            start <= n,
            after_last_separator(path@, n as int) == after_last_separator(path@, start as int),
        decreases start,
    {
        start = start - 1;
    }
    // Drop the suffix.
    proof {
        reveal_strlit(".proto");
    }
    let suffix = ".proto";
    let sl: usize = suffix.unicode_len();
    let mut end: usize = n;
    if n - start >= sl {
        let mut k: usize = 0;
        let mut same = true;
        while k < sl
            invariant
                n == path@.len(),
                start <= n,
                n - start >= sl,
                sl == suffix@.len(),
                k <= sl,
                same == forall|q: int| 0 <= q < k ==> path@[n - sl + q] == suffix@[q],
            decreases sl - k,
        {
            if path.get_char(n - sl + k) != suffix.get_char(k) {
                same = false;
            }
            k = k + 1;
        }
        let ghost name = file_name_of(path@);
        assert(name =~= path@.subrange(start as int, n as int));
        assert(name.subrange(name.len() - sl, name.len() as int) =~= path@.subrange(n - sl, n as int));
        if same {
            assert(path@.subrange(n - sl, n as int) =~= suffix@);
            end = n - sl;
        } else {
            assert(path@.subrange(n - sl, n as int)[(n - (n - sl)) as int - sl as int] == path@[n - sl]);
            assert(exists|q: int| 0 <= q < sl && path@[n - sl + q] != suffix@[q]);
            assert(path@.subrange(n - sl, n as int) != suffix@) by {
                let q = choose|q: int| 0 <= q < sl && path@[n - sl + q] != suffix@[q];
                assert(path@.subrange(n - sl, n as int)[q] == path@[n - sl + q]);
            }
        }
    }
    let ghost stem = without_suffix(file_name_of(path@), ".proto"@);
    assert(stem =~= path@.subrange(start as int, end as int));
    // Make it an identifier.
    let mut r = String::new();
    let mut i: usize = start;
    while i < end
        invariant
            n == path@.len(),
            start <= i <= end <= n,
            stem =~= path@.subrange(start as int, end as int),
            r@ =~= ident_chars(stem).subrange(0, i - start),
        decreases end - i,
    {
        let c = path.get_char(i);
        let ok = if i == start {
            ident_start(c)
        } else {
            ident_continue(c)
        };
        if ok {
            push_char(&mut r, c);
        } else {
            push_char(&mut r, '_');
        }
        i = i + 1;
    }
    assert(r@ =~= ident_chars(stem));
    if is_rust_keyword(r.as_str()) {
        r.concat("_pb")
    } else {
        r
    }
}

/// The file name generated for a schema file: its module name and `.rs`.
pub fn proto_name_to_rs(proto_file_path: &str) -> (r: String)
    ensures
        r@ == rust_mod_of(proto_file_path@) + ".rs"@,
{
    proto_path_to_rust_mod(proto_file_path).concat(".rs")
}


/// The names of the well-known types, relative to their package.
pub open spec fn well_known_names() -> Seq<Seq<char>> {
    seq![
        "Any"@, "Api"@, "BoolValue"@, "BytesValue"@, "DoubleValue"@, "Duration"@, "Empty"@,
        "Enum"@, "EnumValue"@, "Field"@, "Field.Cardinality"@, "Field.Kind"@, "FieldMask"@,
        "FloatValue"@, "Int32Value"@, "Int64Value"@, "ListValue"@, "Method"@, "Mixin"@,
        "NullValue"@, "Option"@, "SourceContext"@, "StringValue"@, "Struct"@, "Syntax"@,
        "Timestamp"@, "Type"@, "UInt32Value"@, "UInt64Value"@, "Value"@,
    ]
}

/// The package of the well-known types, as an absolute path prefix.
pub open spec fn well_known_prefix() -> Seq<char> {
    ".google.protobuf."@
}

/// The name relative to the well-known package, when `name` is the absolute
/// name of a well-known type.
pub open spec fn well_known_full_spec(name: Seq<char>) -> Option<Seq<char>> {
    let p = well_known_prefix();
    if name.len() >= p.len() && name.subrange(0, p.len() as int) == p && well_known_names().contains(
        name.subrange(p.len() as int, name.len() as int),
    ) {
        Some(name.subrange(p.len() as int, name.len() as int))
    } else {
        None
    }
}

/// Whether a name, relative to the well-known package, is a well-known type.
pub fn is_well_known_type(name: &str) -> (r: bool)
    ensures
        r == well_known_names().contains(name@),
{
    let names: Vec<&str> = vec![
        "Any", "Api", "BoolValue", "BytesValue", "DoubleValue", "Duration", "Empty",
        "Enum", "EnumValue", "Field", "Field.Cardinality", "Field.Kind", "FieldMask",
        "FloatValue", "Int32Value", "Int64Value", "ListValue", "Method", "Mixin",
        "NullValue", "Option", "SourceContext", "StringValue", "Struct", "Syntax",
        "Timestamp", "Type", "UInt32Value", "UInt64Value", "Value",
    ];
    let ghost views = names@.map_values(|k: &str| k@);
    assert(views =~= well_known_names());
    let mut k: usize = 0;
    while k < names.len()
        invariant
            k <= names@.len(),
            views == names@.map_values(|k: &str| k@),
            views == well_known_names(),
            forall|q: int| 0 <= q < k ==> views[q] != name@,
        decreases names@.len() - k,
    {
        if str_is(name, names[k]) {
            assert(views[k as int] == name@);
            return true;
        }
        k = k + 1;
    }
    false
}

/// The name relative to the well-known package, when `name` is the
/// absolute name of a well-known type; see `well_known_full_spec`.
pub fn is_well_known_type_full(name: &str) -> (r: Option<String>)
    ensures
        match r {
            Some(s) => well_known_full_spec(name@) == Some(s@),
            None => well_known_full_spec(name@) is None,
        },
{
    let prefix = ".google.protobuf.";
    let n = name.unicode_len();
    let pl = prefix.unicode_len();
    if n < pl {
        return None;
    }
    let mut k: usize = 0;
    while k < pl
        invariant
            pl == prefix@.len(),
            prefix@ == well_known_prefix(),
            n == name@.len(),
            pl <= n,
            k <= pl,
            forall|q: int| 0 <= q < k ==> name@[q] == prefix@[q],
        decreases pl - k,
    {
        if name.get_char(k) != prefix.get_char(k) {
            assert(name@.subrange(0, pl as int)[k as int] != prefix@[k as int]);
            assert(name@.subrange(0, pl as int) != prefix@);
            assert(well_known_prefix() == prefix@);
            return None;
        }
        k = k + 1;
    }
    assert(name@.subrange(0, pl as int) =~= prefix@);
    let rest = name.substring_char(pl, n);
    if is_well_known_type(rest) {
        Some(String::from_str(rest))
    } else {
        None
    }
}

/// The name of a generated message type.
pub struct RustTypeMessage(pub String);

impl RustTypeMessage {
    /// Code that evaluates to the default instance of this message type,
    /// given the path of the runtime crate.
    pub fn default_instance(&self, protobuf_crate: &str) -> (r: String)
        ensures
            r@ == "<"@ + self.0@ + " as "@ + protobuf_crate@ + "::Message>::default_instance()"@,
    {
        let r = String::from_str("<").concat(self.0.as_str()).concat(" as ").concat(protobuf_crate).concat(
            "::Message>::default_instance()",
        );
        assert(r@ =~= "<"@ + self.0@ + " as "@ + protobuf_crate@ + "::Message>::default_instance()"@);
        r
    }
}

} // verus!
