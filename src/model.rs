//! The model of a parsed schema source: locations, syntax, rules, options
//! and imports.
use vstd::prelude::*;
use crate::index::push_char;

verus! {

/// A position in a schema source.
#[derive(Clone, Copy, Debug, PartialEq, Eq, Structural)]
pub struct Loc {
    pub line: u32,
    pub col: u32,
}

/// A value with the position it was read at.
pub struct WithLoc<T> {
    pub loc: Loc,
    pub t: T,
}

impl<T> WithLoc<T> {
    /// Attaches a position to a value.
    pub fn with_loc(loc: Loc, t: T) -> (r: WithLoc<T>)
        ensures
            r.loc == loc,
            r.t == t,
    {
        WithLoc { t, loc }
    }
}

/// The syntax a schema source declares.
#[derive(Clone, Copy, Debug, PartialEq, Eq, Structural)]
pub enum Syntax {
    Proto2,
    Proto3,
}

impl Default for Syntax {
    fn default() -> (r: Syntax)
        ensures
            r == Syntax::Proto2,
    {
        Syntax::Proto2
    }
}

/// A field rule.
#[derive(Clone, Copy, Debug, PartialEq, Eq, Hash, Structural)]
pub enum Rule {
    Optional,
    Repeated,
    Required,
}

/// A range of field numbers, both ends included.
#[derive(Clone, Copy, Debug, PartialEq, Eq, Structural)]
pub struct FieldNumberRange {
    pub from: i32,
    pub to: i32,
}

impl Default for FieldNumberRange {
    fn default() -> (r: FieldNumberRange)
        ensures
            r.from == 0 && r.to == 0,
    {
        FieldNumberRange { from: 0, to: 0 }
    }
}

/// One component of an option name: a plain identifier, or an extension
/// name written in parentheses.
#[derive(Debug)]
pub enum ProtobufOptionNameComponent {
    Direct(String),
    Ext(String),
}

/// An option name: components separated by dots.
#[derive(Debug)]
pub struct ProtobufOptionName {
    pub components: Vec<ProtobufOptionNameComponent>,
}

/// How one component is written.
pub open spec fn component_text(c: ProtobufOptionNameComponent) -> Seq<char> {
    match c {
        ProtobufOptionNameComponent::Direct(n) => n@,
        ProtobufOptionNameComponent::Ext(n) => seq!['('] + n@ + seq![')'],
    }
}

/// How the first `n` components are written, separated by dots.
pub open spec fn components_text(cs: Seq<ProtobufOptionNameComponent>, n: int) -> Seq<char>
    decreases n,
{
    if n <= 0 {
        seq![]
    } else if n == 1 {
        component_text(cs[0])
    } else {
        components_text(cs, n - 1) + seq!['.'] + component_text(cs[n - 1])
    }
}

fn push_str(s: &mut String, t: &str)
    ensures
        final(s)@ == old(s)@ + t@,
{
    s.append(t);
}

impl ProtobufOptionName {
    /// An option name of one plain identifier. The name is not empty and
    /// holds no dot and no parenthesis.
    pub fn simple(name: &str) -> (r: ProtobufOptionName)
        requires
            name@.len() > 0,
            !name@.contains('.'),
            !name@.contains('('),
        ensures
            r.components@.len() == 1,
            r.components@[0] matches ProtobufOptionNameComponent::Direct(n) && n@ == name@,
    {
        ProtobufOptionName {
            components: vec![ProtobufOptionNameComponent::Direct(String::from_str(name))],
        }
    }

    /// The identifier, when the name is one plain identifier.
    pub fn get_simple(&self) -> (r: Option<&String>)
        ensures
            match r {
                Some(n) => self.components@.len() == 1 && self.components@[0]
                    == ProtobufOptionNameComponent::Direct(*n),
                None => !(self.components@.len() == 1 && self.components@[0] is Direct),
            },
    {
        if self.components.len() == 1 {
            match &self.components[0] {
                ProtobufOptionNameComponent::Direct(n) => Some(n),
                ProtobufOptionNameComponent::Ext(_) => None,
            }
        } else {
            None
        }
    }

    /// The name as written: components separated by dots, extension names
    /// in parentheses.
    pub fn full_name(&self) -> (r: String)
        ensures
            r@ == components_text(self.components@, self.components@.len() as int),
    {
        let mut r = String::new();
        let mut i: usize = 0;
        while i < self.components.len()
            invariant
                i <= self.components@.len(),
                r@ == components_text(self.components@, i as int),
            decreases self.components@.len() - i,
        {
            if i != 0 {
                push_char(&mut r, '.');
            }
            match &self.components[i] {
                ProtobufOptionNameComponent::Direct(n) => {
                    push_str(&mut r, n.as_str());
                },
                ProtobufOptionNameComponent::Ext(n) => {
                    push_char(&mut r, '(');
                    push_str(&mut r, n.as_str());
                    push_char(&mut r, ')');
                },
            }
            proof {
                let cs = self.components@;
                if i == 0 {
                    assert(r@ =~= component_text(cs[0]));
                } else {
                    assert(r@ =~= components_text(cs, i as int) + seq!['.'] + component_text(cs[i as int]));
                }
            }
            i = i + 1;
        }
        r
    }
}

/// The visibility of an import.
#[derive(Clone, Copy, Debug, PartialEq, Eq, Structural)]
pub enum ImportVis {
    Default,
    Public,
    Weak,
}

impl Default for ImportVis {
    fn default() -> (r: ImportVis)
        ensures
            r == ImportVis::Default,
    {
        ImportVis::Default
    }
}

/// An import statement.
#[derive(Debug)]
pub struct Import {
    pub path: String,
    pub vis: ImportVis,
}

impl Default for Import {
    fn default() -> (r: Import)
        ensures
            r.path@.len() == 0,
            r.vis == ImportVis::Default,
    {
        Import { path: String::new(), vis: ImportVis::Default }
    }
}

} // verus!
