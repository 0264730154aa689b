//! Walking a path of property names and array indices down a parsed tree.

use vstd::prelude::*;
use crate::span::Span;
use crate::json::{Node, Value};
use crate::text::same_text;

verus! {

/// An index into a JSON structure.
pub enum Index<'a> {
    /// Index an object by tag.
    Tag(&'a str),
    /// Index an array by index.
    Index(usize),
}

/// One step of a path into a document.
#[derive(Debug, Clone, PartialEq, Eq)]
pub enum PathSegment {
    /// A member of an object, by its tag.
    Property(String),
    /// An item of an array, by its position.
    Index(usize),
}

/// Whether `n` is tagged `name`.
pub open spec fn has_tag(n: Node, name: Seq<char>) -> bool {
    n.tag matches Some(t) && t.value@ == name
}

/// The first of `ns` tagged `name`.
pub open spec fn first_tagged(ns: Seq<Node>, name: Seq<char>) -> Option<Node>
    decreases ns.len(),
{
    if ns.len() == 0 {
        None
    } else if has_tag(ns[0], name) {
        Some(ns[0])
    } else {
        first_tagged(ns.skip(1), name)
    }
}

/// The member of an object tagged `name`.
pub open spec fn member(v: Value, name: Seq<char>) -> Option<Node> {
    match v {
        Value::Object(o) => first_tagged(o.properties@, name),
        _ => None,
    }
}

/// The item of an array at `i`.
pub open spec fn item(v: Value, i: int) -> Option<Node> {
    match v {
        Value::Array(a) => if 0 <= i < a.items@.len() {
            Some(a.items@[i])
        } else {
            None
        },
        _ => None,
    }
}

/// The child of `v` that `index` selects: a tag only selects in an object, a
/// position only in an array.
pub open spec fn child(v: Value, index: Index) -> Option<Node> {
    match index {
        Index::Tag(t) => member(v, t@),
        Index::Index(i) => item(v, i as int),
    }
}

/// The child of `v` that `segment` selects.
pub open spec fn segment_child(v: Value, segment: PathSegment) -> Option<Node> {
    match segment {
        PathSegment::Property(t) => member(v, t@),
        PathSegment::Index(i) => item(v, i as int),
    }
}

/// The node reached from `n` by following `path`, if every step matches.
pub open spec fn resolved(n: Node, path: Seq<PathSegment>) -> Option<Node>
    decreases path.len(),
{
    if path.len() == 0 {
        Some(n)
    } else {
        match segment_child(n.value, path[0]) {
            Some(c) => resolved(c, path.skip(1)),
            None => None,
        }
    }
}

/// The span of a value: for an object or array, that of its opening bracket.
pub open spec fn value_span(v: Value) -> Span {
    match v {
        Value::String(s) => s.span,
        Value::Literal(l) => l.span,
        Value::Object(o) => o.span,
        Value::Array(a) => a.span,
    }
}

/// The span a diagnostic about `n` underlines: the tag of an object or array
/// member rather than its body, otherwise the value itself.
pub open spec fn highlight_span(n: Node) -> Span {
    match n.value {
        Value::Object(_) | Value::Array(_) => match n.tag {
            Some(t) => t.span,
            None => value_span(n.value),
        },
        _ => value_span(n.value),
    }
}

fn find_tagged<'b>(ns: &'b Vec<Node>, name: &str) -> (r: Option<&'b Node>)
    ensures
        match r {
            Some(n) => first_tagged(ns@, name@) == Some(*n),
            None => first_tagged(ns@, name@) is None,
        },
{
    let mut i: usize = 0;
    assert(ns@.skip(0) =~= ns@);
    while i < ns.len()
        invariant
            i <= ns@.len(),
            first_tagged(ns@.skip(i as int), name@) == first_tagged(ns@, name@),
        decreases ns@.len() - i,
    {
        assert(ns@.skip(i as int)[0] == ns@[i as int]);
        let found = match &ns[i].tag {
            Some(tag) => same_text(tag.value.as_str(), name),
            None => false,
        };
        if found {
            return Some(&ns[i]);
        }
        assert(ns@.skip(i as int).skip(1) =~= ns@.skip(i + 1));
        i = i + 1;
    }
    None
}

impl Value {
    /// Index a value.
    pub fn get<'a, 'b>(&'b self, index: Index<'a>) -> (r: Option<&'b Node>)
        ensures
            match r {
                Some(n) => child(*self, index) == Some(*n),
                None => child(*self, index) is None,
            },
    {
        match self {
            Value::Object(object) => match index {
                Index::Tag(tag) => find_tagged(&object.properties, tag),
                Index::Index(_) => None,
            },
            Value::Array(array) => match index {
                Index::Index(i) => if i < array.items.len() {
                    Some(&array.items[i])
                } else {
                    None
                },
                Index::Tag(_) => None,
            },
            _ => None,
        }
    }

    /// Get the span of the value.
    pub fn span(&self) -> (r: Span)
        ensures
            r == value_span(*self),
    {
        match self {
            Value::String(string_value) => string_value.span,
            Value::Literal(literal) => literal.span,
            Value::Object(object) => object.span,
            Value::Array(array) => array.span,
        }
    }
}

impl Node {
    /// Try index the node.
    pub fn get<'a, 'b>(&'b self, index: Index<'a>) -> (r: Option<&'b Node>)
        ensures
            match r {
                Some(n) => child(self.value, index) == Some(*n),
                None => child(self.value, index) is None,
            },
    {
        self.value.get(index)
    }

    /// Try evaluate a pointer to the node it is pointing at.
    pub fn evaluate<'b>(&'b self, pointer: &Vec<PathSegment>) -> (r: Option<&'b Node>)
        ensures
            match r {
                Some(n) => resolved(*self, pointer@) == Some(*n),
                None => resolved(*self, pointer@) is None,
            },
    {
        let mut current: &Node = self;
        let mut i: usize = 0;
        assert(pointer@.skip(0) =~= pointer@);
        while i < pointer.len()
            invariant
                i <= pointer@.len(),
                resolved(*current, pointer@.skip(i as int)) == resolved(*self, pointer@),
            decreases pointer@.len() - i,
        {
            let ghost rest = pointer@.skip(i as int);
            assert(rest[0] == pointer@[i as int]);
            assert(rest.skip(1) =~= pointer@.skip(i + 1));
            let next = match &pointer[i] {
                PathSegment::Property(tag) => current.get(Index::Tag(tag.as_str())),
                PathSegment::Index(index) => current.get(Index::Index(*index)),
            };
            match next {
                Some(n) => current = n,
                None => return None,
            }
            i = i + 1;
        }
        assert(pointer@.skip(i as int) =~= Seq::<PathSegment>::empty());
        Some(current)
    }

    /// The span a diagnostic about this node underlines.
    pub fn highlight(&self) -> (r: Span)
        ensures
            r == highlight_span(*self),
    {
        match &self.value {
            Value::Object(_) | Value::Array(_) => match &self.tag {
                Some(tag) => tag.span,
                None => self.value.span(),
            },
            _ => self.value.span(),
        }
    }
}

/// Resolving the empty path gives the node itself, and a first step that
/// selects nothing makes the whole path unresolvable.
pub proof fn lemma_resolve_empty_and_mismatch(n: Node, path: Seq<PathSegment>)
    ensures
        resolved(n, Seq::empty()) == Some(n),
        path.len() > 0 && segment_child(n.value, path[0]) is None ==> resolved(n, path) is None,
{
}

} // verus!
