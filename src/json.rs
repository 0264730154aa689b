//! The tree that the parser builds: tagged and untagged nodes over four value
//! kinds, each carrying the span where it was read, and the resolution of a
//! path of property names and array indices against such a tree.

use vstd::prelude::*;
use crate::span::Span;

verus! {

/// A string value.
#[derive(Debug, Clone, PartialEq, Eq)]
pub struct StringValue {
    /// The span of the string, including the surrounding quotes.
    pub span: Span,
    /// The value of the string, does not include the quotes.
    pub value: String,
}

/// A literal value, such as a number, boolean, or null.
#[derive(Debug, Clone, PartialEq, Eq)]
pub struct Literal {
    /// The span of the literal.
    pub span: Span,
    /// The value of the literal.
    pub value: String,
}

/// A JSON object.
#[derive(Debug, PartialEq, Eq)]
pub struct Object {
    /// The span of the opening brace.
    pub span: Span,
    /// The child properties of the object.
    pub properties: Vec<Node>,
}

/// An array JSON value.
#[derive(Debug, PartialEq, Eq)]
pub struct Array {
    /// The span of the opening bracket.
    pub span: Span,
    /// The items in the array.
    pub items: Vec<Node>,
}

/// A JSON value.
#[derive(Debug, PartialEq, Eq)]
pub enum Value {
    /// A string.
    String(StringValue),
    /// A literal.
    Literal(Literal),
    /// An object.
    Object(Object),
    /// An array.
    Array(Array),
}

/// A JSON node: an optional tag and a value.
#[derive(Debug, PartialEq, Eq)]
pub struct Node {
    /// The node's tag, root nodes and array items do not have tags.
    pub tag: Option<StringValue>,
    /// The value of the node.
    pub value: Value,
}

/// A piece of text together with the span it was read from.
pub ghost struct SpannedText {
    pub span: Span,
    pub text: Seq<char>,
}

/// The mathematical form of a [`Value`].
pub ghost enum ValueModel {
    Str(SpannedText),
    Lit(SpannedText),
    Obj(Span, Seq<NodeModel>),
    Arr(Span, Seq<NodeModel>),
}

/// The mathematical form of a [`Node`].
pub ghost struct NodeModel {
    pub tag: Option<SpannedText>,
    pub value: ValueModel,
}

pub open spec fn text_model(s: StringValue) -> SpannedText {
    SpannedText { span: s.span, text: s.value@ }
}

pub open spec fn node_model(n: Node) -> NodeModel
    decreases n,
{
    NodeModel {
        tag: match n.tag {
            Some(t) => Some(text_model(t)),
            None => None,
        },
        value: value_model(n.value),
    }
}

pub open spec fn value_model(v: Value) -> ValueModel
    decreases v,
{
    match v {
        Value::String(s) => ValueModel::Str(text_model(s)),
        Value::Literal(l) => ValueModel::Lit(SpannedText { span: l.span, text: l.value@ }),
        Value::Object(o) => ValueModel::Obj(o.span, nodes_model(o.properties@)),
        Value::Array(a) => ValueModel::Arr(a.span, nodes_model(a.items@)),
    }
}

pub open spec fn nodes_model(ns: Seq<Node>) -> Seq<NodeModel>
    decreases ns,
{
    if ns.len() == 0 {
        Seq::empty()
    } else {
        nodes_model(ns.drop_last()).push(node_model(ns.last()))
    }
}

impl View for Node {
    type V = NodeModel;

    open spec fn view(&self) -> NodeModel {
        node_model(*self)
    }
}

impl View for Value {
    type V = ValueModel;

    open spec fn view(&self) -> ValueModel {
        value_model(*self)
    }
}

} // verus!
