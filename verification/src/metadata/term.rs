//! Expanded fact terms and graph identity.

use crate::json::{JsonValue, JsonView};
use crate::node_address::{NodeUri, UriView};
use vstd::prelude::*;

verus! {

/// The graph containing a fact. Only [`GraphName::Default`] executes today.
#[derive(Debug, Clone, PartialEq, Eq)]
pub enum GraphName {
    /// The default graph.
    Default,
    /// A named graph, retained as a distinct logical identity.
    Named(NodeUri),
}

/// A graph name as plain values.
pub enum GraphNameView {
    Default,
    Named(UriView),
}

impl View for GraphName {
    type V = GraphNameView;

    open spec fn view(&self) -> GraphNameView {
        match self {
            GraphName::Default => GraphNameView::Default,
            GraphName::Named(u) => GraphNameView::Named(u@),
        }
    }
}

/// Data kept apart from a node reference.
///
/// This is a normalized storage term: a caller validates the value against its predicate
/// declaration before claiming it has validated semantics.
#[derive(Debug, PartialEq, Eq)]
pub struct TypedValue {
    value: JsonValue,
    datatype: Option<NodeUri>,
}

/// A typed value as plain values: the data, and its `@json` type declaration if any.
pub struct TypedValueView {
    pub value: JsonView,
    pub datatype: Option<UriView>,
}

impl View for TypedValue {
    type V = TypedValueView;

    closed spec fn view(&self) -> TypedValueView {
        TypedValueView {
            value: self.value@,
            datatype: match self.datatype {
                Some(u) => Some(u@),
                None => None,
            },
        }
    }
}

impl TypedValue {
    /// A data value without an explicit `@json` type.
    pub fn new(value: JsonValue) -> (r: TypedValue)
        ensures
            r@.value == value@,
            r@.datatype is None,
    {
        TypedValue { value, datatype: None }
    }

    /// A single structured `@json` object with its expanded type declaration. The
    /// declaration's closed data shape is not checked here.
    pub fn json(value: JsonValue, datatype: NodeUri) -> (r: TypedValue)
        ensures
            r@.value == value@,
            r@.datatype == Some(datatype@),
    {
        TypedValue { value, datatype: Some(datatype) }
    }

    /// The closed data tree. A URI-looking string in this tree remains data.
    pub fn value(&self) -> (r: &JsonValue)
        ensures
            r@ == self@.value,
    {
        &self.value
    }

    /// The expanded type declaration for an `@json` value, if present.
    pub fn datatype(&self) -> (r: Option<&NodeUri>)
        ensures
            match r {
                Some(u) => self@.datatype == Some(u@),
                None => self@.datatype is None,
            },
    {
        match &self.datatype {
            Some(u) => Some(u),
            None => None,
        }
    }
}

/// One object of an expanded fact.
#[derive(Debug, PartialEq, Eq)]
pub enum ObjectTerm {
    /// Data, including literal strings that resemble node URIs.
    Value(TypedValue),
    /// A semantic link to another addressed IR node.
    NodeRef(NodeUri),
}

/// An object term as plain values.
pub enum ObjectTermView {
    Value(TypedValueView),
    NodeRef(UriView),
}

impl View for ObjectTerm {
    type V = ObjectTermView;

    open spec fn view(&self) -> ObjectTermView {
        match self {
            ObjectTerm::Value(v) => ObjectTermView::Value(v@),
            ObjectTerm::NodeRef(u) => ObjectTermView::NodeRef(u@),
        }
    }
}

impl ObjectTerm {
    /// A data object without `@json` coercion.
    pub fn value(value: JsonValue) -> (r: ObjectTerm)
        ensures
            r@ == ObjectTermView::Value(TypedValueView { value: value@, datatype: None }),
    {
        ObjectTerm::Value(TypedValue::new(value))
    }

    /// One typed `@json` data object.
    pub fn typed_json(value: JsonValue, datatype: NodeUri) -> (r: ObjectTerm)
        ensures
            r@ == ObjectTermView::Value(TypedValueView { value: value@, datatype: Some(datatype@) }),
    {
        ObjectTerm::Value(TypedValue::json(value, datatype))
    }
}

/// One expanded subject-predicate-object-graph value.
///
/// A graph query returns a fact once even if several documents or carriers asserted it;
/// ownership belongs to the assertion key.
#[derive(Debug, PartialEq, Eq)]
pub struct Fact {
    subject: NodeUri,
    predicate: NodeUri,
    object: ObjectTerm,
    graph: GraphName,
}

/// A fact as plain values.
pub struct FactView {
    pub subject: UriView,
    pub predicate: UriView,
    pub object: ObjectTermView,
    pub graph: GraphNameView,
}

impl View for Fact {
    type V = FactView;

    closed spec fn view(&self) -> FactView {
        FactView {
            subject: self.subject@,
            predicate: self.predicate@,
            object: self.object@,
            graph: self.graph@,
        }
    }
}

impl Fact {
    /// A fact from expanded semantic identities.
    pub fn new(subject: NodeUri, predicate: NodeUri, object: ObjectTerm, graph: GraphName) -> (r: Fact)
        ensures
            r@ == (FactView { subject: subject@, predicate: predicate@, object: object@, graph: graph@ }),
    {
        Fact { subject, predicate, object, graph }
    }

    /// The addressed subject node.
    pub fn subject(&self) -> (r: &NodeUri)
        ensures
            r@ == self@.subject,
    {
        &self.subject
    }

    /// The expanded predicate declaration address.
    pub fn predicate(&self) -> (r: &NodeUri)
        ensures
            r@ == self@.predicate,
    {
        &self.predicate
    }

    /// The typed data or node-reference object.
    pub fn object(&self) -> (r: &ObjectTerm)
        ensures
            r@ == self@.object,
    {
        &self.object
    }

    /// The logical graph identity.
    pub fn graph(&self) -> (r: &GraphName)
        ensures
            r@ == self@.graph,
    {
        &self.graph
    }
}

} // verus!
