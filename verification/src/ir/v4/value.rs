//! Value expressions, their definitions and specifications, holes, native operations and
//! inputs.

use crate::ir::v4::attributes::ValueAttributes;
use crate::ir::v4::literal::Literal;
use crate::ir::v4::pattern::Pattern;
use crate::ir::v4::types::{Incompleteness, Type};
use crate::naming::name::canonical_in;
use crate::naming::name::canonical_style;
use crate::naming::fqname::FQName;
use crate::naming::name::Name;
use vstd::prelude::*;

verus! {

/// Why a value is incomplete.
#[derive(Debug, Clone, PartialEq)]
pub enum HoleReason {
    /// A reference that could not be resolved.
    UnresolvedReference { target: FQName },
    /// A value removed by the refactoring with this transaction id.
    DeletedDuringRefactor { tx_id: String },
    /// Type checking failed.
    TypeMismatch { expected: String, found: String },
    /// Work in progress.
    Draft,
}

/// The category of a native operation.
#[derive(Debug, Clone, PartialEq)]
pub enum NativeHint {
    Arithmetic,
    Comparison,
    StringOp,
    CollectionOp,
    PlatformSpecific { platform: String },
}

/// What is known of a native operation.
#[derive(Debug, Clone, PartialEq)]
pub struct NativeInfo {
    pub hint: NativeHint,
    pub description: Option<String>,
}

impl NativeInfo {
    pub fn new(hint: NativeHint, description: Option<String>) -> (r: NativeInfo)
        ensures
            r == (NativeInfo { hint, description }),
    {
        NativeInfo { hint, description }
    }
}

/// An input parameter: its name, attributes and type.
#[derive(Debug, PartialEq)]
pub struct InputType(pub Name, pub ValueAttributes, pub Type);

impl InputType {
    pub fn new(name: Name, attrs: ValueAttributes, tpe: Type) -> (r: InputType)
        ensures
            r == InputType(name, attrs, tpe),
    {
        InputType(name, attrs, tpe)
    }

    pub fn name(&self) -> (r: &Name)
        ensures
            *r == self.0,
    {
        &self.0
    }

    pub fn attrs(&self) -> (r: &ValueAttributes)
        ensures
            *r == self.1,
    {
        &self.1
    }

    pub fn tpe(&self) -> (r: &Type)
        ensures
            *r == self.2,
    {
        &self.2
    }
}

/// An input type entry: its attributes, when written, and its type.
#[derive(Debug, PartialEq)]
pub struct InputTypeEntry {
    pub type_attributes: Option<ValueAttributes>,
    pub input_type: Type,
}

/// A value expression, each node with its attributes.
#[derive(Debug, PartialEq)]
pub enum Value {
    Literal(ValueAttributes, Literal),
    Constructor(ValueAttributes, FQName),
    Tuple(ValueAttributes, Vec<Value>),
    List(ValueAttributes, Vec<Value>),
    Record(ValueAttributes, Vec<RecordFieldEntry>),
    Variable(ValueAttributes, Name),
    Reference(ValueAttributes, FQName),
    Field(ValueAttributes, Box<Value>, Name),
    FieldFunction(ValueAttributes, Name),
    Apply(ValueAttributes, Box<Value>, Box<Value>),
    Lambda(ValueAttributes, Pattern, Box<Value>),
    LetDefinition(ValueAttributes, Name, Box<ValueDefinition>, Box<Value>),
    LetRecursion(ValueAttributes, Vec<LetBinding>, Box<Value>),
    Destructure(ValueAttributes, Pattern, Box<Value>, Box<Value>),
    IfThenElse(ValueAttributes, Box<Value>, Box<Value>, Box<Value>),
    PatternMatch(ValueAttributes, Box<Value>, Vec<PatternCase>),
    UpdateRecord(ValueAttributes, Box<Value>, Vec<RecordFieldEntry>),
    Unit(ValueAttributes),
    /// An incomplete value, why it is incomplete, and the type expected of it.
    Hole(ValueAttributes, HoleReason, Option<Box<Type>>),
    /// An operation the platform implements natively.
    Native(ValueAttributes, FQName, NativeInfo),
    /// An external call: its external name and target platform.
    External(ValueAttributes, String, String),
}

/// A record field: its name and value.
#[derive(Debug, PartialEq)]
pub struct RecordFieldEntry(pub Name, pub Value);

/// A pattern match case: its pattern and body.
#[derive(Debug, PartialEq)]
pub struct PatternCase(pub Pattern, pub Value);

/// A binding of a recursive let: its name and definition.
#[derive(Debug, PartialEq)]
pub struct LetBinding(pub Name, pub ValueDefinition);

/// The body of a value definition.
#[derive(Debug, PartialEq)]
pub enum ValueBody {
    Expression(Value),
    Native(NativeInfo),
    External { external_name: String, target_platform: String },
    Incomplete { incompleteness: Incompleteness, partial_body: Option<Value> },
}

/// A value's signature: its inputs by name, in order, and its output type.
#[derive(Debug, PartialEq)]
pub struct ValueSpecification {
    pub inputs: Vec<(String, Type)>,
    pub output: Type,
}

/// A value definition: its inputs by name, in order, its output type when known, and its
/// body.
#[derive(Debug, PartialEq)]
pub struct ValueDefinition {
    pub input_types: Vec<(String, InputTypeEntry)>,
    pub output_type: Option<Type>,
    pub body: ValueBody,
}

/// The attributes of a value node.
pub open spec fn value_attributes(v: Value) -> ValueAttributes {
    match v {
        Value::Literal(a, _) => a,
        Value::Constructor(a, _) => a,
        Value::Tuple(a, _) => a,
        Value::List(a, _) => a,
        Value::Record(a, _) => a,
        Value::Variable(a, _) => a,
        Value::Reference(a, _) => a,
        Value::Field(a, _, _) => a,
        Value::FieldFunction(a, _) => a,
        Value::Apply(a, _, _) => a,
        Value::Lambda(a, _, _) => a,
        Value::LetDefinition(a, _, _, _) => a,
        Value::LetRecursion(a, _, _) => a,
        Value::Destructure(a, _, _, _) => a,
        Value::IfThenElse(a, _, _, _) => a,
        Value::PatternMatch(a, _, _) => a,
        Value::UpdateRecord(a, _, _) => a,
        Value::Unit(a) => a,
        Value::Hole(a, _, _) => a,
        Value::Native(a, _, _) => a,
        Value::External(a, _, _) => a,
    }
}

impl Value {
    /// The attributes of this value node.
    pub fn attributes(&self) -> (r: &ValueAttributes)
        ensures
            *r == value_attributes(*self),
    {
        match self {
            Value::Literal(a, _) => a,
            Value::Constructor(a, _) => a,
            Value::Tuple(a, _) => a,
            Value::List(a, _) => a,
            Value::Record(a, _) => a,
            Value::Variable(a, _) => a,
            Value::Reference(a, _) => a,
            Value::Field(a, _, _) => a,
            Value::FieldFunction(a, _) => a,
            Value::Apply(a, _, _) => a,
            Value::Lambda(a, _, _) => a,
            Value::LetDefinition(a, _, _, _) => a,
            Value::LetRecursion(a, _, _) => a,
            Value::Destructure(a, _, _, _) => a,
            Value::IfThenElse(a, _, _, _) => a,
            Value::PatternMatch(a, _, _) => a,
            Value::UpdateRecord(a, _, _) => a,
            Value::Unit(a) => a,
            Value::Hole(a, _, _) => a,
            Value::Native(a, _, _) => a,
            Value::External(a, _, _) => a,
        }
    }

    pub fn literal(attrs: ValueAttributes, lit: Literal) -> (r: Value)
        ensures
            r == Value::Literal(attrs, lit),
    {
        Value::Literal(attrs, lit)
    }

    pub fn variable(attrs: ValueAttributes, name: Name) -> (r: Value)
        ensures
            r == Value::Variable(attrs, name),
    {
        Value::Variable(attrs, name)
    }

    pub fn constructor(attrs: ValueAttributes, name: FQName) -> (r: Value)
        ensures
            r == Value::Constructor(attrs, name),
    {
        Value::Constructor(attrs, name)
    }

    pub fn tuple(attrs: ValueAttributes, elements: Vec<Value>) -> (r: Value)
        ensures
            r == Value::Tuple(attrs, elements),
    {
        Value::Tuple(attrs, elements)
    }

    pub fn list(attrs: ValueAttributes, elements: Vec<Value>) -> (r: Value)
        ensures
            r == Value::List(attrs, elements),
    {
        Value::List(attrs, elements)
    }

    pub fn record(attrs: ValueAttributes, fields: Vec<RecordFieldEntry>) -> (r: Value)
        ensures
            r == Value::Record(attrs, fields),
    {
        Value::Record(attrs, fields)
    }

    pub fn apply(attrs: ValueAttributes, function: Value, argument: Value) -> (r: Value)
        ensures
            r == Value::Apply(attrs, Box::new(function), Box::new(argument)),
    {
        Value::Apply(attrs, Box::new(function), Box::new(argument))
    }

    pub fn lambda(attrs: ValueAttributes, pattern: Pattern, body: Value) -> (r: Value)
        ensures
            r == Value::Lambda(attrs, pattern, Box::new(body)),
    {
        Value::Lambda(attrs, pattern, Box::new(body))
    }

    pub fn if_then_else(attrs: ValueAttributes, condition: Value, then_branch: Value, else_branch: Value) -> (r: Value)
        ensures
            r == Value::IfThenElse(attrs, Box::new(condition), Box::new(then_branch), Box::new(else_branch)),
    {
        Value::IfThenElse(attrs, Box::new(condition), Box::new(then_branch), Box::new(else_branch))
    }

    pub fn unit(attrs: ValueAttributes) -> (r: Value)
        ensures
            r == Value::Unit(attrs),
    {
        Value::Unit(attrs)
    }
}

impl RecordFieldEntry {
    pub fn new(name: Name, value: Value) -> (r: RecordFieldEntry)
        ensures
            r == RecordFieldEntry(name, value),
    {
        RecordFieldEntry(name, value)
    }

    pub fn name(&self) -> (r: &Name)
        ensures
            *r == self.0,
    {
        &self.0
    }

    pub fn value(&self) -> (r: &Value)
        ensures
            *r == self.1,
    {
        &self.1
    }
}

impl PatternCase {
    pub fn new(pattern: Pattern, body: Value) -> (r: PatternCase)
        ensures
            r == PatternCase(pattern, body),
    {
        PatternCase(pattern, body)
    }

    pub fn pattern(&self) -> (r: &Pattern)
        ensures
            *r == self.0,
    {
        &self.0
    }

    pub fn body(&self) -> (r: &Value)
        ensures
            *r == self.1,
    {
        &self.1
    }
}

impl LetBinding {
    pub fn new(name: Name, definition: ValueDefinition) -> (r: LetBinding)
        ensures
            r == LetBinding(name, definition),
    {
        LetBinding(name, definition)
    }

    pub fn name(&self) -> (r: &Name)
        ensures
            *r == self.0,
    {
        &self.0
    }

    pub fn definition(&self) -> (r: &ValueDefinition)
        ensures
            *r == self.1,
    {
        &self.1
    }
}

/// Inputs keyed by their names' canonical spellings, each entry carrying its attributes.
pub open spec fn input_entries(inputs: Seq<InputType>) -> Seq<(Seq<char>, InputTypeEntry)> {
    inputs.map_values(
        |i: InputType| (canonical_in(i.0@, canonical_style()), InputTypeEntry { type_attributes: Some(i.1), input_type: i.2 }),
    )
}

pub open spec fn entry_views(v: Seq<(String, InputTypeEntry)>) -> Seq<(Seq<char>, InputTypeEntry)> {
    v.map_values(|e: (String, InputTypeEntry)| (e.0@, e.1))
}

fn input_type_entries(input_types: Vec<InputType>) -> (r: Vec<(String, InputTypeEntry)>)
    ensures
        entry_views(r@) == input_entries(input_types@),
{
    let ghost all = input_types@;
    assert(all.len() == input_types.len());
    let mut rest = input_types;
    let mut out: Vec<(String, InputTypeEntry)> = Vec::new();
    let mut i: usize = 0;
    assert(rest@ =~= all.skip(0));
    while rest.len() > 0
        invariant
            all.len() <= usize::MAX,
            i + rest@.len() == all.len(),
            rest@ == all.skip(i as int),
            entry_views(out@) == input_entries(all).take(i as int),
        decreases rest.len(),
    {
        let InputType(name, attrs, tpe) = rest.remove(0);
        let ghost before = out@;
        let key = name.to_canonical_string();
        out.push((key, InputTypeEntry { type_attributes: Some(attrs), input_type: tpe }));
        assert(entry_views(out@) =~= input_entries(all).take(i as int + 1)) by {
            assert(entry_views(out@) =~= entry_views(before).push(entry_views(out@).last()));
        }
        assert(rest@ =~= all.skip(i as int + 1));
        i = i + 1;
    }
    assert(input_entries(all).take(i as int) =~= input_entries(all));
    out
}

impl ValueDefinition {
    /// A definition with an expression body; each input keyed by its name's canonical
    /// spelling.
    pub fn new(input_types: Vec<InputType>, output_type: Type, body: Value) -> (r: ValueDefinition)
        ensures
            entry_views(r.input_types@) == input_entries(input_types@),
            r.output_type == Some(output_type),
            r.body == ValueBody::Expression(body),
    {
        let inputs = input_type_entries(input_types);
        ValueDefinition { input_types: inputs, output_type: Some(output_type), body: ValueBody::Expression(body) }
    }

    /// A definition with a native body.
    pub fn native(input_types: Vec<InputType>, output_type: Type, info: NativeInfo) -> (r: ValueDefinition)
        ensures
            entry_views(r.input_types@) == input_entries(input_types@),
            r.output_type == Some(output_type),
            r.body == ValueBody::Native(info),
    {
        let inputs = input_type_entries(input_types);
        ValueDefinition { input_types: inputs, output_type: Some(output_type), body: ValueBody::Native(info) }
    }
}

} // verus!
