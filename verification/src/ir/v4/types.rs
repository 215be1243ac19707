//! Type expressions, specifications and definitions.

use crate::ir::v4::access::AccessControlled;
use crate::ir::v4::attributes::TypeAttributes;
use crate::ir::v4::value::HoleReason;
use crate::naming::fqname::FQName;
use crate::naming::name::Name;
use vstd::prelude::*;

verus! {

/// A type expression; each variant carries its attributes.
#[derive(Debug, PartialEq)]
pub enum Type {
    /// A type variable, `a` in `List a`.
    Variable(TypeAttributes, Name),
    /// A named type with its type arguments.
    Reference(TypeAttributes, FQName, Vec<Type>),
    /// A tuple type.
    Tuple(TypeAttributes, Vec<Type>),
    /// A record type, its fields in declaration order.
    Record(TypeAttributes, Vec<Field>),
    /// A record type with a row variable.
    ExtensibleRecord(TypeAttributes, Name, Vec<Field>),
    /// A function type, from its parameter type to its return type.
    Function(TypeAttributes, Box<Type>, Box<Type>),
    /// The unit type.
    Unit(TypeAttributes),
}

/// A field of a record type.
#[derive(Debug, PartialEq)]
pub struct Field {
    pub name: Name,
    pub tpe: Type,
}

impl Type {
    /// The attributes of this type.
    pub fn attributes(&self) -> (r: &TypeAttributes)
        ensures
            *r == match *self {
                Type::Variable(a, _) => a,
                Type::Reference(a, _, _) => a,
                Type::Tuple(a, _) => a,
                Type::Record(a, _) => a,
                Type::ExtensibleRecord(a, _, _) => a,
                Type::Function(a, _, _) => a,
                Type::Unit(a) => a,
            },
    {
        match self {
            Type::Variable(a, _) => a,
            Type::Reference(a, _, _) => a,
            Type::Tuple(a, _) => a,
            Type::Record(a, _) => a,
            Type::ExtensibleRecord(a, _, _) => a,
            Type::Function(a, _, _) => a,
            Type::Unit(a) => a,
        }
    }

    pub fn variable(attrs: TypeAttributes, name: Name) -> (r: Type)
        ensures
            r == Type::Variable(attrs, name),
    {
        Type::Variable(attrs, name)
    }

    pub fn reference(attrs: TypeAttributes, fqname: FQName, type_params: Vec<Type>) -> (r: Type)
        ensures
            r == Type::Reference(attrs, fqname, type_params),
    {
        Type::Reference(attrs, fqname, type_params)
    }

    pub fn tuple(attrs: TypeAttributes, elements: Vec<Type>) -> (r: Type)
        ensures
            r == Type::Tuple(attrs, elements),
    {
        Type::Tuple(attrs, elements)
    }

    pub fn record(attrs: TypeAttributes, fields: Vec<Field>) -> (r: Type)
        ensures
            r == Type::Record(attrs, fields),
    {
        Type::Record(attrs, fields)
    }

    pub fn extensible_record(attrs: TypeAttributes, variable: Name, fields: Vec<Field>) -> (r:
        Type)
        ensures
            r == Type::ExtensibleRecord(attrs, variable, fields),
    {
        Type::ExtensibleRecord(attrs, variable, fields)
    }

    /// A function type from `arg` to `result`.
    pub fn function(attrs: TypeAttributes, arg: Type, result: Type) -> (r: Type)
        ensures
            r == Type::Function(attrs, Box::new(arg), Box::new(result)),
    {
        Type::Function(attrs, Box::new(arg), Box::new(result))
    }

    pub fn unit(attrs: TypeAttributes) -> (r: Type)
        ensures
            r == Type::Unit(attrs),
    {
        Type::Unit(attrs)
    }
}

impl Field {
    pub fn new(name: Name, tpe: Type) -> (r: Field)
        ensures
            r == (Field { name, tpe }),
    {
        Field { name, tpe }
    }
}

/// The public face of a type.
#[derive(Debug, PartialEq)]
pub enum TypeSpecification {
    TypeAliasSpecification { type_params: Vec<Name>, type_expr: Type },
    OpaqueTypeSpecification { type_params: Vec<Name> },
    CustomTypeSpecification { type_params: Vec<Name>, constructors: Vec<ConstructorSpecification> },
    /// A type built from another one, with the two conversions between them.
    DerivedTypeSpecification {
        type_params: Vec<Name>,
        base_type: Type,
        from_base_type: FQName,
        to_base_type: FQName,
    },
}

/// A constructor's public face.
#[derive(Debug, PartialEq)]
pub struct ConstructorSpecification {
    pub name: Name,
    pub args: Vec<ConstructorArgSpec>,
}

/// A constructor argument's public face.
#[derive(Debug, PartialEq)]
pub struct ConstructorArgSpec {
    pub name: Name,
    pub arg_type: Type,
}

/// Why a type definition is incomplete: a hole with its reason, or a draft.
#[derive(Debug, Clone, PartialEq)]
pub enum Incompleteness {
    Hole(HoleReason),
    Draft,
}

/// A type definition.
#[derive(Debug, PartialEq)]
pub enum TypeDefinition {
    TypeAliasDefinition { type_params: Vec<Name>, type_expr: Type },
    CustomTypeDefinition {
        type_params: Vec<Name>,
        constructors: AccessControlled<Vec<ConstructorDefinition>>,
    },
    IncompleteTypeDefinition {
        type_params: Vec<Name>,
        incompleteness: Incompleteness,
        partial_type_expr: Option<Type>,
    },
}

/// A constructor of a custom type.
#[derive(Debug, PartialEq)]
pub struct ConstructorDefinition {
    pub name: Name,
    pub args: Vec<ConstructorArg>,
}

/// A constructor argument.
#[derive(Debug, PartialEq)]
pub struct ConstructorArg {
    pub name: Name,
    pub arg_type: Type,
}

} // verus!
