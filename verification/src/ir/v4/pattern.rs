//! Patterns, as lambdas, destructuring lets and pattern matches bind them.

use crate::ir::v4::attributes::ValueAttributes;
use crate::ir::v4::literal::Literal;
use crate::naming::fqname::FQName;
use crate::naming::name::Name;
use vstd::prelude::*;

verus! {

/// A pattern, each with the attributes of the node it is.
#[derive(Debug, PartialEq)]
pub enum Pattern {
    WildcardPattern(ValueAttributes),
    AsPattern(ValueAttributes, Box<Pattern>, Name),
    TuplePattern(ValueAttributes, Vec<Pattern>),
    ConstructorPattern(ValueAttributes, FQName, Vec<Pattern>),
    EmptyListPattern(ValueAttributes),
    HeadTailPattern(ValueAttributes, Box<Pattern>, Box<Pattern>),
    LiteralPattern(ValueAttributes, Literal),
    UnitPattern(ValueAttributes),
}

/// The attributes of a pattern node.
pub open spec fn pattern_attributes(p: Pattern) -> ValueAttributes {
    match p {
        Pattern::WildcardPattern(a) => a,
        Pattern::AsPattern(a, _, _) => a,
        Pattern::TuplePattern(a, _) => a,
        Pattern::ConstructorPattern(a, _, _) => a,
        Pattern::EmptyListPattern(a) => a,
        Pattern::HeadTailPattern(a, _, _) => a,
        Pattern::LiteralPattern(a, _) => a,
        Pattern::UnitPattern(a) => a,
    }
}

impl Pattern {
    /// The wildcard pattern `_`.
    pub fn wildcard(attrs: ValueAttributes) -> (r: Pattern)
        ensures
            r == Pattern::WildcardPattern(attrs),
    {
        Pattern::WildcardPattern(attrs)
    }

    /// The attributes of this pattern node.
    pub fn attributes(&self) -> (r: &ValueAttributes)
        ensures
            *r == pattern_attributes(*self),
    {
        match self {
            Pattern::WildcardPattern(a) => a,
            Pattern::AsPattern(a, _, _) => a,
            Pattern::TuplePattern(a, _) => a,
            Pattern::ConstructorPattern(a, _, _) => a,
            Pattern::EmptyListPattern(a) => a,
            Pattern::HeadTailPattern(a, _, _) => a,
            Pattern::LiteralPattern(a, _) => a,
            Pattern::UnitPattern(a) => a,
        }
    }
}

} // verus!
