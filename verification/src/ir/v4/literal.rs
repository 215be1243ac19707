//! Literal values: a single-member wrapper whose payload is the value itself, such as
//! `{ "IntegerLiteral": 42 }` or `{ "CharLiteral": "a" }`.

use crate::json::{single_member_object, JsonValue, JsonView};
use crate::text::{decimal, decimal_of, push_chars, string_of};
use vstd::prelude::*;

verus! {

/// A floating-point literal, by the text it was written with, so a writer reproduces `1.0e2`
/// as it was read.
#[derive(Debug, Clone, PartialEq)]
pub struct FloatLiteral {
    pub lexeme: String,
}

impl FloatLiteral {
    /// The text this literal was written with.
    pub fn lexeme(&self) -> (r: &str)
        ensures
            r@ == self.lexeme@,
    {
        self.lexeme.as_str()
    }
}

/// Literal constant values.
#[derive(Debug, PartialEq)]
pub enum Literal {
    Bool(bool),
    Char(char),
    String(String),
    Integer(i64),
    Float(FloatLiteral),
    /// Decimal literal, carried as text.
    Decimal(String),
    /// Document literal: a schema-less JSON tree carried verbatim.
    Document(JsonValue),
}

impl Literal {
    /// A literal equal to this one; a document literal carries an equal tree.
    pub fn duplicate(&self) -> (r: Literal)
        ensures
            match *self {
                Literal::Document(a) => r matches Literal::Document(b) && b@ == a@,
                _ => r == *self,
            },
    {
        match self {
            Literal::Bool(v) => Literal::Bool(*v),
            Literal::Char(c) => Literal::Char(*c),
            Literal::String(s) => Literal::String(s.clone()),
            Literal::Integer(i) => Literal::Integer(*i),
            Literal::Float(f) => Literal::Float(FloatLiteral { lexeme: f.lexeme.clone() }),
            Literal::Decimal(s) => Literal::Decimal(s.clone()),
            Literal::Document(v) => Literal::Document(v.duplicate()),
        }
    }

    pub fn bool(value: bool) -> (r: Literal)
        ensures
            r == Literal::Bool(value),
    {
        Literal::Bool(value)
    }

    pub fn char(value: char) -> (r: Literal)
        ensures
            r == Literal::Char(value),
    {
        Literal::Char(value)
    }

    pub fn string(value: String) -> (r: Literal)
        ensures
            r == Literal::String(value),
    {
        Literal::String(value)
    }

    pub fn integer(value: i64) -> (r: Literal)
        ensures
            r == Literal::Integer(value),
    {
        Literal::Integer(value)
    }

    pub fn decimal(value: String) -> (r: Literal)
        ensures
            r == Literal::Decimal(value),
    {
        Literal::Decimal(value)
    }

    pub fn document(value: JsonValue) -> (r: Literal)
        ensures
            r == Literal::Document(value),
    {
        Literal::Document(value)
    }
}

/// The decimal spelling of an integer, with a `-` before a negative one.
pub open spec fn int_decimal(i: int) -> Seq<char> {
    if i < 0 {
        seq!['-'] + decimal((-i) as nat)
    } else {
        decimal(i as nat)
    }
}

/// The canonical v4 spelling of a literal: its tag over its payload.
pub open spec fn literal_json(l: Literal) -> JsonView {
    match l {
        Literal::Bool(v) => JsonView::Object(seq![("BoolLiteral"@, JsonView::Bool(v))]),
        Literal::Char(c) => JsonView::Object(seq![("CharLiteral"@, JsonView::Str(seq![c]))]),
        Literal::String(s) => JsonView::Object(seq![("StringLiteral"@, JsonView::Str(s@))]),
        Literal::Integer(i) => JsonView::Object(seq![("IntegerLiteral"@, JsonView::Number(int_decimal(i as int)))]),
        Literal::Float(f) => JsonView::Object(seq![("FloatLiteral"@, JsonView::Number(f.lexeme@))]),
        Literal::Decimal(s) => JsonView::Object(seq![("DecimalLiteral"@, JsonView::Str(s@))]),
        Literal::Document(v) => JsonView::Object(seq![("DocumentLiteral"@, v@)]),
    }
}

fn integer_text(i: i64) -> (r: String)
    ensures
        r@ == int_decimal(i as int),
{
    if i < 0 {
        let magnitude: u64 = ((-(i + 1)) as u64) + 1;
        let mut out: Vec<char> = Vec::new();
        out.push('-');
        let d = decimal_of(magnitude);
        push_chars(&mut out, d.as_slice());
        string_of(out.as_slice())
    } else {
        let d = decimal_of(i as u64);
        string_of(d.as_slice())
    }
}

/// Serialize a literal in its canonical v4 spelling: the payload sits directly under the tag.
pub fn serialize_literal(lit: &Literal) -> (r: JsonValue)
    ensures
        r@ == literal_json(*lit),
{
    match lit {
        Literal::Bool(v) => single_member_object("BoolLiteral", JsonValue::Bool(*v)),
        Literal::Char(c) => {
            let mut cs: Vec<char> = Vec::new();
            cs.push(*c);
            assert(cs@ =~= seq![*c]);
            single_member_object("CharLiteral", JsonValue::Str(string_of(cs.as_slice())))
        },
        Literal::String(s) => single_member_object("StringLiteral", JsonValue::Str(s.clone())),
        Literal::Integer(i) => single_member_object("IntegerLiteral", JsonValue::Number(integer_text(*i))),
        Literal::Float(f) => single_member_object("FloatLiteral", JsonValue::Number(f.lexeme.clone())),
        Literal::Decimal(s) => single_member_object("DecimalLiteral", JsonValue::Str(s.clone())),
        Literal::Document(v) => single_member_object("DocumentLiteral", v.duplicate()),
    }
}

} // verus!
