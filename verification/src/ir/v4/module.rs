//! Modules: their definitions and specifications, and the documentation carried beside
//! each.

use crate::ir::v4::access::AccessControlled;
use crate::ir::v4::types::{TypeDefinition, TypeSpecification};
use crate::ir::v4::value::{ValueDefinition, ValueSpecification};
use crate::text::{chars_of, string_of};
use vstd::prelude::*;

verus! {

/// A line with one trailing carriage return removed, if it ends in one.
pub open spec fn normalized_line(line: Seq<char>) -> Seq<char> {
    if line.len() > 0 && line.last() == '\r' {
        line.drop_last()
    } else {
        line
    }
}

pub open spec fn line_views(v: Seq<String>) -> Seq<Seq<char>> {
    v.map_values(|s: String| s@)
}

fn normalize_line(line: String) -> (r: String)
    ensures
        r@ == normalized_line(line@),
{
    let cs = chars_of(line.as_str());
    if cs.len() > 0 && cs[cs.len() - 1] == '\r' {
        let mut kept = cs;
        kept.pop();
        string_of(kept.as_slice())
    } else {
        line
    }
}

/// Documentation stored as normalized lines.
#[derive(Debug, Clone, PartialEq, Eq)]
pub struct Documentation(Vec<String>);

impl View for Documentation {
    type V = Seq<Seq<char>>;

    closed spec fn view(&self) -> Seq<Seq<char>> {
        line_views(self.0@)
    }
}

impl Documentation {
    /// Documentation from lines, each with a trailing carriage return removed.
    pub fn new(lines: Vec<String>) -> (r: Documentation)
        ensures
            r@ == line_views(lines@).map_values(|l: Seq<char>| normalized_line(l)),
    {
        let ghost target = line_views(lines@).map_values(|l: Seq<char>| normalized_line(l));
        let mut out: Vec<String> = Vec::new();
        let mut i: usize = 0;
        while i < lines.len()
            invariant
                i <= lines.len(),
                target == line_views(lines@).map_values(|l: Seq<char>| normalized_line(l)),
                line_views(out@) == target.take(i as int),
            decreases lines.len() - i,
        {
            let line = lines[i].clone();
            assert(line@ == lines@[i as int]@);
            let ghost before = out@;
            let n = normalize_line(line);
            let ghost nv = n@;
            out.push(n);
            assert(line_views(out@) =~= line_views(before).push(nv));
            assert(target[i as int] == normalized_line(lines@[i as int]@));
            assert(target.take(i as int + 1) =~= target.take(i as int).push(target[i as int]));
            assert(line_views(out@) =~= target.take(i as int + 1));
            i = i + 1;
        }
        assert(target.take(i as int) =~= target);
        Documentation(out)
    }

    /// Documentation of one line.
    pub fn from_line(line: String) -> (r: Documentation)
        ensures
            r@ == seq![normalized_line(line@)],
    {
        let mut out: Vec<String> = Vec::new();
        out.push(normalize_line(line));
        assert(line_views(out@) =~= seq![out@[0]@]);
        Documentation(out)
    }

    /// The normalized documentation lines.
    pub fn lines(&self) -> (r: &[String])
        ensures
            line_views(r@) == self@,
    {
        self.0.as_slice()
    }
}

/// Optional documentation paired with an IR definition or specification.
#[derive(Debug, Clone, PartialEq)]
pub struct Documented<T> {
    pub doc: Option<Documentation>,
    pub value: T,
}

impl<T> Documented<T> {
    pub fn new(doc: Option<Documentation>, value: T) -> (r: Documented<T>)
        ensures
            r.doc == doc,
            r.value == value,
    {
        Documented { doc, value }
    }
}

/// What a module presents to its readers: its public types and values, by name.
#[derive(Debug, PartialEq)]
pub struct ModuleSpecification {
    pub types: Vec<(String, Documented<TypeSpecification>)>,
    pub values: Vec<(String, Documented<ValueSpecification>)>,
    pub doc: Option<Documentation>,
}

/// A module's definitions, each under an access level, by name.
#[derive(Debug, PartialEq)]
pub struct ModuleDefinition {
    pub types: Vec<(String, AccessControlled<Documented<TypeDefinition>>)>,
    pub values: Vec<(String, AccessControlled<Documented<ValueDefinition>>)>,
    pub doc: Option<Documentation>,
}

} // verus!
