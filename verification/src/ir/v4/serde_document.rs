//! Reading the pieces of a version 4 document that every node shares: names, fully
//! qualified names, and the document root.
//!
//! A name is written as its canonical string and an FQName as
//! `package/path:module/path#local-name`; anything else where one belongs is refused with the
//! cursor of the node. The document root is an object with exactly the members
//! `formatVersion` and `distribution`.

use crate::ir::diagnostic::{Diagnostic, DiagnosticCode, DiagnosticStage, DiagnosticView};
use crate::json::{get_member, lemma_member_views, json_view, member_named, member_views, JsonValue, JsonView};
use crate::naming::fqname::{parse_fqname, FQName, FQNameView};
use crate::naming::name::{parse_canonical, result_view, Name, SegmentView};
use crate::text::{push_str_chars, str_eq, string_of};
use vstd::prelude::*;

verus! {

/// A diagnostic raised while normalizing a document, as plain values.
pub open spec fn normalization_view(code: DiagnosticCode, cursor: Seq<char>, message: Seq<char>) -> DiagnosticView {
    DiagnosticView {
        code,
        stage: DiagnosticStage::Normalization,
        cursor,
        message,
        line: None,
        column: None,
    }
}

/// What reading a name written at `cursor` gives.
pub open spec fn name_decoding(v: JsonView, cursor: Seq<char>) -> Result<Seq<SegmentView>, DiagnosticView> {
    match v {
        JsonView::Str(s) => match parse_canonical(s) {
            Ok(n) => Ok(n),
            Err(m) => Err(normalization_view(DiagnosticCode::InvalidName, cursor, m)),
        },
        _ => Err(normalization_view(DiagnosticCode::InvalidType, cursor, "a name must be a canonical string"@)),
    }
}

/// What reading an FQName written at `cursor` gives.
pub open spec fn fqname_decoding(v: JsonView, cursor: Seq<char>) -> Result<FQNameView, DiagnosticView> {
    match v {
        JsonView::Str(s) => match parse_fqname(s) {
            Ok(f) => Ok(f),
            Err(m) => Err(normalization_view(DiagnosticCode::InvalidFqname, cursor, m)),
        },
        _ => Err(normalization_view(DiagnosticCode::InvalidType, cursor, "an FQName must be a canonical string"@)),
    }
}

/// Reads a name: a string holding its canonical spelling.
pub fn decode_name(value: &JsonValue, cursor: &str) -> (r: Result<Name, Diagnostic>)
    ensures
        match r {
            Ok(n) => name_decoding(value@, cursor@) == Ok::<Seq<SegmentView>, DiagnosticView>(n@),
            Err(d) => name_decoding(value@, cursor@) == Err::<Seq<SegmentView>, DiagnosticView>(d@),
        },
{
    match value {
        JsonValue::Str(text) => {
            let parsed = Name::from_canonical_string(text.as_str());
            assert(result_view(parsed) == parse_canonical(text@));
            match parsed {
                Ok(n) => Ok(n),
                Err(e) => Err(Diagnostic::normalization(DiagnosticCode::InvalidName, cursor, e)),
            }
        },
        _ => Err(
            Diagnostic::normalization(
                DiagnosticCode::InvalidType,
                cursor,
                String::from_str("a name must be a canonical string"),
            ),
        ),
    }
}

/// Reads an FQName: a string holding `package/path:module/path#local-name`.
pub fn decode_fqname(value: &JsonValue, cursor: &str) -> (r: Result<FQName, Diagnostic>)
    ensures
        match r {
            Ok(f) => fqname_decoding(value@, cursor@) == Ok::<FQNameView, DiagnosticView>(f@),
            Err(d) => fqname_decoding(value@, cursor@) == Err::<FQNameView, DiagnosticView>(d@),
        },
{
    match value {
        JsonValue::Str(text) => match FQName::from_canonical_string(text.as_str()) {
            Ok(f) => Ok(f),
            Err(e) => Err(Diagnostic::normalization(DiagnosticCode::InvalidFqname, cursor, e)),
        },
        _ => Err(
            Diagnostic::normalization(
                DiagnosticCode::InvalidType,
                cursor,
                String::from_str("an FQName must be a canonical string"),
            ),
        ),
    }
}

/// The first member name of a root object, from `i` on, that is neither `formatVersion`
/// nor `distribution`.
pub open spec fn first_foreign_root_member(ms: Seq<(Seq<char>, JsonView)>, i: int) -> Option<Seq<char>>
    decreases ms.len() - i,
{
    if i < 0 || i >= ms.len() {
        None
    } else if ms[i].0 != "formatVersion"@ && ms[i].0 != "distribution"@ {
        Some(ms[i].0)
    } else {
        first_foreign_root_member(ms, i + 1)
    }
}

/// What reading a document root at `cursor` gives: its `formatVersion` and its
/// `distribution`, or the first reason to refuse it. `what` names the document.
pub open spec fn root_decoding(v: JsonView, cursor: Seq<char>, what: Seq<char>) -> Result<(JsonView, JsonView), DiagnosticView> {
    match v {
        JsonView::Object(ms) => match first_foreign_root_member(ms, 0) {
            Some(k) => Err(normalization_view(DiagnosticCode::UnknownMember, cursor + "/"@ + k, "unexpected member "@ + k)),
            None => match member_named(ms, "formatVersion"@) {
                None => Err(
                    normalization_view(
                        DiagnosticCode::MissingFormatVersion,
                        cursor,
                        "the root object is missing formatVersion"@,
                    ),
                ),
                Some(f) => match member_named(ms, "distribution"@) {
                    None => Err(normalization_view(DiagnosticCode::MissingMember, cursor, "missing member distribution"@)),
                    Some(d) => Ok((f, d)),
                },
            },
        },
        _ => Err(normalization_view(DiagnosticCode::InvalidType, cursor, what + " must be an object"@)),
    }
}

/// The index of the first member of a root object that is neither `formatVersion` nor
/// `distribution`.
fn foreign_root_member(ms: &Vec<(String, JsonValue)>) -> (r: Option<usize>)
    ensures
        match r {
            Some(i) => i < ms@.len() && first_foreign_root_member(member_views(ms@), 0) == Some(ms@[i as int].0@),
            None => first_foreign_root_member(member_views(ms@), 0) is None,
        },
{
    let ghost mv = member_views(ms@);
    proof {
        lemma_member_views(ms@);
    }
    let mut i: usize = 0;
    while i < ms.len()
        invariant
            i <= ms@.len(),
            mv == member_views(ms@),
            mv.len() == ms@.len(),
            forall|q: int| 0 <= q < ms@.len() ==> #[trigger] mv[q] == (ms@[q].0@, json_view(ms@[q].1)),
            first_foreign_root_member(mv, 0) == first_foreign_root_member(mv, i as int),
        decreases ms.len() - i,
    {
        assert(mv[i as int] == (ms@[i as int].0@, json_view(ms@[i as int].1)));
        let key = ms[i].0.as_str();
        if !str_eq(key, "formatVersion") && !str_eq(key, "distribution") {
            return Some(i);
        }
        i = i + 1;
    }
    None
}

/// Holds a root object to the members `formatVersion` and `distribution`, and returns
/// them in that order.
///
/// A root that is not an object is refused as `invalid_type` ("`what` must be an object");
/// another member, in written order, as `unknown_member` at its own cursor; then a missing
/// `formatVersion` as `missing_format_version` and a missing `distribution` as
/// `missing_member`, both at the root.
pub fn document_root<'a>(value: &'a JsonValue, cursor: &str, what: &str) -> (r: Result<(&'a JsonValue, &'a JsonValue), Diagnostic>)
    ensures
        match r {
            Ok((f, d)) => root_decoding(value@, cursor@, what@) == Ok::<(JsonView, JsonView), DiagnosticView>((f@, d@)),
            Err(e) => root_decoding(value@, cursor@, what@) == Err::<(JsonView, JsonView), DiagnosticView>(e@),
        },
{
    let ms = match value {
        JsonValue::Object(ms) => ms,
        _ => {
            let mut m: Vec<char> = Vec::new();
            push_str_chars(&mut m, what);
            push_str_chars(&mut m, " must be an object");
            return Err(Diagnostic::normalization(DiagnosticCode::InvalidType, cursor, string_of(m.as_slice())));
        },
    };
    match foreign_root_member(ms) {
        Some(i) => {
            let key = ms[i].0.as_str();
            let mut at: Vec<char> = Vec::new();
            push_str_chars(&mut at, cursor);
            push_str_chars(&mut at, "/");
            push_str_chars(&mut at, key);
            let mut m: Vec<char> = Vec::new();
            push_str_chars(&mut m, "unexpected member ");
            push_str_chars(&mut m, key);
            let at = string_of(at.as_slice());
            return Err(Diagnostic::normalization(DiagnosticCode::UnknownMember, at.as_str(), string_of(m.as_slice())));
        },
        None => {},
    }
    let format_version = match get_member(ms, "formatVersion") {
        Some(f) => f,
        None => {
            return Err(
                Diagnostic::normalization(
                    DiagnosticCode::MissingFormatVersion,
                    cursor,
                    String::from_str("the root object is missing formatVersion"),
                ),
            );
        },
    };
    let distribution = match get_member(ms, "distribution") {
        Some(d) => d,
        None => {
            return Err(
                Diagnostic::normalization(
                    DiagnosticCode::MissingMember,
                    cursor,
                    String::from_str("missing member distribution"),
                ),
            );
        },
    };
    Ok((format_version, distribution))
}

} // verus!
