//! Reading names, paths and fully qualified names out of JSON: the canonical string, or the
//! legacy arrays of words that classic documents use.

use crate::ir::diagnostic::{Diagnostic, DiagnosticCode, DiagnosticStage, DiagnosticView};
use crate::json::{item_views, lemma_item_views, JsonValue, JsonView};
use crate::naming::fqname::{parse_fqname, FQName, FQNameView};
use crate::naming::name::{collapse_words, lowered_words, parse_canonical, string_views, Name, SegmentView};
use crate::naming::path::{lemma_name_views_push, name_views, parse_path, Path};
use crate::text::{decimal, decimal_of, push_chars, push_str_chars, string_of};
use vstd::prelude::*;

verus! {

/// Whether every item is a string.
pub open spec fn all_strings(items: Seq<JsonView>) -> bool {
    forall|i: int| 0 <= i < items.len() ==> (#[trigger] items[i]) is Str
}

/// The strings among `items`, which are all strings.
pub open spec fn item_strings(items: Seq<JsonView>) -> Seq<Seq<char>> {
    items.map_values(|v: JsonView| v->Str_0)
}

/// What a name reads as: a canonical string, or a legacy array of words.
pub open spec fn name_json(v: JsonView) -> Result<Seq<SegmentView>, Seq<char>> {
    match v {
        JsonView::Str(s) => parse_canonical(s),
        JsonView::Array(items) => if all_strings(items) {
            Ok(collapse_words(lowered_words(item_strings(items))))
        } else {
            Err("expected string in Name array"@)
        },
        _ => Err("expected string or array for Name"@),
    }
}

/// Reading the names `items[i..]` of a legacy path; the first refused one decides the error.
pub open spec fn path_items_json(items: Seq<JsonView>, i: int) -> Result<Seq<Seq<SegmentView>>, Seq<char>>
    decreases items.len() - i,
{
    if i < 0 || i >= items.len() {
        Ok(Seq::<Seq<SegmentView>>::empty())
    } else {
        match name_json(items[i]) {
            Err(e) => Err(e),
            Ok(n) => match path_items_json(items, i + 1) {
                Err(e) => Err(e),
                Ok(rest) => Ok(seq![n] + rest),
            },
        }
    }
}

/// What a path reads as: a canonical string, or a legacy array of names.
pub open spec fn path_json(v: JsonView) -> Result<Seq<Seq<SegmentView>>, Seq<char>> {
    match v {
        JsonView::Str(s) => parse_path(s),
        JsonView::Array(items) => path_items_json(items, 0),
        _ => Err("expected string or array for Path"@),
    }
}

/// A refusal of a fully qualified name: a diagnostic at the root, or the message of a part
/// that did not read.
pub enum FqnameJsonError {
    Diagnostic(Diagnostic),
    Message(String),
}

pub enum FqnameJsonErrorView {
    Diagnostic(DiagnosticView),
    Message(Seq<char>),
}

impl View for FqnameJsonError {
    type V = FqnameJsonErrorView;

    open spec fn view(&self) -> FqnameJsonErrorView {
        match self {
            FqnameJsonError::Diagnostic(d) => FqnameJsonErrorView::Diagnostic(d@),
            FqnameJsonError::Message(m) => FqnameJsonErrorView::Message(m@),
        }
    }
}

pub open spec fn root_diagnostic(code: DiagnosticCode, message: Seq<char>) -> FqnameJsonErrorView {
    FqnameJsonErrorView::Diagnostic(
        DiagnosticView {
            code,
            stage: DiagnosticStage::Normalization,
            cursor: "/"@,
            message,
            line: None,
            column: None,
        },
    )
}

/// What a fully qualified name reads as: the canonical string, or the legacy array of a
/// package path, a module path and a local name.
pub open spec fn fqname_json(v: JsonView) -> Result<FQNameView, FqnameJsonErrorView> {
    match v {
        JsonView::Str(t) => match parse_fqname(t) {
            Ok(f) => Ok(f),
            Err(e) => Err(root_diagnostic(DiagnosticCode::InvalidFqname, e)),
        },
        JsonView::Array(items) => if items.len() != 3 {
            Err(
                root_diagnostic(
                    DiagnosticCode::InvalidFqname,
                    "a legacy fully qualified name is a package, a module and a local name, not "@
                        + decimal(items.len()) + " elements"@,
                ),
            )
        } else {
            match path_json(items[0]) {
                Err(e) => Err(FqnameJsonErrorView::Message(e)),
                Ok(p) => match path_json(items[1]) {
                    Err(e) => Err(FqnameJsonErrorView::Message(e)),
                    Ok(m) => match name_json(items[2]) {
                        Err(e) => Err(FqnameJsonErrorView::Message(e)),
                        Ok(n) => Ok(FQNameView { package_path: p, module: m, local_name: n }),
                    },
                },
            }
        },
        _ => Err(
            root_diagnostic(
                DiagnosticCode::InvalidType,
                "a fully qualified name is a canonical string or a legacy three-element array"@,
            ),
        ),
    }
}

/// Reads a name from its canonical string or a legacy array of words.
pub fn name_from_json(v: &JsonValue) -> (r: Result<Name, String>)
    ensures
        match r {
            Ok(n) => name_json(v@) == Ok::<Seq<SegmentView>, Seq<char>>(n@),
            Err(e) => name_json(v@) == Err::<Seq<SegmentView>, Seq<char>>(e@),
        },
{
    match v {
        JsonValue::Str(s) => Name::from_canonical_string(s.as_str()),
        JsonValue::Array(items) => {
            proof {
                lemma_item_views(items@);
            }
            let ghost views = item_views(items@);
            let mut words: Vec<String> = Vec::new();
            let mut i: usize = 0;
            while i < items.len()
                invariant
                    i <= items@.len(),
                    views == item_views(items@),
                    v@ == JsonView::Array(views),
                    views.len() == items@.len(),
                    forall|q: int| 0 <= q < items@.len() ==> #[trigger] views[q] == items@[q]@,
                    forall|q: int| 0 <= q < i ==> (#[trigger] views[q]) is Str,
                    string_views(words@) == item_strings(views).take(i as int),
                decreases items.len() - i,
            {
                match &items[i] {
                    JsonValue::Str(s) => {
                        let ghost before = words@;
                        words.push(s.clone());
                        assert(string_views(words@) =~= item_strings(views).take(i as int + 1)) by {
                            assert(string_views(words@) =~= string_views(before).push(s@));
                        }
                    },
                    _ => {
                        assert(!(views[i as int] is Str));
                        assert(!all_strings(views));
                        return Err(String::from_str("expected string in Name array"));
                    },
                }
                i = i + 1;
            }
            assert(item_strings(views).take(i as int) =~= item_strings(views));
            Ok(Name::from_words(words))
        },
        _ => Err(String::from_str("expected string or array for Name")),
    }
}

/// Reads a path from its canonical string or a legacy array of names.
pub fn path_from_json(v: &JsonValue) -> (r: Result<Path, String>)
    ensures
        match r {
            Ok(p) => path_json(v@) == Ok::<Seq<Seq<SegmentView>>, Seq<char>>(p@),
            Err(e) => path_json(v@) == Err::<Seq<Seq<SegmentView>>, Seq<char>>(e@),
        },
{
    match v {
        JsonValue::Str(s) => Path::from_canonical_string(s.as_str()),
        JsonValue::Array(items) => {
            proof {
                lemma_item_views(items@);
            }
            let ghost views = item_views(items@);
            let mut segments: Vec<Name> = Vec::new();
            let mut i: usize = 0;
            while i < items.len()
                invariant
                    i <= items@.len(),
                    views == item_views(items@),
                    v@ == JsonView::Array(views),
                    views.len() == items@.len(),
                    forall|q: int| 0 <= q < items@.len() ==> #[trigger] views[q] == items@[q]@,
                    path_items_json(views, 0) == match path_items_json(views, i as int) {
                        Ok(rest) => Ok(name_views(segments@) + rest),
                        Err(e) => Err::<Seq<Seq<SegmentView>>, Seq<char>>(e),
                    },
                decreases items.len() - i,
            {
                assert(views[i as int] == items@[i as int]@);
                match name_from_json(&items[i]) {
                    Ok(n) => {
                        proof {
                            lemma_name_views_push(segments@, n);
                            match path_items_json(views, i as int + 1) {
                                Ok(rest) => {
                                    assert(name_views(segments@) + (seq![n@] + rest) =~= name_views(segments@).push(n@) + rest);
                                },
                                Err(_) => {},
                            }
                        }
                        segments.push(n);
                    },
                    Err(e) => {
                        assert(path_items_json(views, i as int) == Err::<Seq<Seq<SegmentView>>, Seq<char>>(e@));
                        return Err(e);
                    },
                }
                i = i + 1;
            }
            assert(name_views(segments@) + Seq::<Seq<SegmentView>>::empty() =~= name_views(segments@));
            Ok(Path { segments })
        },
        _ => Err(String::from_str("expected string or array for Path")),
    }
}

impl FQName {
    /// Reads a fully qualified name from the canonical string or the legacy three-element
    /// array of a package path, a module path and a local name.
    pub fn from_json(v: &JsonValue) -> (r: Result<FQName, FqnameJsonError>)
        ensures
            match r {
                Ok(f) => fqname_json(v@) == Ok::<FQNameView, FqnameJsonErrorView>(f@),
                Err(e) => fqname_json(v@) == Err::<FQNameView, FqnameJsonErrorView>(e@),
            },
    {
        match v {
            JsonValue::Str(t) => match FQName::from_canonical_string(t.as_str()) {
                Ok(f) => Ok(f),
                Err(e) => Err(FqnameJsonError::Diagnostic(Diagnostic::normalization(DiagnosticCode::InvalidFqname, "/", e))),
            },
            JsonValue::Array(items) => {
                proof {
                    lemma_item_views(items@);
                }
                if items.len() != 3 {
                    let mut m: Vec<char> = Vec::new();
                    push_str_chars(&mut m, "a legacy fully qualified name is a package, a module and a local name, not ");
                    let d = decimal_of(items.len() as u64);
                    push_chars(&mut m, d.as_slice());
                    push_str_chars(&mut m, " elements");
                    return Err(
                        FqnameJsonError::Diagnostic(
                            Diagnostic::normalization(DiagnosticCode::InvalidFqname, "/", string_of(m.as_slice())),
                        ),
                    );
                }
                let package_path = match path_from_json(&items[0]) {
                    Ok(p) => p,
                    Err(e) => {
                        return Err(FqnameJsonError::Message(e));
                    },
                };
                let module = match path_from_json(&items[1]) {
                    Ok(p) => p,
                    Err(e) => {
                        return Err(FqnameJsonError::Message(e));
                    },
                };
                let local_name = match name_from_json(&items[2]) {
                    Ok(n) => n,
                    Err(e) => {
                        return Err(FqnameJsonError::Message(e));
                    },
                };
                Ok(FQName::new(package_path, module, local_name))
            },
            _ => Err(
                FqnameJsonError::Diagnostic(
                    Diagnostic::normalization(
                        DiagnosticCode::InvalidType,
                        "/",
                        String::from_str("a fully qualified name is a canonical string or a legacy three-element array"),
                    ),
                ),
            ),
        }
    }
}

} // verus!
