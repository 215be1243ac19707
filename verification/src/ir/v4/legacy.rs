//! The spelling window for legacy member names and the legacy member table.
//!
//! A set of earlier member spellings is accepted for one release: under
//! [`SpellingMode::Current`] they decode with a `legacy_spelling` warning at the member's
//! cursor, and under [`SpellingMode::Pinned`] they are refused as unknown members. The
//! mode and the warnings collected so far travel in a [`SpellingScope`].

use crate::ir::diagnostic::{
    warning_views, Diagnostic, DiagnosticCode, DiagnosticStage, Warning, WarningView,
};
use crate::text::{push_str_chars, str_eq, string_of};
use vstd::prelude::*;

verus! {

/// Which spelling window a decode runs under.
#[derive(Clone, Copy, Debug, Eq, PartialEq, Structural)]
pub enum SpellingMode {
    /// The one-release window: legacy spellings decode with a warning.
    Current,
    /// The window has closed: legacy spellings are refused as unknown members.
    Pinned,
}

/// The spelling mode a decode runs under, and the warnings collected during it.
///
/// Outside any [`with_spelling_mode`] call the mode is `Current` and there is no collector,
/// so warnings [`accept_member`] would record are dropped.
pub struct SpellingScope {
    mode: SpellingMode,
    collected: Option<Vec<Warning>>,
}

/// A scope's content as plain values.
pub struct SpellingScopeView {
    pub mode: SpellingMode,
    pub collected: Option<Seq<WarningView>>,
}

impl View for SpellingScope {
    type V = SpellingScopeView;

    closed spec fn view(&self) -> SpellingScopeView {
        SpellingScopeView {
            mode: self.mode,
            collected: match self.collected {
                Some(v) => Some(warning_views(v@)),
                None => None,
            },
        }
    }
}

impl SpellingScope {
    /// The scope outside any [`with_spelling_mode`] call: `Current`, collecting nothing.
    pub fn outside() -> (r: SpellingScope)
        ensures
            r@.mode == SpellingMode::Current,
            r@.collected is None,
    {
        SpellingScope { mode: SpellingMode::Current, collected: None }
    }

    /// The mode this scope decodes under.
    pub fn mode(&self) -> (r: SpellingMode)
        ensures
            r == self@.mode,
    {
        self.mode
    }
}

/// Runs `f` in a scope of its own under `mode`, collecting the warnings [`accept_member`]
/// records during the call; the scope `f` was called from is not touched.
pub fn with_spelling_mode<R, F: FnOnce(SpellingScope) -> (R, SpellingScope)>(
    mode: SpellingMode,
    f: F,
) -> (r: (R, Vec<Warning>))
    requires
        forall|s: SpellingScope|
            s@.mode == mode && s@.collected == Some(Seq::<WarningView>::empty()) ==> #[trigger] f.requires((s,)),
    ensures
        exists|s: SpellingScope, out: (R, SpellingScope)|
            s@.mode == mode && s@.collected == Some(Seq::<WarningView>::empty()) && #[trigger] f.ensures((s,), out)
                && r.0 == out.0 && warning_views(r.1@) == match out.1@.collected {
                Some(w) => w,
                None => Seq::<WarningView>::empty(),
            },
{
    let scope = SpellingScope { mode, collected: Some(Vec::new()) };
    proof {
        assert(warning_views(Seq::<Warning>::empty()) =~= Seq::<WarningView>::empty());
    }
    assert(scope@.collected == Some(Seq::<WarningView>::empty()));
    let out = f(scope);
    let (result, finished) = out;
    let warnings = match finished.collected {
        Some(w) => w,
        None => Vec::new(),
    };
    proof {
        assert(warning_views(Seq::<Warning>::empty()) =~= Seq::<WarningView>::empty());
    }
    (result, warnings)
}

/// Drains and returns the warnings collected so far, leaving the collector, if there is one,
/// empty.
pub fn take_warnings(scope: &mut SpellingScope) -> (r: Vec<Warning>)
    ensures
        final(scope)@.mode == old(scope)@.mode,
        match old(scope)@.collected {
            Some(w) => warning_views(r@) == w && final(scope)@.collected == Some(
                Seq::<WarningView>::empty(),
            ),
            None => r@.len() == 0 && final(scope)@.collected is None,
        },
{
    proof {
        assert(warning_views(Seq::<Warning>::empty()) =~= Seq::<WarningView>::empty());
    }
    match scope.collected.take() {
        Some(w) => {
            scope.collected = Some(Vec::new());
            w
        },
        None => Vec::new(),
    }
}

// ---------------------------------------------------------------------------
// The legacy member table
// ---------------------------------------------------------------------------

/// The legacy member table as plain values: `(node, legacy, canonical)`; a `node` of `*`
/// matches every node kind.
pub open spec fn legacy_rows() -> Seq<(Seq<char>, Seq<char>, Seq<char>)> {
    seq![
        ("*"@, "attrs"@, "attributes"@),
        ("Function"@, "argumentType"@, "parameterType"@),
        ("Function"@, "arg"@, "parameterType"@),
        ("Function"@, "result"@, "returnType"@),
        ("IfThenElse"@, "thenBranch"@, "then"@),
        ("IfThenElse"@, "elseBranch"@, "else"@),
        ("Field"@, "subject"@, "target"@),
        ("Field"@, "fieldName"@, "name"@),
        ("LetDefinition"@, "valueName"@, "name"@),
        ("LetDefinition"@, "valueDefinition"@, "definition"@),
        ("LetDefinition"@, "inValue"@, "in"@),
        ("ValueSpecification"@, "inputs"@, "inputTypes"@),
        ("ValueSpecification"@, "output"@, "outputType"@),
        ("ExternalBody"@, "externalName"@, "externals"@),
        ("ExternalBody"@, "targetPlatform"@, "externals"@),
    ]
}

pub open spec fn row_views(v: Seq<(&'static str, &'static str, &'static str)>) -> Seq<
    (Seq<char>, Seq<char>, Seq<char>),
> {
    v.map_values(|r: (&'static str, &'static str, &'static str)| (r.0@, r.1@, r.2@))
}

/// The legacy member table: `(node, legacy, canonical)`.
pub fn legacy_table() -> (r: Vec<(&'static str, &'static str, &'static str)>)
    ensures
        row_views(r@) == legacy_rows(),
{
    let r = vec![
        ("*", "attrs", "attributes"),
        ("Function", "argumentType", "parameterType"),
        ("Function", "arg", "parameterType"),
        ("Function", "result", "returnType"),
        ("IfThenElse", "thenBranch", "then"),
        ("IfThenElse", "elseBranch", "else"),
        ("Field", "subject", "target"),
        ("Field", "fieldName", "name"),
        ("LetDefinition", "valueName", "name"),
        ("LetDefinition", "valueDefinition", "definition"),
        ("LetDefinition", "inValue", "in"),
        ("ValueSpecification", "inputs", "inputTypes"),
        ("ValueSpecification", "output", "outputType"),
        ("ExternalBody", "externalName", "externals"),
        ("ExternalBody", "targetPlatform", "externals"),
    ];
    assert(row_views(r@) =~= legacy_rows());
    r
}

/// Every row of the legacy table names a node and a legacy spelling: neither is empty, so an
/// empty member name is never accepted through a legacy row.
pub proof fn lemma_legacy_rows_are_named()
    ensures
        forall|i: int|
            0 <= i < legacy_rows().len() ==> (#[trigger] legacy_rows()[i]).0.len() > 0 && legacy_rows()[i].1.len() > 0,
{
    reveal_strlit("*");
    reveal_strlit("attrs");
    reveal_strlit("attributes");
    reveal_strlit("Function");
    reveal_strlit("argumentType");
    reveal_strlit("parameterType");
    reveal_strlit("arg");
    reveal_strlit("result");
    reveal_strlit("returnType");
    reveal_strlit("IfThenElse");
    reveal_strlit("thenBranch");
    reveal_strlit("then");
    reveal_strlit("elseBranch");
    reveal_strlit("else");
    reveal_strlit("Field");
    reveal_strlit("subject");
    reveal_strlit("target");
    reveal_strlit("fieldName");
    reveal_strlit("name");
    reveal_strlit("LetDefinition");
    reveal_strlit("valueName");
    reveal_strlit("valueDefinition");
    reveal_strlit("definition");
    reveal_strlit("inValue");
    reveal_strlit("in");
    reveal_strlit("ValueSpecification");
    reveal_strlit("inputs");
    reveal_strlit("inputTypes");
    reveal_strlit("output");
    reveal_strlit("outputType");
    reveal_strlit("ExternalBody");
    reveal_strlit("externalName");
    reveal_strlit("externals");
    reveal_strlit("targetPlatform");
}

/// Whether a row's node column applies to `node`.
pub open spec fn row_applies(row: (Seq<char>, Seq<char>, Seq<char>), node: Seq<char>) -> bool {
    row.0 == node || row.0 == "*"@
}

/// Whether `seen` is a canonical member of `node` in rows `i..`.
pub open spec fn is_canonical_from(
    rows: Seq<(Seq<char>, Seq<char>, Seq<char>)>,
    node: Seq<char>,
    seen: Seq<char>,
    i: int,
) -> bool
    decreases rows.len() - i,
{
    if i >= rows.len() || i < 0 {
        false
    } else {
        (row_applies(rows[i], node) && rows[i].2 == seen) || is_canonical_from(
            rows,
            node,
            seen,
            i + 1,
        )
    }
}

/// The canonical name of the first row from `i` on that spells `seen` as a legacy member
/// of `node`.
pub open spec fn legacy_canonical_from(
    rows: Seq<(Seq<char>, Seq<char>, Seq<char>)>,
    node: Seq<char>,
    seen: Seq<char>,
    i: int,
) -> Option<Seq<char>>
    decreases rows.len() - i,
{
    if i >= rows.len() || i < 0 {
        None
    } else if row_applies(rows[i], node) && rows[i].1 == seen {
        Some(rows[i].2)
    } else {
        legacy_canonical_from(rows, node, seen, i + 1)
    }
}

pub open spec fn unexpected_member_message(seen: Seq<char>) -> Seq<char> {
    "unexpected member "@ + seen
}

/// What [`accept_member`] answers: the canonical member name, or the unknown-member
/// diagnostic's message.
pub open spec fn accepted_member(mode: SpellingMode, node: Seq<char>, seen: Seq<char>) -> Result<
    Seq<char>,
    Seq<char>,
> {
    if is_canonical_from(legacy_rows(), node, seen, 0) {
        Ok(seen)
    } else {
        match legacy_canonical_from(legacy_rows(), node, seen, 0) {
            Some(c) => match mode {
                SpellingMode::Current => Ok(c),
                SpellingMode::Pinned => Err(unexpected_member_message(seen)),
            },
            None => Err(unexpected_member_message(seen)),
        }
    }
}

/// Whether accepting `seen` records a `legacy_spelling` warning.
pub open spec fn records_warning(mode: SpellingMode, node: Seq<char>, seen: Seq<char>) -> bool {
    &&& !is_canonical_from(legacy_rows(), node, seen, 0)
    &&& legacy_canonical_from(legacy_rows(), node, seen, 0) is Some
    &&& mode == SpellingMode::Current
}

fn unexpected_member(seen: &str, cursor: &str) -> (r: Diagnostic)
    ensures
        r.code == DiagnosticCode::UnknownMember,
        r.stage == DiagnosticStage::Normalization,
        r.line is None && r.column is None,
        r.cursor@ == cursor@,
        r.message@ == unexpected_member_message(seen@),
{
    let mut m: Vec<char> = Vec::new();
    push_str_chars(&mut m, "unexpected member ");
    push_str_chars(&mut m, seen);
    Diagnostic::normalization(DiagnosticCode::UnknownMember, cursor, string_of(m.as_slice()))
}

/// The canonical member name for `seen` inside node `node`.
///
/// `seen` is accepted as it is when it already is a canonical member of `node` or of every
/// node. A legacy spelling is accepted under `Current`, recording a `legacy_spelling` warning
/// at `cursor` when the scope collects, and refused under `Pinned`. Anything else is an
/// unknown member.
pub fn accept_member(scope: &mut SpellingScope, node: &str, seen: &str, cursor: &str) -> (r: Result<
    &'static str,
    Diagnostic,
>)
    ensures
        match r {
            Ok(c) => accepted_member(old(scope)@.mode, node@, seen@) == Ok::<
                Seq<char>,
                Seq<char>,
            >(c@),
            Err(d) => accepted_member(old(scope)@.mode, node@, seen@) == Err::<
                Seq<char>,
                Seq<char>,
            >(d.message@) && d.code == DiagnosticCode::UnknownMember && d.cursor@ == cursor@
                && d.stage == DiagnosticStage::Normalization && d.line is None && d.column is None,
        },
        final(scope)@.mode == old(scope)@.mode,
        final(scope)@.collected == if records_warning(old(scope)@.mode, node@, seen@) {
            match old(scope)@.collected {
                Some(w) => Some(
                    w.push(WarningView { code: DiagnosticCode::LegacySpelling, cursor: cursor@ }),
                ),
                None => None,
            }
        } else {
            old(scope)@.collected
        },
{
    let rows = legacy_table();
    let ghost spec_rows = legacy_rows();
    proof {
        reveal_strlit("*");
    }
    let mut i: usize = 0;
    while i < rows.len()
        invariant
            i <= rows.len(),
            row_views(rows@) == spec_rows,
            spec_rows == legacy_rows(),
            scope@ == old(scope)@,
            is_canonical_from(spec_rows, node@, seen@, 0) == is_canonical_from(
                spec_rows,
                node@,
                seen@,
                i as int,
            ),
        decreases rows.len() - i,
    {
        let (candidate, _legacy, canonical) = rows[i];
        assert(spec_rows[i as int] == (candidate@, _legacy@, canonical@));
        if (str_eq(candidate, node) || str_eq(candidate, "*")) && str_eq(canonical, seen) {
            return Ok(canonical);
        }
        i = i + 1;
    }
    let mut j: usize = 0;
    while j < rows.len()
        invariant
            j <= rows.len(),
            row_views(rows@) == spec_rows,
            spec_rows == legacy_rows(),
            scope@ == old(scope)@,
            !is_canonical_from(spec_rows, node@, seen@, 0),
            legacy_canonical_from(spec_rows, node@, seen@, 0) == legacy_canonical_from(
                spec_rows,
                node@,
                seen@,
                j as int,
            ),
        decreases rows.len() - j,
    {
        let (candidate, legacy, canonical) = rows[j];
        assert(spec_rows[j as int] == (candidate@, legacy@, canonical@));
        if (str_eq(candidate, node) || str_eq(candidate, "*")) && str_eq(legacy, seen) {
            match scope.mode {
                SpellingMode::Current => {
                    match &mut scope.collected {
                        Some(collected) => {
                            let ghost before = collected@;
                            let warning = Warning {
                                code: DiagnosticCode::LegacySpelling,
                                cursor: cursor.to_owned(),
                            };
                            collected.push(warning);
                            proof {
                                assert(warning_views(collected@) =~= warning_views(before).push(
                                    warning@,
                                ));
                            }
                        },
                        None => {},
                    }
                    return Ok(canonical);
                },
                SpellingMode::Pinned => {
                    return Err(unexpected_member(seen, cursor));
                },
            }
        }
        j = j + 1;
    }
    Err(unexpected_member(seen, cursor))
}

} // verus!
