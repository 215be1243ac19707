//! What a reader says about a document it refuses or accepts with a remark.

use vstd::prelude::*;

verus! {

/// The kind of a diagnostic or warning.
#[derive(Debug, Clone, Copy, PartialEq, Eq, Structural)]
pub enum DiagnosticCode {
    DuplicateFormatVersion,
    DuplicateMember,
    FormatVersionOutOfRange,
    InvalidAccess,
    InvalidDistributionShape,
    InvalidFormatVersionSyntax,
    InvalidFormatVersionType,
    InvalidFqname,
    InvalidLiteral,
    InvalidName,
    InvalidPath,
    InvalidType,
    InvalidYaml,
    LegacySpelling,
    MissingFormatVersion,
    MissingMember,
    NestingTooDeep,
    UnknownMember,
    UnknownNode,
    UnsupportedFormatVersionMajor,
    UnsupportedFormatVersionMinor,
    UnsupportedYamlFeature,
}

/// The stage of reading a document a diagnostic was raised in.
#[derive(Debug, Clone, Copy, PartialEq, Eq, Structural)]
pub enum DiagnosticStage {
    /// Reading the text into a value tree.
    Syntax,
    /// Reading the value tree as a document.
    Normalization,
}

/// A position in the text a document was read from: a line, and a one-based column.
#[derive(Debug, Clone, Copy, PartialEq, Eq, Structural)]
pub struct Mark {
    pub line: u32,
    pub column: u32,
}

/// A refusal: its code, the stage it was raised in, the cursor of the node it is about, a
/// message, and where in the text it was raised when that is known.
#[derive(Debug, Clone, PartialEq, Eq)]
pub struct Diagnostic {
    pub code: DiagnosticCode,
    pub stage: DiagnosticStage,
    pub cursor: String,
    pub message: String,
    pub line: Option<u32>,
    pub column: Option<u32>,
}

/// A diagnostic's content as plain values.
pub struct DiagnosticView {
    pub code: DiagnosticCode,
    pub stage: DiagnosticStage,
    pub cursor: Seq<char>,
    pub message: Seq<char>,
    pub line: Option<u32>,
    pub column: Option<u32>,
}

impl View for Diagnostic {
    type V = DiagnosticView;

    open spec fn view(&self) -> DiagnosticView {
        DiagnosticView {
            code: self.code,
            stage: self.stage,
            cursor: self.cursor@,
            message: self.message@,
            line: self.line,
            column: self.column,
        }
    }
}

impl Diagnostic {
    /// A diagnostic raised while normalizing a document.
    pub fn normalization(code: DiagnosticCode, cursor: &str, message: String) -> (r: Diagnostic)
        ensures
            r.code == code,
            r.stage == DiagnosticStage::Normalization,
            r.cursor@ == cursor@,
            r.message@ == message@,
            r.line is None,
            r.column is None,
    {
        Diagnostic {
            code,
            stage: DiagnosticStage::Normalization,
            cursor: cursor.to_owned(),
            message,
            line: None,
            column: None,
        }
    }

    /// A diagnostic raised while reading text, at `at` when that is known.
    pub fn syntax(code: DiagnosticCode, cursor: &str, message: String, at: Option<Mark>) -> (r: Diagnostic)
        ensures
            r@ == (DiagnosticView {
                code,
                stage: DiagnosticStage::Syntax,
                cursor: cursor@,
                message: message@,
                line: match at {
                    Some(m) => Some(m.line),
                    None => None,
                },
                column: match at {
                    Some(m) => Some(m.column),
                    None => None,
                },
            }),
    {
        let (line, column) = match at {
            Some(m) => (Some(m.line), Some(m.column)),
            None => (None, None),
        };
        Diagnostic { code, stage: DiagnosticStage::Syntax, cursor: cursor.to_owned(), message, line, column }
    }
}

/// A remark on an accepted document: its code and the cursor it is about.
#[derive(Debug, Clone, PartialEq, Eq)]
pub struct Warning {
    pub code: DiagnosticCode,
    pub cursor: String,
}

/// A warning's content as plain values.
pub struct WarningView {
    pub code: DiagnosticCode,
    pub cursor: Seq<char>,
}

impl View for Warning {
    type V = WarningView;

    open spec fn view(&self) -> WarningView {
        WarningView { code: self.code, cursor: self.cursor@ }
    }
}

pub open spec fn warning_views(v: Seq<Warning>) -> Seq<WarningView> {
    v.map_values(|w: Warning| w@)
}

} // verus!
