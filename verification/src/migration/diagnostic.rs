//! The diagnostics a migration reports, and whether its result may be published.

use vstd::prelude::*;

verus! {

#[derive(Debug, Clone, Copy, PartialEq, Eq, Structural)]
pub enum Severity {
    Warning,
    Error,
}

/// How a migrated v4 document is written.
#[derive(Debug, Clone, Copy, PartialEq, Eq, Structural)]
pub enum V4Encoding {
    Compact,
    Expanded,
}

impl Default for V4Encoding {
    fn default() -> (r: V4Encoding)
        ensures
            r == V4Encoding::Compact,
    {
        V4Encoding::Compact
    }
}

/// Whether a partial result may be published, and how it is written.
#[derive(Debug, Clone, Copy, PartialEq, Eq, Structural)]
pub struct MigrationOptions {
    pub allow_partial: bool,
    pub encoding: V4Encoding,
}

impl Default for MigrationOptions {
    fn default() -> (r: MigrationOptions)
        ensures
            r == (MigrationOptions { allow_partial: false, encoding: V4Encoding::Compact }),
    {
        MigrationOptions { allow_partial: false, encoding: V4Encoding::Compact }
    }
}

/// One thing a migration reports, at the path of the node it is about.
#[derive(Debug, Clone, PartialEq, Eq)]
pub struct MigrationDiagnostic {
    pub severity: Severity,
    pub code: &'static str,
    pub path: String,
    pub message: String,
    pub help: Option<String>,
    pub recoverable: bool,
}

impl MigrationDiagnostic {
    /// An error that blocks publishing.
    pub fn error(code: &'static str, cursor: &str, message: String) -> (r: MigrationDiagnostic)
        ensures
            r.severity == Severity::Error,
            r.code == code,
            r.path@ == cursor@,
            r.message == message,
            r.help is None,
            !r.recoverable,
    {
        MigrationDiagnostic {
            severity: Severity::Error,
            code,
            path: cursor.to_owned(),
            message,
            help: None,
            recoverable: false,
        }
    }

    /// An error that a partial migration may publish past.
    pub fn recoverable(code: &'static str, cursor: &str, message: String) -> (r:
        MigrationDiagnostic)
        ensures
            r.severity == Severity::Error,
            r.code == code,
            r.path@ == cursor@,
            r.message == message,
            r.help is None,
            r.recoverable,
    {
        MigrationDiagnostic {
            severity: Severity::Error,
            code,
            path: cursor.to_owned(),
            message,
            help: None,
            recoverable: true,
        }
    }

    /// A warning.
    pub fn warning(code: &'static str, cursor: &str, message: String) -> (r: MigrationDiagnostic)
        ensures
            r.severity == Severity::Warning,
            r.code == code,
            r.path@ == cursor@,
            r.message == message,
            r.help is None,
            r.recoverable,
    {
        MigrationDiagnostic {
            severity: Severity::Warning,
            code,
            path: cursor.to_owned(),
            message,
            help: None,
            recoverable: true,
        }
    }

    /// The same diagnostic with `help` attached.
    pub fn with_help(self, help: String) -> (r: MigrationDiagnostic)
        ensures
            r == (MigrationDiagnostic { help: Some(help), ..self }),
    {
        let mut out = self;
        out.help = Some(help);
        out
    }
}

/// Whether a diagnostic lets a result be published under `options`: it is no error, or the
/// migration allows a partial result and the error is recoverable.
pub open spec fn publishable(options: MigrationOptions, d: MigrationDiagnostic) -> bool {
    d.severity != Severity::Error || (options.allow_partial && d.recoverable)
}

/// A report's content.
pub struct MigrationReportView {
    pub options: MigrationOptions,
    pub diagnostics: Seq<MigrationDiagnostic>,
}

pub open spec fn all_publishable(options: MigrationOptions, ds: Seq<MigrationDiagnostic>) -> bool {
    forall|i: int| 0 <= i < ds.len() ==> publishable(options, #[trigger] ds[i])
}

pub open spec fn report_publishable(r: MigrationReportView) -> bool {
    all_publishable(r.options, r.diagnostics)
}

/// What a migration reports, in the order it reported it.
#[derive(Debug, Clone)]
pub struct MigrationReport {
    options: MigrationOptions,
    diagnostics: Vec<MigrationDiagnostic>,
}

impl View for MigrationReport {
    type V = MigrationReportView;

    closed spec fn view(&self) -> MigrationReportView {
        MigrationReportView { options: self.options, diagnostics: self.diagnostics@ }
    }
}

impl MigrationReport {
    pub fn new(options: MigrationOptions) -> (r: MigrationReport)
        ensures
            r@.options == options,
            r@.diagnostics == Seq::<MigrationDiagnostic>::empty(),
    {
        MigrationReport { options, diagnostics: Vec::new() }
    }

    pub fn push(&mut self, diagnostic: MigrationDiagnostic)
        ensures
            final(self)@.options == old(self)@.options,
            final(self)@.diagnostics == old(self)@.diagnostics.push(diagnostic),
    {
        self.diagnostics.push(diagnostic);
    }

    pub fn diagnostics(&self) -> (r: &[MigrationDiagnostic])
        ensures
            r@ == self@.diagnostics,
    {
        self.diagnostics.as_slice()
    }

    /// Whether the result may be published: every diagnostic is publishable.
    pub fn can_publish(&self) -> (r: bool)
        ensures
            r == report_publishable(self@),
    {
        let mut i: usize = 0;
        while i < self.diagnostics.len()
            invariant
                i <= self.diagnostics.len(),
                forall|j: int| 0 <= j < i ==> publishable(self.options, #[trigger] self.diagnostics@[j]),
            decreases self.diagnostics.len() - i,
        {
            let d = &self.diagnostics[i];
            if d.severity == Severity::Error && !(self.options.allow_partial && d.recoverable) {
                assert(!publishable(self.options, self.diagnostics@[i as int]));
                assert(!all_publishable(self@.options, self@.diagnostics));
                return false;
            }
            i = i + 1;
        }
        true
    }
}

/// A report with nothing in it can be published.
pub proof fn lemma_empty_report_publishable(options: MigrationOptions)
    ensures
        report_publishable(
            MigrationReportView { options, diagnostics: Seq::<MigrationDiagnostic>::empty() },
        ),
{
}

/// Reporting one more diagnostic keeps a report publishable exactly when that diagnostic
/// is publishable: warnings never block, and an error blocks unless the migration allows a
/// partial result and the error is recoverable.
pub proof fn lemma_push_publishable(r: MigrationReportView, d: MigrationDiagnostic)
    ensures
        report_publishable(MigrationReportView { options: r.options, diagnostics: r.diagnostics.push(d) })
            == (report_publishable(r) && publishable(r.options, d)),
{
    let ds = r.diagnostics;
    let pushed = ds.push(d);
    assert(pushed[ds.len() as int] == d);
    assert forall|i: int| 0 <= i < ds.len() implies #[trigger] pushed[i] == ds[i] by {}
    if all_publishable(r.options, ds) && publishable(r.options, d) {
        assert forall|i: int| 0 <= i < pushed.len() implies publishable(r.options, #[trigger] pushed[i]) by {
            if i < ds.len() {
                assert(pushed[i] == ds[i]);
            }
        }
    }
    if all_publishable(r.options, pushed) {
        assert forall|i: int| 0 <= i < ds.len() implies publishable(r.options, #[trigger] ds[i]) by {
            assert(publishable(r.options, pushed[i]));
        }
        assert(publishable(r.options, pushed[ds.len() as int]));
    }
}

} // verus!
