//! The source panel's decisions: what a message does, when to retry
//! mounting the editor, what the editor must be told, and how diagnostics are
//! summed up and shown.
use vstd::prelude::*;
use vstd::string::StringExecFns;

use crate::diagnostics::{copy_diagnostics, diagnostics_equal, diags_view, Diagnostic, SDiagnostic, Severity, Span};
use crate::text::{decimal, usize_to_string};
use crate::workbench::{count_errors, error_count, lemma_count_errors_bound};

verus! {

/// How many times the panel tries again to mount the editor.
pub const MAX_MOUNT_ATTEMPTS: u8 = 40;

/// The delay before another try, in milliseconds.
pub const RETRY_DELAY_MS: u32 = 50;

/// A message to the source panel.
#[derive(Debug)]
pub enum Msg {
    Changed(String),
    Apply,
    RetryEditor,
}

/// What the panel asks of the application.
#[derive(Debug)]
pub enum SourceAction {
    SetSource(String),
    ApplySource,
}

/// The source panel state that its decisions read: whether a retry is
/// pending, how many mount attempts were made, and the source and
/// diagnostics last handed to the editor.
#[derive(Debug)]
pub struct SourcePanel {
    pub retry_pending: bool,
    pub mount_attempts: u8,
    pub last_source: String,
    pub last_diagnostics: Vec<Diagnostic>,
}

impl SourcePanel {
    /// A panel that has handed the editor the given source and no diagnostics.
    pub fn create(source: String) -> (r: SourcePanel)
        ensures
            !r.retry_pending,
            r.mount_attempts == 0,
            r.last_source@ == source@,
            r.last_diagnostics@.len() == 0,
    {
        SourcePanel { retry_pending: false, mount_attempts: 0, last_source: source, last_diagnostics: Vec::new() }
    }

    /// Handles a message: an edit is passed on as the new source, applying is
    /// passed on, and the retry timer firing clears the pending retry and
    /// renders again.
    pub fn update(&mut self, msg: Msg) -> (r: (bool, Option<SourceAction>))
        ensures
            match msg {
                Msg::Changed(s) => !r.0 && (r.1 matches Some(SourceAction::SetSource(t)) && t@ == s@)
                    && final(self).retry_pending == old(self).retry_pending,
                Msg::Apply => !r.0 && (r.1 matches Some(SourceAction::ApplySource)) && final(self).retry_pending
                    == old(self).retry_pending,
                Msg::RetryEditor => r.0 && r.1 is None && !final(self).retry_pending,
            },
            final(self).mount_attempts == old(self).mount_attempts,
            final(self).last_source == old(self).last_source,
    {
        match msg {
            Msg::Changed(s) => (false, Some(SourceAction::SetSource(s))),
            Msg::Apply => (false, Some(SourceAction::ApplySource)),
            Msg::RetryEditor => {
                self.retry_pending = false;
                (true, None)
            },
        }
    }

    /// Decides whether to start a retry timer: not while one is pending nor
    /// after the last attempt; otherwise one more attempt is counted and the
    /// retry is pending.
    pub fn schedule_retry(&mut self) -> (r: bool)
        ensures
            r == (!old(self).retry_pending && old(self).mount_attempts < MAX_MOUNT_ATTEMPTS),
            r ==> final(self).mount_attempts == old(self).mount_attempts + 1 && final(self).retry_pending,
            !r ==> final(self).mount_attempts == old(self).mount_attempts && final(self).retry_pending
                == old(self).retry_pending,
            final(self).last_source == old(self).last_source,
    {
        if self.retry_pending || self.mount_attempts >= MAX_MOUNT_ATTEMPTS {
            return false;
        }
        self.mount_attempts = self.mount_attempts + 1;
        self.retry_pending = true;
        true
    }

    /// The editor was mounted: the attempts start again from zero.
    pub fn mounted(&mut self)
        ensures
            final(self).mount_attempts == 0,
            final(self).retry_pending == old(self).retry_pending,
            final(self).last_source == old(self).last_source,
    {
        self.mount_attempts = 0;
    }

    /// What a render does before it touches the editor: an editor whose host
    /// element was emptied is destroyed, and a panel without an editor (or
    /// whose editor was just destroyed) must mount one. The result is
    /// `(destroy, mount)`.
    pub fn before_mount(editor_present: bool, host_empty: bool) -> (r: (bool, bool))
        ensures
            r.0 == (editor_present && host_empty),
            r.1 == (!editor_present || host_empty),
    {
        let destroy = editor_present && host_empty;
        (destroy, !editor_present || destroy)
    }

    /// What a render tells a mounted editor: the source when it differs from
    /// the one last handed over, and the diagnostics when they differ from the
    /// last ones. Both are recorded. The result is `(set_source, set_diagnostics)`.
    pub fn sync(&mut self, source: &str, diagnostics: &Vec<Diagnostic>) -> (r: (bool, bool))
        ensures
            r.0 == (old(self).last_source@ != source@),
            r.1 == (diags_view(old(self).last_diagnostics@) != diags_view(diagnostics@)),
            final(self).last_source@ == source@,
            diags_view(final(self).last_diagnostics@) == diags_view(diagnostics@),
            final(self).mount_attempts == old(self).mount_attempts,
            final(self).retry_pending == old(self).retry_pending,
    {
        let set_source = self.source_changed(source);
        let set_diagnostics = !diagnostics_equal(&self.last_diagnostics, diagnostics);
        if set_diagnostics {
            self.last_diagnostics = copy_diagnostics(diagnostics);
        }
        (set_source, set_diagnostics)
    }

    /// The panel is taken down: no retry stays pending.
    pub fn destroy(&mut self)
        ensures
            !final(self).retry_pending,
            final(self).mount_attempts == old(self).mount_attempts,
            final(self).last_source == old(self).last_source,
    {
        self.retry_pending = false;
    }

    /// Whether the editor must be given a new source; the panel then records it.
    pub fn source_changed(&mut self, source: &str) -> (r: bool)
        ensures
            r == (old(self).last_source@ != source@),
            final(self).last_source@ == source@,
            final(self).mount_attempts == old(self).mount_attempts,
            final(self).retry_pending == old(self).retry_pending,
            final(self).last_diagnostics == old(self).last_diagnostics,
    {
        if crate::text::str_eq(self.last_source.as_str(), source) {
            false
        } else {
            self.last_source = String::from_str(source);
            true
        }
    }
}

/// The numbers of errors and of other diagnostics.
pub fn diagnostic_counts(diags: &Vec<Diagnostic>) -> (r: (usize, usize))
    ensures
        r.0 == count_errors(diags_view(diags@)),
        r.0 + r.1 == diags@.len(),
{
    let errors = error_count(diags);
    proof {
        lemma_count_errors_bound(diags_view(diags@));
    }
    let warnings = diags.len() - errors;
    (errors, warnings)
}

/// The text summing up the diagnostics: `{errors} errors / {warnings} warnings`.
pub fn summary_text(errors: usize, warnings: usize) -> (r: String)
    ensures
        r@ == decimal(errors as nat) + " errors / "@ + decimal(warnings as nat) + " warnings"@,
{
    let s = usize_to_string(errors);
    let s = s.concat(" errors / ");
    let s = s.concat(usize_to_string(warnings).as_str());
    s.concat(" warnings")
}

/// The style class of a diagnostic in the list.
pub fn diagnostic_class(severity: Severity) -> (r: &'static str)
    ensures
        r@ == match severity {
            Severity::Error => "diagnostics__item diagnostics__item--error"@,
            Severity::Warning => "diagnostics__item diagnostics__item--warning"@,
        },
{
    match severity {
        Severity::Error => "diagnostics__item diagnostics__item--error",
        Severity::Warning => "diagnostics__item diagnostics__item--warning",
    }
}

/// The text of a symbol's dimension: `{dimension}D`.
pub fn dimension_text(dimension: usize) -> (r: String)
    ensures
        r@ == decimal(dimension as nat) + "D"@,
{
    usize_to_string(dimension).concat("D")
}

/// The text of a span: `{start}..{end}`.
pub fn span_text(span: Span) -> (r: String)
    ensures
        r@ == decimal(span.start as nat) + ".."@ + decimal(span.end as nat),
{
    let s = usize_to_string(span.start);
    let s = s.concat("..");
    s.concat(usize_to_string(span.end).as_str())
}

} // verus!
