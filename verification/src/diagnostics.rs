//! Source positions and the diagnostics reported against them.
use vstd::prelude::*;
use vstd::string::StringExecFns;

verus! {

/// A half-open byte range `start..end` in the source text.
#[derive(Debug, Clone, Copy, PartialEq, Eq, Structural)]
pub struct Span {
    pub start: usize,
    pub end: usize,
}

impl Span {
    /// The span `start..end`.
    pub fn new(start: usize, end: usize) -> (r: Span)
        ensures
            r == (Span { start, end }),
    {
        Span { start, end }
    }

    /// The span from the start of `self` to the end of `other`.
    pub fn join(self, other: Span) -> (r: Span)
        ensures
            r == span_join(self, other),
    {
        Span { start: self.start, end: other.end }
    }
}

pub open spec fn span_join(a: Span, b: Span) -> Span {
    Span { start: a.start, end: b.end }
}

/// How serious a diagnostic is.
#[derive(Debug, Clone, Copy, PartialEq, Eq, Structural)]
pub enum Severity {
    Error,
    Warning,
}

/// A message attached to a span of the source.
#[derive(Debug, PartialEq, Eq)]
pub struct Diagnostic {
    pub severity: Severity,
    pub message: String,
    pub span: Span,
}

/// The mathematical content of a diagnostic.
pub struct SDiagnostic {
    pub severity: Severity,
    pub message: Seq<char>,
    pub span: Span,
}

impl View for Diagnostic {
    type V = SDiagnostic;

    open spec fn view(&self) -> SDiagnostic {
        SDiagnostic { severity: self.severity, message: self.message@, span: self.span }
    }
}

pub open spec fn error_diag(message: Seq<char>, span: Span) -> SDiagnostic {
    SDiagnostic { severity: Severity::Error, message, span }
}

pub open spec fn diags_view(v: Seq<Diagnostic>) -> Seq<SDiagnostic> {
    Seq::new(v.len(), |i: int| v[i]@)
}

pub proof fn lemma_diags_view_push(v: Seq<Diagnostic>, d: Diagnostic)
    ensures
        diags_view(v.push(d)) == diags_view(v).push(d@),
{
    assert(diags_view(v.push(d)) =~= diags_view(v).push(d@));
}

/// Whether any diagnostic in the list is an error.
pub open spec fn has_error(v: Seq<SDiagnostic>) -> bool {
    exists|i: int| 0 <= i < v.len() && v[i].severity == Severity::Error
}

impl Diagnostic {
    /// An error diagnostic with the given message.
    pub fn error(message: String, span: Span) -> (r: Diagnostic)
        ensures
            r@ == error_diag(message@, span),
    {
        Diagnostic { severity: Severity::Error, message, span }
    }

    /// An error diagnostic whose message is a fixed text.
    pub fn error_text(message: &str, span: Span) -> (r: Diagnostic)
        ensures
            r@ == error_diag(message@, span),
    {
        Diagnostic { severity: Severity::Error, message: String::from_str(message), span }
    }

    /// A copy of this diagnostic.
    pub fn copy(&self) -> (r: Diagnostic)
        ensures
            r@ == self@,
    {
        Diagnostic { severity: self.severity, message: self.message.clone(), span: self.span }
    }
}

/// Whether any diagnostic in the list is an error.
pub fn any_error(v: &Vec<Diagnostic>) -> (r: bool)
    ensures
        r == has_error(diags_view(v@)),
{
    let mut i: usize = 0;
    while i < v.len()
        invariant
            i <= v@.len(),
            forall|j: int| 0 <= j < i ==> v@[j].severity != Severity::Error,
        decreases v@.len() - i,
    {
        if v[i].severity == Severity::Error {
            assert(diags_view(v@)[i as int].severity == Severity::Error);
            return true;
        }
        i = i + 1;
    }
    assert forall|j: int| 0 <= j < v@.len() implies diags_view(v@)[j].severity != Severity::Error by {}
    false
}


/// Copies of the diagnostics.
pub fn copy_diagnostics(v: &Vec<Diagnostic>) -> (r: Vec<Diagnostic>)
    ensures
        diags_view(r@) == diags_view(v@),
{
    let mut out: Vec<Diagnostic> = Vec::new();
    let mut i: usize = 0;
    while i < v.len()
        invariant
            i <= v@.len(),
            diags_view(out@) == diags_view(v@).subrange(0, i as int),
        decreases v@.len() - i,
    {
        let d = v[i].copy();
        proof {
            lemma_diags_view_push(out@, d);
        }
        out.push(d);
        assert(diags_view(out@) =~= diags_view(v@).subrange(0, i + 1));
        i = i + 1;
    }
    assert(diags_view(v@).subrange(0, i as int) =~= diags_view(v@));
    out
}

/// Whether two lists hold the same diagnostics.
pub fn diagnostics_equal(a: &Vec<Diagnostic>, b: &Vec<Diagnostic>) -> (r: bool)
    ensures
        r == (diags_view(a@) == diags_view(b@)),
{
    if a.len() != b.len() {
        assert(diags_view(a@).len() != diags_view(b@).len());
        return false;
    }
    let mut i: usize = 0;
    while i < a.len()
        invariant
            i <= a@.len() == b@.len(),
            forall|j: int| 0 <= j < i ==> a@[j]@ == b@[j]@,
        decreases a@.len() - i,
    {
        let x = &a[i];
        let y = &b[i];
        if x.severity != y.severity || x.span != y.span || !crate::text::str_eq(x.message.as_str(), y.message.as_str()) {
            assert(diags_view(a@)[i as int] != diags_view(b@)[i as int]);
            return false;
        }
        i = i + 1;
    }
    assert(diags_view(a@) =~= diags_view(b@));
    true
}

} // verus!
