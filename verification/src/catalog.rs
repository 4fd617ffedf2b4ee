//! Validating community presets and building the community catalog: a
//! preset's identifier must be a lowercase slug naming its folder, its
//! program must compile to valid diagrams, and the axioms and constructed
//! symbols it declares must be exactly those its program produces.
use vstd::prelude::*;
use vstd::string::StringExecFns;
use vstd::string::StringSliceAdditionalSpecFns;
use vstd::string::StrSliceExecFns;

use crate::community::CommunityPreset;
use crate::compiler::sig_view;
use crate::diagnostics::{diags_view, has_error, Diagnostic, SDiagnostic, Severity};
use crate::diagram::wf;
use crate::program::{compile, CompileOptions, CompileResult};
use crate::text::{
    bytes_lt, concat3, decimal, push_char, sort_dedup, str_eq, strictly_sorted, text_lt, texts,
    usize_to_string, utf8,
};

verus! {

// ---------------------------------------------------------------------------
// Identifiers.

/// A byte allowed in a slug: a lowercase ASCII letter, a digit or `-`.
pub open spec fn slug_byte(b: u8) -> bool {
    (97 <= b <= 122) || (48 <= b <= 57) || b == 45
}

/// A lowercase slug: not empty, made of slug bytes, with no `-` at either
/// end and no two `-` in a row.
pub open spec fn is_slug_bytes(s: Seq<u8>) -> bool {
    &&& s.len() > 0
    &&& forall|i: int| 0 <= i < s.len() ==> slug_byte(#[trigger] s[i])
    &&& s[0] != 45
    &&& s[s.len() - 1] != 45
    &&& forall|i: int| 0 <= i < s.len() - 1 ==> !(#[trigger] s[i] == 45 && s[i + 1] == 45)
}

/// Slugs are lowercase words joined by single dashes: a nonempty run of
/// lowercase letters and digits is a slug; two slugs joined by one `-` give
/// a slug; no slug holds an uppercase letter, a space or an underscore, or
/// starts with `-`.
pub proof fn lemma_slug_words(w: Seq<u8>, a: Seq<u8>, b: Seq<u8>)
    ensures
        w.len() > 0 && (forall|i: int| 0 <= i < w.len() ==> (97 <= #[trigger] w[i] <= 122) || (48 <= w[i] <= 57))
            ==> is_slug_bytes(w),
        is_slug_bytes(a) && is_slug_bytes(b) ==> is_slug_bytes(a + seq![45u8] + b),
        is_slug_bytes(a) ==> forall|i: int|
            0 <= i < a.len() ==> !(65 <= #[trigger] a[i] <= 90) && a[i] != 32 && a[i] != 95,
        is_slug_bytes(a) ==> a[0] != 45,
{
    if is_slug_bytes(a) && is_slug_bytes(b) {
        let j = a + seq![45u8] + b;
        let n = a.len() as int;
        assert forall|i: int| 0 <= i < j.len() implies slug_byte(#[trigger] j[i]) by {
            if i < n {
                assert(j[i] == a[i]);
            } else if i > n {
                assert(j[i] == b[i - n - 1]);
            }
        }
        assert forall|i: int| 0 <= i < j.len() - 1 implies !(#[trigger] j[i] == 45 && j[i + 1] == 45) by {
            if i < n - 1 {
                assert(j[i] == a[i] && j[i + 1] == a[i + 1]);
            } else if i == n - 1 {
                assert(j[i] == a[n - 1]);
            } else if i == n {
                assert(j[i + 1] == b[0]);
            } else {
                assert(j[i] == b[i - n - 1] && j[i + 1] == b[i - n]);
            }
        }
        assert(j[0] == a[0]);
        assert(j[j.len() - 1] == b[b.len() - 1]);
    }
}

/// Whether `id` is a lowercase slug (see `is_slug_bytes`).
pub fn is_slug(id: &str) -> (r: bool)
    ensures
        r == is_slug_bytes(id.spec_bytes()),
{
    let b = id.as_bytes();
    let n = b.len();
    if n == 0 {
        return false;
    }
    if b[0] == 45 || b[n - 1] == 45 {
        return false;
    }
    let mut i: usize = 0;
    while i < n
        invariant
            i <= n == b@.len(),
            b@ == id.spec_bytes(),
            forall|j: int| 0 <= j < i ==> slug_byte(#[trigger] b@[j]),
            forall|j: int| 0 <= j < i && j < n - 1 ==> !(#[trigger] b@[j] == 45 && b@[j + 1] == 45),
        decreases n - i,
    {
        let c = b[i];
        if !((97 <= c && c <= 122) || (48 <= c && c <= 57) || c == 45) {
            assert(!slug_byte(b@[i as int]));
            return false;
        }
        if i + 1 < n && c == 45 && b[i + 1] == 45 {
            return false;
        }
        i = i + 1;
    }
    true
}

// ---------------------------------------------------------------------------
// Rendering values in messages.

/// A character as it is written inside a quoted string: `"`, `\` and the
/// line breaks and tabs are escaped.
pub open spec fn escape_char(c: char) -> Seq<char> {
    if c == '"' {
        seq!['\\', '"']
    } else if c == '\\' {
        seq!['\\', '\\']
    } else if c == '\n' {
        seq!['\\', 'n']
    } else if c == '\r' {
        seq!['\\', 'r']
    } else if c == '\t' {
        seq!['\\', 't']
    } else {
        seq![c]
    }
}

pub open spec fn escaped(s: Seq<char>) -> Seq<char>
    decreases s.len(),
{
    if s.len() == 0 {
        seq![]
    } else {
        escaped(s.drop_last()) + escape_char(s.last())
    }
}

/// A text in double quotes, escaped.
pub open spec fn quoted(s: Seq<char>) -> Seq<char> {
    seq!['"'] + escaped(s) + seq!['"']
}

/// Items separated by `, `.
pub open spec fn joined(items: Seq<Seq<char>>) -> Seq<char>
    decreases items.len(),
{
    if items.len() == 0 {
        seq![]
    } else if items.len() == 1 {
        items[0]
    } else {
        joined(items.drop_last()) + ", "@ + items.last()
    }
}

/// A set of names as `{"a", "b"}`.
pub open spec fn set_text(names: Seq<Seq<char>>) -> Seq<char> {
    "{"@ + joined(Seq::new(names.len(), |i: int| quoted(names[i]))) + "}"@
}

pub open spec fn severity_text(s: Severity) -> Seq<char> {
    match s {
        Severity::Error => "Error"@,
        Severity::Warning => "Warning"@,
    }
}

/// A diagnostic written out with its fields.
pub open spec fn diagnostic_text(d: SDiagnostic) -> Seq<char> {
    "Diagnostic { severity: "@ + severity_text(d.severity) + ", message: "@ + quoted(d.message) + ", span: Span { start: "@
        + decimal(d.span.start as nat) + ", end: "@ + decimal(d.span.end as nat) + " } }"@
}

/// A list of diagnostics as `[...]`.
pub open spec fn diagnostics_text(ds: Seq<SDiagnostic>) -> Seq<char> {
    "["@ + joined(Seq::new(ds.len(), |i: int| diagnostic_text(ds[i]))) + "]"@
}

fn push_str(out: &mut String, s: &str)
    ensures
        final(out)@ == old(out)@ + s@,
{
    out.append(s);
}

/// Appends `s` escaped (see `escaped`).
pub fn push_escaped(out: &mut String, s: &str)
    ensures
        final(out)@ == old(out)@ + escaped(s@),
{
    let n = s.unicode_len();
    let mut i: usize = 0;
    assert(s@.subrange(0, 0) =~= Seq::<char>::empty());
    while i < n
        invariant
            i <= n == s@.len(),
            out@ == old(out)@ + escaped(s@.subrange(0, i as int)),
        decreases n - i,
    {
        let c = s.get_char(i);
        assert(s@.subrange(0, i + 1).drop_last() =~= s@.subrange(0, i as int));
        let ghost before = out@;
        if c == '"' {
            push_char(out, '\\');
            push_char(out, '"');
        } else if c == '\\' {
            push_char(out, '\\');
            push_char(out, '\\');
        } else if c == '\n' {
            push_char(out, '\\');
            push_char(out, 'n');
        } else if c == '\r' {
            push_char(out, '\\');
            push_char(out, 'r');
        } else if c == '\t' {
            push_char(out, '\\');
            push_char(out, 't');
        } else {
            push_char(out, c);
        }
        assert(out@ =~= before + escape_char(c));
        assert(out@ =~= old(out)@ + escaped(s@.subrange(0, i + 1)));
        i = i + 1;
    }
    assert(s@.subrange(0, i as int) =~= s@);
}

/// Appends `s` quoted (see `quoted`).
pub fn push_quoted(out: &mut String, s: &str)
    ensures
        final(out)@ == old(out)@ + quoted(s@),
{
    push_char(out, '"');
    push_escaped(out, s);
    push_char(out, '"');
    assert(out@ =~= old(out)@ + quoted(s@));
}

/// A set of names as `{"a", "b"}` (see `set_text`).
pub fn names_text(names: &Vec<String>) -> (r: String)
    ensures
        r@ == set_text(texts(names@)),
{
    let ghost items = Seq::new(texts(names@).len(), |i: int| quoted(texts(names@)[i]));
    let mut out = String::from_str("{");
    let mut i: usize = 0;
    while i < names.len()
        invariant
            i <= names@.len(),
            items.len() == names@.len(),
            forall|j: int| 0 <= j < names@.len() ==> #[trigger] items[j] == quoted(names@[j]@),
            out@ == "{"@ + joined(items.subrange(0, i as int)),
        decreases names@.len() - i,
    {
        let ghost before = out@;
        assert(items.subrange(0, i + 1).drop_last() =~= items.subrange(0, i as int));
        if i > 0 {
            push_str(&mut out, ", ");
        }
        push_quoted(&mut out, names[i].as_str());
        assert(out@ =~= "{"@ + joined(items.subrange(0, i + 1)));
        i = i + 1;
    }
    assert(items.subrange(0, i as int) =~= items);
    push_str(&mut out, "}");
    out
}

/// Appends a diagnostic written out (see `diagnostic_text`).
pub fn push_diagnostic(out: &mut String, d: &Diagnostic)
    ensures
        final(out)@ == old(out)@ + diagnostic_text(d@),
{
    push_str(out, "Diagnostic { severity: ");
    match d.severity {
        Severity::Error => push_str(out, "Error"),
        Severity::Warning => push_str(out, "Warning"),
    }
    push_str(out, ", message: ");
    push_quoted(out, d.message.as_str());
    push_str(out, ", span: Span { start: ");
    push_str(out, usize_to_string(d.span.start).as_str());
    push_str(out, ", end: ");
    push_str(out, usize_to_string(d.span.end).as_str());
    push_str(out, " } }");
    assert(out@ =~= old(out)@ + diagnostic_text(d@));
}

/// A list of diagnostics written out (see `diagnostics_text`).
pub fn diagnostics_debug_text(ds: &Vec<Diagnostic>) -> (r: String)
    ensures
        r@ == diagnostics_text(diags_view(ds@)),
{
    let ghost dv = diags_view(ds@);
    let ghost items = Seq::new(dv.len(), |i: int| diagnostic_text(dv[i]));
    let mut out = String::from_str("[");
    let mut i: usize = 0;
    while i < ds.len()
        invariant
            i <= ds@.len(),
            dv == diags_view(ds@),
            items.len() == ds@.len(),
            forall|j: int| 0 <= j < ds@.len() ==> #[trigger] items[j] == diagnostic_text(dv[j]),
            out@ == "["@ + joined(items.subrange(0, i as int)),
        decreases ds@.len() - i,
    {
        assert(items.subrange(0, i + 1).drop_last() =~= items.subrange(0, i as int));
        if i > 0 {
            push_str(&mut out, ", ");
        }
        push_diagnostic(&mut out, &ds[i]);
        assert(out@ =~= "["@ + joined(items.subrange(0, i + 1)));
        i = i + 1;
    }
    assert(items.subrange(0, i as int) =~= items);
    push_str(&mut out, "]");
    out
}

// ---------------------------------------------------------------------------
// Validation.

/// The metadata file of a community preset, as read from its folder.
#[derive(Debug)]
pub struct PresetMetadata {
    pub id: String,
    pub title: String,
    pub category: String,
    pub description: String,
    pub author: String,
    pub license: String,
    pub min_app_version: String,
    pub tags: Vec<String>,
    pub axioms: Vec<String>,
    pub constructed: Vec<String>,
    pub source: String,
    pub didactic: String,
    pub proof: Option<String>,
}

/// Why a community preset was refused.
#[derive(Debug)]
pub enum CatalogError {
    IdMismatch { id: String, folder: String },
    NotSlug { id: String },
    DidNotCompile { id: String, diagnostics: Vec<Diagnostic> },
    SignatureInvalid { id: String, name: String },
    WorkspaceInvalid { id: String },
    AxiomsMismatch { id: String, declared: Vec<String>, compiled: Vec<String> },
    ConstructedMismatch { id: String, declared: Vec<String>, compiled: Vec<String> },
}

/// The message of a refusal.
pub open spec fn error_text(e: CatalogError) -> Seq<char> {
    match e {
        CatalogError::IdMismatch { id, folder } => "preset `"@ + id@ + "` id does not match folder `"@ + folder@
            + "`"@,
        CatalogError::NotSlug { id } => "preset id `"@ + id@ + "` is not a lowercase slug"@,
        CatalogError::DidNotCompile { id, diagnostics } => "preset `"@ + id@ + "` did not compile: "@
            + diagnostics_text(diags_view(diagnostics@)),
        CatalogError::SignatureInvalid { id, name } => "preset `"@ + id@ + "` signature item `"@ + name@
            + "` failed validation: Malformed"@,
        CatalogError::WorkspaceInvalid { id } => "preset `"@ + id@ + "` workspace failed validation: Malformed"@,
        CatalogError::AxiomsMismatch { id, declared, compiled } => "preset `"@ + id@ + "` declared axioms "@
            + set_text(texts(declared@)) + ", but compiled axioms are "@ + set_text(texts(compiled@)),
        CatalogError::ConstructedMismatch { id, declared, compiled } => "preset `"@ + id@
            + "` declared constructed symbols "@ + set_text(texts(declared@))
            + ", but compiled constructed symbols are "@ + set_text(texts(compiled@)),
    }
}

impl CatalogError {
    /// The message of the refusal (see `error_text`).
    pub fn message(&self) -> (r: String)
        ensures
            r@ == error_text(*self),
    {
        match self {
            CatalogError::IdMismatch { id, folder } => {
                let s = concat3("preset `", id.as_str(), "` id does not match folder `");
                let s = s.concat(folder.as_str());
                s.concat("`")
            },
            CatalogError::NotSlug { id } => concat3("preset id `", id.as_str(), "` is not a lowercase slug"),
            CatalogError::DidNotCompile { id, diagnostics } => {
                let s = concat3("preset `", id.as_str(), "` did not compile: ");
                s.concat(diagnostics_debug_text(diagnostics).as_str())
            },
            CatalogError::SignatureInvalid { id, name } => {
                let s = concat3("preset `", id.as_str(), "` signature item `");
                let s = s.concat(name.as_str());
                s.concat("` failed validation: Malformed")
            },
            CatalogError::WorkspaceInvalid { id } => concat3(
                "preset `",
                id.as_str(),
                "` workspace failed validation: Malformed",
            ),
            CatalogError::AxiomsMismatch { id, declared, compiled } => {
                let s = concat3("preset `", id.as_str(), "` declared axioms ");
                let s = s.concat(names_text(declared).as_str());
                let s = s.concat(", but compiled axioms are ");
                s.concat(names_text(compiled).as_str())
            },
            CatalogError::ConstructedMismatch { id, declared, compiled } => {
                let s = concat3("preset `", id.as_str(), "` declared constructed symbols ");
                let s = s.concat(names_text(declared).as_str());
                let s = s.concat(", but compiled constructed symbols are ");
                s.concat(names_text(compiled).as_str())
            },
        }
    }
}

/// The same texts in the same order.
pub open spec fn same_texts(a: Seq<String>, b: Seq<String>) -> bool {
    texts(a) == texts(b)
}

fn texts_equal(a: &Vec<String>, b: &Vec<String>) -> (r: bool)
    ensures
        r == same_texts(a@, b@),
{
    if a.len() != b.len() {
        assert(texts(a@).len() != texts(b@).len());
        return false;
    }
    let mut i: usize = 0;
    while i < a.len()
        invariant
            i <= a@.len() == b@.len(),
            forall|j: int| 0 <= j < i ==> a@[j]@ == b@[j]@,
        decreases a@.len() - i,
    {
        if !str_eq(a[i].as_str(), b[i].as_str()) {
            assert(texts(a@)[i as int] != texts(b@)[i as int]);
            return false;
        }
        i = i + 1;
    }
    assert(texts(a@) =~= texts(b@));
    true
}

/// The names of the signature entries.
pub open spec fn signature_names(p: crate::compiler::ProofState) -> Seq<Seq<char>> {
    Seq::new(p.signature@.len(), |i: int| p.signature@[i].name@)
}

/// Whether a name is not among `names`.
pub open spec fn outside(names: Seq<Seq<char>>) -> spec_fn(Seq<char>) -> bool {
    |n: Seq<char>| !names.contains(n)
}

/// The names of the symbols that are not signature entries.
pub open spec fn constructed_names(r: CompileResult, axioms: Seq<Seq<char>>) -> Seq<Seq<char>> {
    Seq::new(r.symbols@.len(), |i: int| r.symbols@[i].name@).filter(outside(axioms))
}

/// The first signature entry, from `i` on, whose diagram is not well formed.
pub open spec fn first_invalid(p: crate::compiler::ProofState, i: int) -> Option<int>
    decreases p.signature@.len() - i,
{
    if i < 0 || i >= p.signature@.len() {
        None
    } else if !wf(p.signature@[i].diagram@) {
        Some(i)
    } else {
        first_invalid(p, i + 1)
    }
}

/// Whether the texts of `v`, as a set, are those of `s`.
pub open spec fn same_set(v: Seq<Seq<char>>, s: Seq<Seq<char>>) -> bool {
    forall|x: Seq<char>| v.contains(x) <==> s.contains(x)
}

/// What checking a compiled preset gives: the first failed check, in the
/// order compile, signature entries, workspace, axioms, constructed symbols.
pub open spec fn compiled_ok(id: Seq<char>, r: CompileResult, axioms: Seq<Seq<char>>, constructed: Seq<Seq<char>>) -> bool {
    &&& !has_error(diags_view(r.diagnostics@))
    &&& r.proof matches Some(p) && {
        &&& first_invalid(p, 0) is None
        &&& (p.workspace matches Some(w) ==> wf(w.diagram@))
        &&& same_set(signature_names(p), axioms)
        &&& same_set(constructed_names(r, signature_names(p)), constructed)
    }
}

/// The refusal of a compiled preset: the first failed check, in the order
/// compile, signature entries, workspace, axioms, constructed symbols, with
/// what it reports.
pub open spec fn refusal(meta: PresetMetadata, result: CompileResult, e: CatalogError) -> bool {
    let compiled = !has_error(diags_view(result.diagnostics@)) && result.proof is Some;
    let p = result.proof.unwrap();
    let entries_ok = compiled && first_invalid(p, 0) is None;
    let workspace_ok = entries_ok && (p.workspace matches Some(w) ==> wf(w.diagram@));
    let axioms_ok = workspace_ok && same_set(signature_names(p), texts(meta.axioms@));
    match e {
        CatalogError::DidNotCompile { id, diagnostics } => id@ == meta.id@ && diags_view(diagnostics@) == diags_view(
            result.diagnostics@,
        ) && !compiled,
        CatalogError::SignatureInvalid { id, name } => id@ == meta.id@ && compiled && (first_invalid(p, 0) matches Some(
            k,
        ) && name@ == p.signature@[k].name@),
        CatalogError::WorkspaceInvalid { id } => id@ == meta.id@ && entries_ok && !workspace_ok,
        CatalogError::AxiomsMismatch { id, declared, compiled: names } => id@ == meta.id@ && workspace_ok
            && !axioms_ok && strictly_sorted(texts(declared@)) && strictly_sorted(texts(names@)) && same_set(
            texts(declared@),
            texts(meta.axioms@),
        ) && same_set(texts(names@), signature_names(p)),
        CatalogError::ConstructedMismatch { id, declared, compiled: names } => id@ == meta.id@ && axioms_ok
            && !same_set(constructed_names(result, signature_names(p)), texts(meta.constructed@)) && strictly_sorted(
            texts(declared@),
        ) && strictly_sorted(texts(names@)) && same_set(texts(declared@), texts(meta.constructed@)) && same_set(
            texts(names@),
            constructed_names(result, signature_names(p)),
        ),
        _ => false,
    }
}

/// Checks a compiled preset against its metadata (see `compiled_ok`); a
/// refusal names the first check that failed.
#[verifier::rlimit(60)]
pub fn check_compiled(meta: &PresetMetadata, result: &CompileResult) -> (r: Result<(), CatalogError>)
    ensures
        r is Ok <==> compiled_ok(meta.id@, *result, texts(meta.axioms@), texts(meta.constructed@)),
        r matches Err(e) ==> refusal(*meta, *result, e),
{
    if !result.is_ok() {
        let ds = crate::diagnostics::copy_diagnostics(&result.diagnostics);
        return Err(CatalogError::DidNotCompile { id: meta.id.clone(), diagnostics: ds });
    }
    let compiled = &result.proof;
    let state = match compiled {
        Some(p) => p,
        None => {
            return Err(CatalogError::DidNotCompile { id: meta.id.clone(), diagnostics: crate::diagnostics::copy_diagnostics(&result.diagnostics) });
        },
    };
    let mut i: usize = 0;
    while i < state.signature.len()
        invariant
            i <= state.signature@.len(),
            result.proof == Some(*state),
            !has_error(diags_view(result.diagnostics@)),
            first_invalid(*state, i as int) == first_invalid(*state, 0),
        decreases state.signature@.len() - i,
    {
        if state.signature[i].diagram.check(true).is_err() {
            assert(first_invalid(*state, i as int) == Some(i as int));
            return Err(CatalogError::SignatureInvalid { id: meta.id.clone(), name: state.signature[i].name.clone() });
        }
        i = i + 1;
    }
    match &state.workspace {
        Some(w) => {
            if w.diagram.check(true).is_err() {
                return Err(CatalogError::WorkspaceInvalid { id: meta.id.clone() });
            }
        },
        None => {},
    }
    let mut names: Vec<String> = Vec::new();
    let mut i: usize = 0;
    while i < state.signature.len()
        invariant
            i <= state.signature@.len(),
            texts(names@) == signature_names(*state).subrange(0, i as int),
        decreases state.signature@.len() - i,
    {
        let ghost before = names@;
        let c = state.signature[i].name.clone();
        assert(c@ == state.signature@[i as int].name@);
        names.push(c);
        assert(texts(names@) =~= texts(before).push(c@));
        assert(texts(names@) =~= signature_names(*state).subrange(0, i + 1));
        i = i + 1;
    }
    assert(signature_names(*state).subrange(0, i as int) =~= signature_names(*state));
    let compiled_axioms = sort_dedup(&names);
    let declared_axioms = sort_dedup(&meta.axioms);
    if !texts_equal(&compiled_axioms, &declared_axioms) {
        proof {
            lemma_sorted_sets_equal(texts(compiled_axioms@), texts(declared_axioms@));
        }
        return Err(CatalogError::AxiomsMismatch { id: meta.id.clone(), declared: declared_axioms, compiled: compiled_axioms });
    }
    let mut others: Vec<String> = Vec::new();
    let mut i: usize = 0;
    let ghost all = Seq::new(result.symbols@.len(), |k: int| result.symbols@[k].name@);
    let ghost sig = signature_names(*state);
    while i < result.symbols.len()
        invariant
            i <= result.symbols@.len(),
            all == Seq::new(result.symbols@.len(), |k: int| result.symbols@[k].name@),
            sig == signature_names(*state),
            forall|x: Seq<char>| texts(compiled_axioms@).contains(x) <==> sig.contains(x),
            texts(others@) == all.subrange(0, i as int).filter(outside(sig)),
        decreases result.symbols@.len() - i,
    {
        let n = &result.symbols[i].name;
        let ghost before = others@;
        assert(all.subrange(0, i + 1) =~= all.subrange(0, i as int).push(n@));
        proof {
            reveal_with_fuel(Seq::<Seq<char>>::filter, 1);
            assert(all.subrange(0, i + 1).drop_last() =~= all.subrange(0, i as int));
        }
        if !contains_text(&compiled_axioms, n.as_str()) {
            others.push(n.clone());
            assert(texts(others@) =~= texts(before).push(n@));
        }
        i = i + 1;
    }
    assert(all.subrange(0, i as int) =~= all);
    let compiled_constructed = sort_dedup(&others);
    let declared_constructed = sort_dedup(&meta.constructed);
    if !texts_equal(&compiled_constructed, &declared_constructed) {
        proof {
            lemma_sorted_sets_equal(texts(compiled_constructed@), texts(declared_constructed@));
        }
        return Err(CatalogError::ConstructedMismatch {
            id: meta.id.clone(),
            declared: declared_constructed,
            compiled: compiled_constructed,
        });
    }
    proof {
        lemma_sorted_sets_equal(texts(compiled_axioms@), texts(declared_axioms@));
        lemma_sorted_sets_equal(texts(compiled_constructed@), texts(declared_constructed@));
    }
    Ok(())
}

/// Whether the list holds the text `s`.
fn contains_text(v: &Vec<String>, s: &str) -> (r: bool)
    ensures
        r == texts(v@).contains(s@),
{
    let mut i: usize = 0;
    while i < v.len()
        invariant
            i <= v@.len(),
            forall|j: int| 0 <= j < i ==> v@[j]@ != s@,
        decreases v@.len() - i,
    {
        if str_eq(v[i].as_str(), s) {
            assert(texts(v@)[i as int] == s@);
            return true;
        }
        i = i + 1;
    }
    false
}


/// Two strictly sorted lists hold the same texts exactly when they are equal.
pub proof fn lemma_sorted_sets_equal(a: Seq<Seq<char>>, b: Seq<Seq<char>>)
    requires
        strictly_sorted(a),
        strictly_sorted(b),
    ensures
        a == b <==> same_set(a, b),
    decreases a.len() + b.len(),
{
    if same_set(a, b) {
        if a.len() == 0 || b.len() == 0 {
            if a.len() > 0 {
                assert(a.contains(a[0]));
            }
            if b.len() > 0 {
                assert(b.contains(b[0]));
            }
            assert(a =~= b);
        } else {
            // the last elements are the greatest of each, hence equal
            let x = a.last();
            let y = b.last();
            assert(a.contains(x));
            assert(b.contains(y));
            let i = choose|i: int| 0 <= i < b.len() && b[i] == x;
            let j = choose|j: int| 0 <= j < a.len() && a[j] == y;
            if i < b.len() - 1 && j < a.len() - 1 {
                assert(text_lt(x, y));
                assert(text_lt(y, x));
                crate::text::lemma_bytes_lt_total(utf8(x), utf8(y));
            } else if i < b.len() - 1 {
                assert(text_lt(x, y));
                assert(a[j] == y);
                if j < a.len() - 1 {
                } else {
                    crate::text::lemma_bytes_lt_irreflexive(utf8(x));
                }
            } else if j < a.len() - 1 {
                assert(text_lt(y, x));
                crate::text::lemma_bytes_lt_irreflexive(utf8(y));
            }
            assert(x == y);
            let a1 = a.drop_last();
            let b1 = b.drop_last();
            assert forall|z: Seq<char>| a1.contains(z) <==> b1.contains(z) by {
                if a1.contains(z) {
                    let k = choose|k: int| 0 <= k < a1.len() && a1[k] == z;
                    assert(a[k] == z);
                    assert(text_lt(z, x));
                    crate::text::lemma_bytes_lt_irreflexive(utf8(x));
                    assert(z != x);
                    assert(b.contains(z));
                    let m = choose|m: int| 0 <= m < b.len() && b[m] == z;
                    assert(m != b.len() - 1);
                    assert(b1[m] == z);
                }
                if b1.contains(z) {
                    let k = choose|k: int| 0 <= k < b1.len() && b1[k] == z;
                    assert(b[k] == z);
                    assert(text_lt(z, y));
                    crate::text::lemma_bytes_lt_irreflexive(utf8(y));
                    assert(a.contains(z));
                    let m = choose|m: int| 0 <= m < a.len() && a[m] == z;
                    assert(m != a.len() - 1);
                    assert(a1[m] == z);
                }
            }
            lemma_sorted_sets_equal(a1, b1);
            assert(a =~= a1.push(x));
            assert(b =~= b1.push(y));
        }
    }
}

// ---------------------------------------------------------------------------
// The catalog.

/// The community catalog: a format version and the presets by identifier.
#[derive(Debug)]
pub struct CommunityIndex {
    pub version: u32,
    pub presets: Vec<CommunityPreset>,
}

/// Ordered by identifier: each identifier does not sort after the next.
pub open spec fn sorted_by_id(v: Seq<CommunityPreset>) -> bool {
    forall|i: int, j: int| 0 <= i < j < v.len() ==> !text_lt(#[trigger] v[j].id@, #[trigger] v[i].id@)
}

/// Checks a preset's identifier: it must be the name of its folder, and a
/// lowercase slug.
pub fn check_identity(folder: &str, meta: &PresetMetadata) -> (r: Result<(), CatalogError>)
    ensures
        meta.id@ != folder@ ==> (r matches Err(CatalogError::IdMismatch { id, folder: f }) && id@ == meta.id@ && f@
            == folder@),
        meta.id@ == folder@ && !is_slug_bytes(utf8(meta.id@)) ==> (r matches Err(CatalogError::NotSlug { id }) && id@
            == meta.id@),
        meta.id@ == folder@ && is_slug_bytes(utf8(meta.id@)) ==> r is Ok,
{
    if !str_eq(meta.id.as_str(), folder) {
        return Err(CatalogError::IdMismatch { id: meta.id.clone(), folder: String::from_str(folder) });
    }
    if !is_slug(meta.id.as_str()) {
        return Err(CatalogError::NotSlug { id: meta.id.clone() });
    }
    Ok(())
}

/// The options a community preset is compiled with: no metadata given.
pub open spec fn default_options() -> CompileOptions {
    CompileOptions { title: None, author: None, abstr: None }
}

/// Validates a community preset read from its folder: its identifier must
/// be the folder's name and a slug, and its program, compiled with the
/// default options, must pass `check_compiled`. The catalog entry copies the
/// metadata and holds the source and didactic note.
pub fn validate_preset(folder: &str, meta: PresetMetadata, source: String, didactic: String) -> (r: Result<
    CommunityPreset,
    CatalogError,
>)
    ensures
        meta.id@ != folder@ ==> (r matches Err(CatalogError::IdMismatch { id, folder: f }) && id@ == meta.id@ && f@
            == folder@),
        meta.id@ == folder@ && !is_slug_bytes(utf8(meta.id@)) ==> (r matches Err(CatalogError::NotSlug { id }) && id@
            == meta.id@),
        meta.id@ == folder@ && is_slug_bytes(utf8(meta.id@)) ==> exists|res: CompileResult|
            #![trigger crate::program::compiles_to(utf8(source@), default_options(), res)]
            crate::program::compiles_to(utf8(source@), default_options(), res) && (r is Ok <==> compiled_ok(
                meta.id@,
                res,
                texts(meta.axioms@),
                texts(meta.constructed@),
            )) && (r matches Err(e) ==> refusal(meta, res, e)),
        r matches Ok(p) ==> {
            &&& meta.id@ == folder@
            &&& is_slug_bytes(utf8(meta.id@))
            &&& p.id@ == meta.id@
            &&& p.title@ == meta.title@
            &&& p.category@ == meta.category@
            &&& p.description@ == meta.description@
            &&& p.author@ == meta.author@
            &&& p.license@ == meta.license@
            &&& p.min_app_version@ == meta.min_app_version@
            &&& p.tags@ == meta.tags@
            &&& p.axioms@ == meta.axioms@
            &&& p.constructed@ == meta.constructed@
            &&& p.source@ == source@
            &&& p.didactic matches Some(d) && d@ == didactic@
        },
{
    match check_identity(folder, &meta) {
        Err(e) => {
            return Err(e);
        },
        Ok(()) => {},
    }
    let result = compile(source.as_str(), CompileOptions { title: None, author: None, abstr: None });
    assert(crate::program::compiles_to(utf8(source@), default_options(), result));
    match check_compiled(&meta, &result) {
        Err(e) => {
            return Err(e);
        },
        Ok(()) => {},
    }
    Ok(CommunityPreset {
        id: meta.id,
        title: meta.title,
        category: meta.category,
        description: meta.description,
        author: meta.author,
        license: meta.license,
        min_app_version: meta.min_app_version,
        tags: meta.tags,
        axioms: meta.axioms,
        constructed: meta.constructed,
        source,
        didactic: Some(didactic),
    })
}

/// The first position whose identifier sorts after `id`.
pub open spec fn after_pos(v: Seq<CommunityPreset>, id: Seq<char>, i: int) -> int
    decreases v.len() - i,
{
    if i < 0 || i >= v.len() {
        v.len() as int
    } else if text_lt(id, v[i].id@) {
        i
    } else {
        after_pos(v, id, i + 1)
    }
}

pub proof fn lemma_after_pos(v: Seq<CommunityPreset>, id: Seq<char>, i: int)
    requires
        0 <= i <= v.len(),
        forall|j: int| 0 <= j < i ==> !text_lt(id, #[trigger] v[j].id@),
    ensures
        i <= after_pos(v, id, i) <= v.len(),
        forall|j: int| 0 <= j < after_pos(v, id, i) ==> !text_lt(id, #[trigger] v[j].id@),
        after_pos(v, id, i) < v.len() ==> text_lt(id, v[after_pos(v, id, i)].id@),
    decreases v.len() - i,
{
    if i < v.len() && !text_lt(id, v[i].id@) {
        lemma_after_pos(v, id, i + 1);
    }
}

/// Not sorting after is transitive.
pub proof fn lemma_not_after_trans(a: Seq<char>, b: Seq<char>, c: Seq<char>)
    requires
        !text_lt(b, a),
        !text_lt(c, b),
    ensures
        !text_lt(c, a),
{
    crate::text::lemma_bytes_lt_total(utf8(a), utf8(b));
    crate::text::lemma_bytes_lt_total(utf8(b), utf8(c));
    crate::text::lemma_utf8_injective(a, b);
    crate::text::lemma_utf8_injective(b, c);
    if text_lt(c, a) {
        if a == b {
        } else if b == c {
        } else {
            crate::text::lemma_bytes_lt_transitive(utf8(a), utf8(b), utf8(c));
            crate::text::lemma_bytes_lt_total(utf8(a), utf8(c));
        }
    }
}

/// Orders presets by identifier, keeping the order of equal identifiers.
pub fn sort_by_id(v: Vec<CommunityPreset>) -> (r: Vec<CommunityPreset>)
    ensures
        sorted_by_id(r@),
        r@.to_multiset() == v@.to_multiset(),
{
    broadcast use vstd::seq_lib::group_to_multiset_ensures;

    let ghost orig = v@;
    let mut rest = v;
    let mut out: Vec<CommunityPreset> = Vec::new();
    assert(out@.to_multiset() =~= vstd::multiset::Multiset::<CommunityPreset>::empty());
    while rest.len() > 0
        invariant
            sorted_by_id(out@),
            out@.to_multiset().add(rest@.to_multiset()) == orig.to_multiset(),
        decreases rest@.len(),
    {
        let ghost r0 = rest@;
        let x = rest.remove(0);
        proof {
            vstd::seq_lib::to_multiset_remove(r0, 0);
            r0.to_multiset_ensures();
            assert(r0.contains(x)) by {
                assert(r0[0] == x);
            }
        }
        let ghost s = out@;
        let mut p: usize = 0;
        proof {
            lemma_after_pos(s, x.id@, 0);
        }
        while p < out.len() && crate::text::bytes_order(x.id.as_str().as_bytes(), out[p].id.as_str().as_bytes()) >= 0
            invariant
                p <= out@.len(),
                s == out@,
                after_pos(s, x.id@, p as int) == after_pos(s, x.id@, 0),
            decreases out@.len() - p,
        {
            p = p + 1;
        }
        let ghost xv = x;
        out.insert(p, x);
        proof {
            assert(out@ == s.insert(p as int, xv));
            vstd::seq_lib::to_multiset_insert(s, p as int, xv);
            assert forall|i: int, j: int| 0 <= i < j < out@.len() implies !text_lt(
                #[trigger] out@[j].id@,
                #[trigger] out@[i].id@,
            ) by {
                let q = p as int;
                if i < q && j == q {
                } else if i < q && j > q {
                    assert(out@[j] == s[j - 1]);
                    assert(text_lt(xv.id@, s[q].id@));
                    assert(!text_lt(s[j - 1].id@, xv.id@)) by {
                        crate::text::lemma_bytes_lt_total(utf8(xv.id@), utf8(s[q].id@));
                        if text_lt(s[j - 1].id@, xv.id@) {
                            crate::text::lemma_bytes_lt_transitive(utf8(s[j - 1].id@), utf8(xv.id@), utf8(s[q].id@));
                            if j - 1 > q {
                                assert(!text_lt(s[j - 1].id@, s[q].id@));
                            }
                        }
                    }
                    lemma_not_after_trans(s[i].id@, xv.id@, s[j - 1].id@);
                } else if i == q {
                    assert(out@[j] == s[j - 1]);
                    if j - 1 > q {
                        assert(!text_lt(s[j - 1].id@, s[q].id@));
                    }
                    crate::text::lemma_bytes_lt_total(utf8(xv.id@), utf8(s[q].id@));
                    if j - 1 > q {
                        lemma_not_after_trans(xv.id@, s[q].id@, s[j - 1].id@);
                    }
                } else if i > q {
                    assert(out@[i] == s[i - 1]);
                    assert(out@[j] == s[j - 1]);
                }
            }
            assert(out@.to_multiset().add(rest@.to_multiset()) =~= orig.to_multiset());
        }
    }
    assert(rest@.to_multiset() =~= vstd::multiset::Multiset::<CommunityPreset>::empty());
    assert(out@.to_multiset() =~= orig.to_multiset());
    out
}

/// The catalog of validated presets: format version 1, by identifier.
pub fn build_index(presets: Vec<CommunityPreset>) -> (r: CommunityIndex)
    ensures
        r.version == 1,
        sorted_by_id(r.presets@),
        r.presets@.to_multiset() == presets@.to_multiset(),
        distinct_ids(r.presets@) ==> strictly_sorted_by_id(r.presets@),
{
    let sorted = sort_by_id(presets);
    proof {
        lemma_sorted_distinct_strict(sorted@);
    }
    CommunityIndex { version: 1, presets: sorted }
}

/// Whether no two presets share an identifier.
pub open spec fn distinct_ids(v: Seq<CommunityPreset>) -> bool {
    forall|i: int, j: int| 0 <= i < j < v.len() ==> #[trigger] v[i].id@ != #[trigger] v[j].id@
}

/// Whether the identifiers strictly increase.
pub open spec fn strictly_sorted_by_id(v: Seq<CommunityPreset>) -> bool {
    forall|i: int, j: int| 0 <= i < j < v.len() ==> text_lt(#[trigger] v[i].id@, #[trigger] v[j].id@)
}

/// Sorted presets whose identifiers are distinct strictly increase.
pub proof fn lemma_sorted_distinct_strict(v: Seq<CommunityPreset>)
    requires
        sorted_by_id(v),
    ensures
        distinct_ids(v) ==> strictly_sorted_by_id(v),
{
    if distinct_ids(v) {
        assert forall|i: int, j: int| 0 <= i < j < v.len() implies text_lt(#[trigger] v[i].id@, #[trigger] v[j].id@) by {
            assert(v[i].id@ != v[j].id@);
            assert(!text_lt(v[j].id@, v[i].id@));
            crate::text::lemma_utf8_injective(v[i].id@, v[j].id@);
            crate::text::lemma_bytes_lt_total(utf8(v[i].id@), utf8(v[j].id@));
        }
    }
}

} // verus!
