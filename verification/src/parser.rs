//! The parser: turns tokens into a program, recovering from errors at `;`.
//!
//! The grammar is stated as spec functions over the token sequence; each one
//! gives the parsed value (if any), the position reached and the diagnostics
//! reported. Each method of `Parser` is proved to follow its spec function.
use vstd::prelude::*;
use vstd::string::StringExecFns;

use crate::ast::{
    bindings_view, exprs_view, lemma_exprs_view_push, lemma_members_view_push,
    lemma_stmts_view_push, lemma_values_view_push, members_view, params_view, sexpr_span,
    stmts_view, steps_view, strings_view, values_view, ActionValue, Ast, Bias, Binding, CellDecl,
    DeclKind, Expr, Invertibility, Member, MetadataKey, Param, ProofDecl, ProofStep, SBinding,
    SCellDecl, SExpr, SParam, SProofDecl, SProofStep, SSchemaDecl, SStmt, SUseDecl, SValue,
    SchemaDecl, Stmt, UseDecl,
};
use crate::diagnostics::{
    diags_view, error_diag, lemma_diags_view_push, span_join, Diagnostic, SDiagnostic, Span,
};
use crate::lexer::{
    lemma_lex_from_ends_with_eof, spec_lex_diagnostics, spec_tokens, toks_view, Keyword, Lexer, Tk, Tok,
    Token, TokenKind,
};
use vstd::string::StringSliceAdditionalSpecFns;
use crate::text::{append_bytes, bytes_as_chars, copy_bytes, string_from_bytes};

verus! {

// ---------------------------------------------------------------------------
// Positions in a token sequence.

/// A token sequence the parser can work on: non-empty and ending with `Eof`.
pub open spec fn wf_toks(t: Seq<Tok>) -> bool {
    t.len() > 0 && t[t.len() - 1].kind == Tk::Eof
}

pub open spec fn kind_at(t: Seq<Tok>, p: int) -> Tk {
    t[p].kind
}

pub open spec fn span_at(t: Seq<Tok>, p: int) -> Span {
    t[p].span
}

/// The position after consuming the token at `p`; the final `Eof` is never passed.
pub open spec fn bump(t: Seq<Tok>, p: int) -> int {
    if p + 1 < t.len() {
        p + 1
    } else {
        t.len() - 1
    }
}

pub open spec fn err1(msg: Seq<char>, s: Span) -> Seq<SDiagnostic> {
    seq![error_diag(msg, s)]
}

/// Consumes a token of kind `k`, or reports `msg` at the current token.
pub open spec fn expect(t: Seq<Tok>, p: int, k: Tk, msg: Seq<char>) -> (Option<Tok>, int, Seq<SDiagnostic>) {
    if kind_at(t, p) == k {
        (Some(t[p]), bump(t, p), seq![])
    } else {
        (None, p, err1(msg, span_at(t, p)))
    }
}

/// Consumes a string token, or reports `msg` at the (consumed) token.
pub open spec fn expect_string(t: Seq<Tok>, p: int, msg: Seq<char>) -> (Option<Seq<u8>>, int, Seq<SDiagnostic>) {
    match kind_at(t, p) {
        Tk::Str(v) => (Some(v), bump(t, p), seq![]),
        _ => (None, bump(t, p), err1(msg, span_at(t, p))),
    }
}

/// Consumes a number token, or reports `msg` at the (consumed) token.
pub open spec fn expect_number(t: Seq<Tok>, p: int, msg: Seq<char>) -> (Option<usize>, int, Seq<SDiagnostic>) {
    match kind_at(t, p) {
        Tk::Number(n) => (Some(n), bump(t, p), seq![]),
        _ => (None, bump(t, p), err1(msg, span_at(t, p))),
    }
}

/// Skips to just after the next `;`, or to the next `}` or the end.
pub open spec fn synchronize(t: Seq<Tok>, p: int) -> int
    decreases t.len() - p,
{
    if p < 0 || p >= t.len() - 1 || kind_at(t, p) == Tk::Eof {
        p
    } else if kind_at(t, p) == Tk::Semicolon {
        bump(t, p)
    } else if kind_at(t, p) == Tk::RBrace {
        p
    } else {
        synchronize(t, p + 1)
    }
}

/// The segments of a dotted name after the first, from `p`.
pub open spec fn name_rest(t: Seq<Tok>, p: int, name: Seq<u8>, span: Span) -> (
    Option<(Seq<u8>, Span)>,
    int,
    Seq<SDiagnostic>,
)
    decreases t.len() - p,
    when wf_toks(t) && 0 <= p < t.len()
{
    if kind_at(t, p) == Tk::Dot {
        let q = bump(t, p);
        match kind_at(t, q) {
            Tk::Ident(seg) => {
                let r = bump(t, q);
                if r <= p {
                    (None, r, seq![])
                } else {
                    name_rest(t, r, name + seq![46u8] + seg, span_join(span, span_at(t, q)))
                }
            },
            _ => (None, bump(t, q), err1("expected a name segment after `.`"@, span_at(t, q))),
        }
    } else {
        (Some((name, span)), p, seq![])
    }
}

/// A possibly dotted name, as bytes, with its span.
pub open spec fn parse_name(t: Seq<Tok>, p: int) -> (Option<(Seq<u8>, Span)>, int, Seq<SDiagnostic>) {
    match kind_at(t, p) {
        Tk::Ident(first) => name_rest(t, bump(t, p), first, span_at(t, p)),
        _ => (None, bump(t, p), err1("expected a name"@, span_at(t, p))),
    }
}

pub open spec fn is_word(k: Tk, w: Seq<char>) -> bool {
    match k {
        Tk::Ident(v) => bytes_as_chars(v) == w,
        _ => false,
    }
}

/// The bias named by the token at `p`, if it names one.
pub open spec fn bias_word(k: Tk) -> Option<Bias> {
    if is_word(k, "lower"@) {
        Some(Bias::Lower)
    } else if is_word(k, "higher"@) {
        Some(Bias::Higher)
    } else if is_word(k, "same"@) {
        Some(Bias::Same)
    } else {
        None
    }
}

// ---------------------------------------------------------------------------
// Expressions.

pub open spec fn compose_of(terms: Seq<SExpr>) -> SExpr {
    if terms.len() == 1 {
        terms[0]
    } else {
        SExpr::Compose(terms, span_join(sexpr_span(terms[0]), sexpr_span(terms[terms.len() - 1])))
    }
}

/// An expression: one or more terms joined by `*`.
pub open spec fn parse_expr(t: Seq<Tok>, p: int) -> (Option<SExpr>, int, Seq<SDiagnostic>)
    decreases t.len() - p, 1nat,
    when wf_toks(t) && 0 <= p < t.len()
{
    let a = parse_term(t, p);
    match a.0 {
        None => (None, a.1, a.2),
        Some(first) => {
            if a.1 <= p || a.1 >= t.len() {
                (None, a.1, a.2)
            } else {
                let r = expr_rest(t, a.1, seq![first]);
                (r.0, r.1, a.2 + r.2)
            }
        },
    }
}

/// The `* term` continuations of an expression whose terms so far are `terms`.
pub open spec fn expr_rest(t: Seq<Tok>, p: int, terms: Seq<SExpr>) -> (Option<SExpr>, int, Seq<SDiagnostic>)
    decreases t.len() - p, 2nat,
    when wf_toks(t) && 0 <= p < t.len()
{
    if kind_at(t, p) == Tk::Star {
        let q = bump(t, p);
        let a = parse_term(t, q);
        match a.0 {
            None => (None, a.1, a.2),
            Some(e) => {
                if a.1 <= p || a.1 >= t.len() {
                    (None, a.1, a.2)
                } else {
                    let r = expr_rest(t, a.1, terms.push(e));
                    (r.0, r.1, a.2 + r.2)
                }
            },
        }
    } else {
        (Some(compose_of(terms)), p, seq![])
    }
}

/// The bias argument of `contract(expr, bias)`, after the comma.
pub open spec fn parse_bias(t: Seq<Tok>, p: int) -> (Option<Bias>, int, Seq<SDiagnostic>) {
    match bias_word(kind_at(t, p)) {
        Some(b) => (Some(b), bump(t, p), seq![]),
        None => (None, bump(t, p), err1("expected `lower`, `higher` or `same`"@, span_at(t, p))),
    }
}

/// `kw ( expr )`, for the keyword at `p`; the messages are those of `id`, `inv`
/// or `contract`.
pub open spec fn parse_term(t: Seq<Tok>, p: int) -> (Option<SExpr>, int, Seq<SDiagnostic>)
    decreases t.len() - p, 0nat,
    when wf_toks(t) && 0 <= p < t.len()
{
    let k = kind_at(t, p);
    if k == Tk::Keyword(Keyword::Id) || k == Tk::Keyword(Keyword::Inv) || k == Tk::Keyword(Keyword::Contract) {
        let start = span_at(t, p);
        let q = bump(t, p);
        let open_msg = if k == Tk::Keyword(Keyword::Id) {
            "expected `(` after id"@
        } else if k == Tk::Keyword(Keyword::Inv) {
            "expected `(` after inv"@
        } else {
            "expected `(` after contract"@
        };
        let o = expect(t, q, Tk::LParen, open_msg);
        match o.0 {
            None => (None, o.1, o.2),
            Some(_) => {
                if o.1 <= p || o.1 >= t.len() {
                    (None, o.1, o.2)
                } else {
                    let e = parse_expr(t, o.1);
                    match e.0 {
                        None => (None, e.1, o.2 + e.2),
                        Some(inner) => {
                            if e.1 < 0 || e.1 >= t.len() {
                                (None, e.1, o.2 + e.2)
                            } else if k == Tk::Keyword(Keyword::Contract) {
                                let b = if kind_at(t, e.1) == Tk::Comma {
                                    parse_bias(t, bump(t, e.1))
                                } else {
                                    (Some(Bias::Lower), e.1, seq![])
                                };
                                match b.0 {
                                    None => (None, b.1, o.2 + e.2 + b.2),
                                    Some(bias) => {
                                        let c = expect(t, b.1, Tk::RParen, "expected `)` after contraction expression"@);
                                        match c.0 {
                                            None => (None, c.1, o.2 + e.2 + b.2 + c.2),
                                            Some(end) => (
                                                Some(SExpr::Contract(Box::new(inner), bias, span_join(start, end.span))),
                                                c.1,
                                                o.2 + e.2 + b.2 + c.2,
                                            ),
                                        }
                                    },
                                }
                            } else {
                                let close_msg = if k == Tk::Keyword(Keyword::Id) {
                                    "expected `)` after identity expression"@
                                } else {
                                    "expected `)` after inverse expression"@
                                };
                                let c = expect(t, e.1, Tk::RParen, close_msg);
                                match c.0 {
                                    None => (None, c.1, o.2 + e.2 + c.2),
                                    Some(end) => (
                                        Some(
                                            if k == Tk::Keyword(Keyword::Id) {
                                                SExpr::Identity(Box::new(inner), span_join(start, end.span))
                                            } else {
                                                SExpr::Inverse(Box::new(inner), span_join(start, end.span))
                                            },
                                        ),
                                        c.1,
                                        o.2 + e.2 + c.2,
                                    ),
                                }
                            }
                        },
                    }
                }
            },
        }
    } else if k == Tk::LParen {
        let e = parse_expr(t, bump(t, p));
        match e.0 {
            None => (None, e.1, e.2),
            Some(inner) => {
                if e.1 < 0 || e.1 >= t.len() {
                    (None, e.1, e.2)
                } else {
                    let c = expect(t, e.1, Tk::RParen, "expected `)` after expression"@);
                    match c.0 {
                        None => (None, c.1, e.2 + c.2),
                        Some(_) => (Some(inner), c.1, e.2 + c.2),
                    }
                }
            },
        }
    } else {
        let n = parse_name(t, p);
        match n.0 {
            None => (None, n.1, n.2),
            Some((name, span)) => (Some(SExpr::Name(bytes_as_chars(name), span)), n.1, n.2),
        }
    }
}

// ---------------------------------------------------------------------------
// Statements.

/// `->` or `<->`, consuming the token; `msg` is reported otherwise.
pub open spec fn parse_relation(t: Seq<Tok>, p: int, msg: Seq<char>) -> (Option<Invertibility>, int, Seq<SDiagnostic>) {
    match kind_at(t, p) {
        Tk::Arrow => (Some(Invertibility::Directed), bump(t, p), seq![]),
        Tk::DoubleArrow => (Some(Invertibility::Invertible), bump(t, p), seq![]),
        _ => (None, bump(t, p), err1(msg, span_at(t, p))),
    }
}

pub open spec fn metadata_key(k: Tk) -> MetadataKey {
    if k == Tk::Keyword(Keyword::Title) {
        MetadataKey::Title
    } else if k == Tk::Keyword(Keyword::Author) {
        MetadataKey::Author
    } else {
        MetadataKey::Abstract
    }
}

/// `title|author|abstract "text";`
pub open spec fn parse_metadata(t: Seq<Tok>, p: int) -> (Option<SStmt>, int, Seq<SDiagnostic>) {
    let key = metadata_key(kind_at(t, p));
    let start = span_at(t, p);
    let s = expect_string(t, bump(t, p), "expected a string literal"@);
    match s.0 {
        None => (None, s.1, s.2),
        Some(v) => {
            let e = expect(t, s.1, Tk::Semicolon, "expected `;` after metadata"@);
            match e.0 {
                None => (None, e.1, s.2 + e.2),
                Some(end) => (
                    Some(SStmt::Metadata(key, bytes_as_chars(v), span_join(start, end.span))),
                    e.1,
                    s.2 + e.2,
                ),
            }
        },
    }
}

/// `cell name;` or `cell name: source (->|<->) target;`
pub open spec fn parse_cell(t: Seq<Tok>, p: int) -> (Option<SCellDecl>, int, Seq<SDiagnostic>) {
    let start = span_at(t, p);
    let n = parse_name(t, bump(t, p));
    match n.0 {
        None => (None, n.1, n.2),
        Some((name, _)) => {
            if kind_at(t, n.1) == Tk::Colon {
                let src = parse_expr(t, bump(t, n.1));
                match src.0 {
                    None => (None, src.1, n.2 + src.2),
                    Some(source) => {
                        let rel = parse_relation(t, src.1, "expected `->` or `<->` in cell declaration"@);
                        match rel.0 {
                            None => (None, rel.1, n.2 + src.2 + rel.2),
                            Some(inv) => {
                                let tgt = parse_expr(t, rel.1);
                                match tgt.0 {
                                    None => (None, tgt.1, n.2 + src.2 + rel.2 + tgt.2),
                                    Some(target) => {
                                        let e = expect(t, tgt.1, Tk::Semicolon, "expected `;` after cell declaration"@);
                                        match e.0 {
                                            None => (None, e.1, n.2 + src.2 + rel.2 + tgt.2 + e.2),
                                            Some(end) => (
                                                Some(SCellDecl {
                                                    name: bytes_as_chars(name),
                                                    source: Some(source),
                                                    target: Some(target),
                                                    invertibility: inv,
                                                    span: span_join(start, end.span),
                                                }),
                                                e.1,
                                                n.2 + src.2 + rel.2 + tgt.2 + e.2,
                                            ),
                                        }
                                    },
                                }
                            },
                        }
                    },
                }
            } else {
                let e = expect(t, n.1, Tk::Semicolon, "expected `;` after cell declaration"@);
                match e.0 {
                    None => (None, e.1, n.2 + e.2),
                    Some(end) => (
                        Some(SCellDecl {
                            name: bytes_as_chars(name),
                            source: None,
                            target: None,
                            invertibility: Invertibility::Directed,
                            span: span_join(start, end.span),
                        }),
                        e.1,
                        n.2 + e.2,
                    ),
                }
            }
        },
    }
}

/// A plain name, not followed by `.` or `*`, parses as that name.
pub proof fn lemma_name_parses_as_name(t: Seq<Tok>, q: int)
    requires
        wf_toks(t),
        0 <= q,
        q + 1 < t.len(),
        t[q].kind is Ident,
        t[q + 1].kind != Tk::Dot,
        t[q + 1].kind != Tk::Star,
    ensures
        parse_expr(t, q) == (
            Some(SExpr::Name(bytes_as_chars(t[q].kind->Ident_0), t[q].span)),
            q + 1,
            Seq::<SDiagnostic>::empty(),
        ),
{
    let x = t[q].kind->Ident_0;
    lemma_name_term(t, q);
    let e = SExpr::Name(bytes_as_chars(x), t[q].span);
    assert(expr_rest(t, q + 1, seq![e]) == (Some(e), q + 1, Seq::<SDiagnostic>::empty()));
    assert(Seq::<SDiagnostic>::empty() + Seq::<SDiagnostic>::empty() =~= Seq::<SDiagnostic>::empty());
}

proof fn lemma_name_term(t: Seq<Tok>, q: int)
    requires
        wf_toks(t),
        0 <= q,
        q + 1 < t.len(),
        t[q].kind is Ident,
        t[q + 1].kind != Tk::Dot,
    ensures
        parse_term(t, q) == (
            Some(SExpr::Name(bytes_as_chars(t[q].kind->Ident_0), t[q].span)),
            q + 1,
            Seq::<SDiagnostic>::empty(),
        ),
{
    let x = t[q].kind->Ident_0;
    assert(name_rest(t, q + 1, x, t[q].span) == (Some((x, t[q].span)), q + 1, Seq::<SDiagnostic>::empty()));
}

/// `x * y`, with plain names, parses as the composite of the two names, in
/// that order.
pub proof fn lemma_composite_parses_in_order(t: Seq<Tok>, q: int)
    requires
        wf_toks(t),
        0 <= q,
        q + 3 < t.len(),
        t[q].kind is Ident,
        t[q + 1].kind == Tk::Star,
        t[q + 2].kind is Ident,
        t[q + 3].kind != Tk::Dot,
        t[q + 3].kind != Tk::Star,
    ensures
        ({
            let x = SExpr::Name(bytes_as_chars(t[q].kind->Ident_0), t[q].span);
            let y = SExpr::Name(bytes_as_chars(t[q + 2].kind->Ident_0), t[q + 2].span);
            parse_expr(t, q) == (
                Some(SExpr::Compose(seq![x, y], span_join(t[q].span, t[q + 2].span))),
                q + 3,
                Seq::<SDiagnostic>::empty(),
            )
        }),
{
    lemma_name_term(t, q);
    lemma_name_term(t, q + 2);
    let x = SExpr::Name(bytes_as_chars(t[q].kind->Ident_0), t[q].span);
    let y = SExpr::Name(bytes_as_chars(t[q + 2].kind->Ident_0), t[q + 2].span);
    let e = Seq::<SDiagnostic>::empty();
    assert(seq![x].push(y) =~= seq![x, y]);
    assert(expr_rest(t, q + 3, seq![x, y]) == (Some(compose_of(seq![x, y])), q + 3, e));
    assert(expr_rest(t, q + 1, seq![x]) == (Some(compose_of(seq![x, y])), q + 3, e + e));
    assert(e + e =~= e);
    assert(e + (e + e) =~= e);
}

/// `cell name: source -> target;` (or `<->`), with plain names, declares the
/// cell `name` from `source` to `target`, directed (or invertible), with no
/// diagnostic, as a statement when it starts with `cell`, and parsing goes
/// on after the `;`.
pub proof fn lemma_cell_declaration_parses(t: Seq<Tok>, p: int)
    requires
        wf_toks(t),
        0 <= p,
        p + 7 < t.len(),
        t[p + 1].kind is Ident,
        t[p + 2].kind == Tk::Colon,
        t[p + 3].kind is Ident,
        t[p + 4].kind == Tk::Arrow || t[p + 4].kind == Tk::DoubleArrow,
        t[p + 5].kind is Ident,
        t[p + 6].kind == Tk::Semicolon,
    ensures
        parse_cell(t, p) == (
            Some(
                SCellDecl {
                    name: bytes_as_chars(t[p + 1].kind->Ident_0),
                    source: Some(SExpr::Name(bytes_as_chars(t[p + 3].kind->Ident_0), t[p + 3].span)),
                    target: Some(SExpr::Name(bytes_as_chars(t[p + 5].kind->Ident_0), t[p + 5].span)),
                    invertibility: if t[p + 4].kind == Tk::Arrow {
                        Invertibility::Directed
                    } else {
                        Invertibility::Invertible
                    },
                    span: span_join(t[p].span, t[p + 6].span),
                },
            ),
            p + 7,
            Seq::<SDiagnostic>::empty(),
        ),
        t[p].kind == Tk::Keyword(Keyword::Cell) ==> parse_stmt(t, p) == (
            Some(SStmt::Cell(parse_cell(t, p).0.unwrap())),
            p + 7,
            Seq::<SDiagnostic>::empty(),
        ),
{
    let n = t[p + 1].kind->Ident_0;
    assert(name_rest(t, p + 2, n, t[p + 1].span) == (Some((n, t[p + 1].span)), p + 2, Seq::<SDiagnostic>::empty()));
    assert(parse_name(t, p + 1) == (Some((n, t[p + 1].span)), p + 2, Seq::<SDiagnostic>::empty()));
    lemma_name_parses_as_name(t, p + 3);
    lemma_name_parses_as_name(t, p + 5);
    let e = Seq::<SDiagnostic>::empty();
    assert(e + e + e + e + e =~= e);
}

/// One step of a proof body: `attach expr;` or `contract [bias];`.
pub open spec fn parse_step(t: Seq<Tok>, p: int) -> (Option<SProofStep>, int, Seq<SDiagnostic>) {
    let start = span_at(t, p);
    if kind_at(t, p) == Tk::Keyword(Keyword::Attach) {
        let e = parse_expr(t, bump(t, p));
        match e.0 {
            None => (None, e.1, e.2),
            Some(expr) => {
                let c = expect(t, e.1, Tk::Semicolon, "expected `;` after attach"@);
                match c.0 {
                    None => (None, c.1, e.2 + c.2),
                    Some(end) => (Some(SProofStep::Attach(expr, span_join(start, end.span))), c.1, e.2 + c.2),
                }
            },
        }
    } else if kind_at(t, p) == Tk::Keyword(Keyword::Contract) {
        let q = bump(t, p);
        let (bias, q2) = match bias_word(kind_at(t, q)) {
            Some(b) => (b, bump(t, q)),
            None => (Bias::Lower, q),
        };
        let c = expect(t, q2, Tk::Semicolon, "expected `;` after contract"@);
        match c.0 {
            None => (None, c.1, c.2),
            Some(end) => (Some(SProofStep::Contract(bias, span_join(start, end.span))), c.1, c.2),
        }
    } else {
        (None, bump(t, p), err1("expected `attach` or `contract` in a proof body"@, start))
    }
}

/// The steps of a proof body up to its closing brace.
pub open spec fn steps_from(t: Seq<Tok>, p: int, acc: Seq<SProofStep>) -> (
    Option<Seq<SProofStep>>,
    int,
    Seq<SDiagnostic>,
)
    decreases t.len() - p,
    when wf_toks(t) && 0 <= p < t.len()
{
    if kind_at(t, p) == Tk::RBrace || kind_at(t, p) == Tk::Eof {
        (Some(acc), p, seq![])
    } else {
        let st = parse_step(t, p);
        match st.0 {
            None => (None, st.1, st.2),
            Some(step) => {
                if st.1 <= p || st.1 >= t.len() {
                    (None, st.1, st.2)
                } else {
                    let r = steps_from(t, st.1, acc.push(step));
                    (r.0, r.1, st.2 + r.2)
                }
            },
        }
    }
}

/// `prove|construct name: source (->|<->) target (; | { steps })`
pub open spec fn parse_proof(t: Seq<Tok>, p: int) -> (Option<SProofDecl>, int, Seq<SDiagnostic>) {
    let start = span_at(t, p);
    let n = parse_name(t, bump(t, p));
    match n.0 {
        None => (None, n.1, n.2),
        Some((name, _)) => {
            let c = expect(t, n.1, Tk::Colon, "expected `:` after proof name"@);
            match c.0 {
                None => (None, c.1, n.2 + c.2),
                Some(_) => {
                    let src = parse_expr(t, c.1);
                    match src.0 {
                        None => (None, src.1, n.2 + c.2 + src.2),
                        Some(source) => {
                            let rel = parse_relation(t, src.1, "expected `->` or `<->` in proof declaration"@);
                            match rel.0 {
                                None => (None, rel.1, n.2 + c.2 + src.2 + rel.2),
                                Some(inv) => {
                                    let tgt = parse_expr(t, rel.1);
                                    match tgt.0 {
                                        None => (None, tgt.1, n.2 + c.2 + src.2 + rel.2 + tgt.2),
                                        Some(target) => {
                                            let d = n.2 + c.2 + src.2 + rel.2 + tgt.2;
                                            if kind_at(t, tgt.1) == Tk::LBrace {
                                                let b = steps_from(t, bump(t, tgt.1), seq![]);
                                                match b.0 {
                                                    None => (None, b.1, d + b.2),
                                                    Some(steps) => {
                                                        let e = expect(t, b.1, Tk::RBrace, "expected `}` after proof body"@);
                                                        match e.0 {
                                                            None => (None, e.1, d + b.2 + e.2),
                                                            Some(end) => (
                                                                Some(SProofDecl {
                                                                    name: bytes_as_chars(name),
                                                                    source,
                                                                    target,
                                                                    invertibility: inv,
                                                                    body: Some(steps),
                                                                    span: span_join(start, end.span),
                                                                }),
                                                                e.1,
                                                                d + b.2 + e.2,
                                                            ),
                                                        }
                                                    },
                                                }
                                            } else {
                                                let e = expect(t, tgt.1, Tk::Semicolon, "expected `;` after proof declaration"@);
                                                match e.0 {
                                                    None => (None, e.1, d + e.2),
                                                    Some(end) => (
                                                        Some(SProofDecl {
                                                            name: bytes_as_chars(name),
                                                            source,
                                                            target,
                                                            invertibility: inv,
                                                            body: None,
                                                            span: span_join(start, end.span),
                                                        }),
                                                        e.1,
                                                        d + e.2,
                                                    ),
                                                }
                                            }
                                        },
                                    }
                                },
                            }
                        },
                    }
                },
            }
        },
    }
}

/// A parameter: `name: cell<n>` or `name: Declaration`.
pub open spec fn parse_param(t: Seq<Tok>, p: int) -> (Option<SParam>, int, Seq<SDiagnostic>) {
    let n = parse_name(t, p);
    match n.0 {
        None => (None, n.1, n.2),
        Some((name, span)) => {
            let c = expect(t, n.1, Tk::Colon, "expected `:` after parameter name"@);
            match c.0 {
                None => (None, c.1, n.2 + c.2),
                Some(_) => {
                    if kind_at(t, c.1) == Tk::Keyword(Keyword::Cell) {
                        let lt = expect(t, bump(t, c.1), Tk::Lt, "expected `<` in parameter type"@);
                        match lt.0 {
                            None => (None, lt.1, n.2 + c.2 + lt.2),
                            Some(_) => {
                                let d = expect_number(t, lt.1, "expected parameter dimension"@);
                                match d.0 {
                                    None => (None, d.1, n.2 + c.2 + lt.2 + d.2),
                                    Some(dim) => {
                                        let gt = expect(t, d.1, Tk::Gt, "expected `>` in parameter type"@);
                                        match gt.0 {
                                            None => (None, gt.1, n.2 + c.2 + lt.2 + d.2 + gt.2),
                                            Some(_) => (
                                                Some(SParam { name: bytes_as_chars(name), dimension: dim, structure: None, span }),
                                                gt.1,
                                                n.2 + c.2 + lt.2 + d.2 + gt.2,
                                            ),
                                        }
                                    },
                                }
                            },
                        }
                    } else if kind_at(t, c.1) is Ident {
                        let s = parse_name(t, c.1);
                        match s.0 {
                            None => (None, s.1, n.2 + c.2 + s.2),
                            Some((sname, _)) => (
                                Some(SParam {
                                    name: bytes_as_chars(name),
                                    dimension: 0,
                                    structure: Some(bytes_as_chars(sname)),
                                    span,
                                }),
                                s.1,
                                n.2 + c.2 + s.2,
                            ),
                        }
                    } else {
                        (
                            None,
                            c.1,
                            n.2 + c.2 + err1(
                                "expected `cell<dimension>` or a declaration name as parameter type"@,
                                span_at(t, c.1),
                            ),
                        )
                    }
                },
            }
        },
    }
}

/// Comma-separated parameters.
pub open spec fn params_from(t: Seq<Tok>, p: int, acc: Seq<SParam>) -> (Option<Seq<SParam>>, int, Seq<SDiagnostic>)
    decreases t.len() - p,
    when wf_toks(t) && 0 <= p < t.len()
{
    let a = parse_param(t, p);
    match a.0 {
        None => (None, a.1, a.2),
        Some(param) => {
            if kind_at(t, a.1) == Tk::Comma {
                let q = bump(t, a.1);
                if q <= p || q >= t.len() {
                    (None, q, a.2)
                } else {
                    let r = params_from(t, q, acc.push(param));
                    (r.0, r.1, a.2 + r.2)
                }
            } else {
                (Some(acc.push(param)), a.1, a.2)
            }
        },
    }
}

/// Comma-separated names.
pub open spec fn names_from(t: Seq<Tok>, p: int, acc: Seq<Seq<char>>) -> (
    Option<Seq<Seq<char>>>,
    int,
    Seq<SDiagnostic>,
)
    decreases t.len() - p,
    when wf_toks(t) && 0 <= p < t.len()
{
    let a = parse_name(t, p);
    match a.0 {
        None => (None, a.1, a.2),
        Some((name, _)) => {
            if kind_at(t, a.1) == Tk::Comma {
                let q = bump(t, a.1);
                if q <= p || q >= t.len() {
                    (None, q, a.2)
                } else {
                    let r = names_from(t, q, acc.push(bytes_as_chars(name)));
                    (r.0, r.1, a.2 + r.2)
                }
            } else {
                (Some(acc.push(bytes_as_chars(name))), a.1, a.2)
            }
        },
    }
}

/// The `field = name;` bindings of a `with` block, up to its closing brace.
pub open spec fn bindings_from(t: Seq<Tok>, p: int, acc: Seq<SBinding>) -> (
    Option<Seq<SBinding>>,
    int,
    Seq<SDiagnostic>,
)
    decreases t.len() - p,
    when wf_toks(t) && 0 <= p < t.len()
{
    if kind_at(t, p) == Tk::RBrace || kind_at(t, p) == Tk::Eof {
        (Some(acc), p, seq![])
    } else {
        let f = parse_name(t, p);
        match f.0 {
            None => (None, f.1, f.2),
            Some((field, fspan)) => {
                let eq = expect(t, f.1, Tk::Equals, "expected `=` in a `with` binding"@);
                match eq.0 {
                    None => (None, eq.1, f.2 + eq.2),
                    Some(_) => {
                        let v = parse_expr(t, eq.1);
                        match v.0 {
                            None => (None, v.1, f.2 + eq.2 + v.2),
                            Some(value) => {
                                let e = expect(t, v.1, Tk::Semicolon, "expected `;` after a `with` binding"@);
                                match e.0 {
                                    None => (None, e.1, f.2 + eq.2 + v.2 + e.2),
                                    Some(end) => {
                                        if e.1 <= p || e.1 >= t.len() {
                                            (None, e.1, f.2 + eq.2 + v.2 + e.2)
                                        } else {
                                            let b = SBinding {
                                                field: bytes_as_chars(field),
                                                value,
                                                span: span_join(fspan, end.span),
                                            };
                                            let r = bindings_from(t, e.1, acc.push(b));
                                            (r.0, r.1, f.2 + eq.2 + v.2 + e.2 + r.2)
                                        }
                                    },
                                }
                            },
                        }
                    },
                }
            },
        }
    }
}

/// `use Declaration(args) as alias;` or `use ... as alias with { bindings }`.
pub open spec fn parse_use(t: Seq<Tok>, p: int) -> (Option<SUseDecl>, int, Seq<SDiagnostic>) {
    let start = span_at(t, p);
    let n = parse_name(t, bump(t, p));
    match n.0 {
        None => (None, n.1, n.2),
        Some((schema, _)) => {
            let o = expect(t, n.1, Tk::LParen, "expected `(` after schema name"@);
            match o.0 {
                None => (None, o.1, n.2 + o.2),
                Some(_) => {
                    let a = if kind_at(t, o.1) == Tk::RParen {
                        (Some(Seq::<Seq<char>>::empty()), o.1, Seq::<SDiagnostic>::empty())
                    } else {
                        names_from(t, o.1, seq![])
                    };
                    match a.0 {
                        None => (None, a.1, n.2 + o.2 + a.2),
                        Some(args) => {
                            let c = expect(t, a.1, Tk::RParen, "expected `)` after schema arguments"@);
                            match c.0 {
                                None => (None, c.1, n.2 + o.2 + a.2 + c.2),
                                Some(_) => {
                                    let k = expect(t, c.1, Tk::Keyword(Keyword::As), "expected `as` before schema alias"@);
                                    match k.0 {
                                        None => (None, k.1, n.2 + o.2 + a.2 + c.2 + k.2),
                                        Some(_) => {
                                            let al = parse_name(t, k.1);
                                            let d = n.2 + o.2 + a.2 + c.2 + k.2 + al.2;
                                            match al.0 {
                                                None => (None, al.1, d),
                                                Some((alias, _)) => {
                                                    if kind_at(t, al.1) == Tk::Keyword(Keyword::With) {
                                                        let lb = expect(t, bump(t, al.1), Tk::LBrace, "expected `{` after `with`"@);
                                                        match lb.0 {
                                                            None => (None, lb.1, d + lb.2),
                                                            Some(_) => {
                                                                let bs = bindings_from(t, lb.1, seq![]);
                                                                match bs.0 {
                                                                    None => (None, bs.1, d + lb.2 + bs.2),
                                                                    Some(bindings) => {
                                                                        let rb = expect(t, bs.1, Tk::RBrace, "expected `}` after `with` bindings"@);
                                                                        match rb.0 {
                                                                            None => (None, rb.1, d + lb.2 + bs.2 + rb.2),
                                                                            Some(end) => (
                                                                                Some(SUseDecl {
                                                                                    schema: bytes_as_chars(schema),
                                                                                    args,
                                                                                    alias: bytes_as_chars(alias),
                                                                                    bindings,
                                                                                    span: span_join(start, end.span),
                                                                                }),
                                                                                rb.1,
                                                                                d + lb.2 + bs.2 + rb.2,
                                                                            ),
                                                                        }
                                                                    },
                                                                }
                                                            },
                                                        }
                                                    } else {
                                                        let e = expect(t, al.1, Tk::Semicolon, "expected `;` after schema use"@);
                                                        match e.0 {
                                                            None => (None, e.1, d + e.2),
                                                            Some(end) => (
                                                                Some(SUseDecl {
                                                                    schema: bytes_as_chars(schema),
                                                                    args,
                                                                    alias: bytes_as_chars(alias),
                                                                    bindings: seq![],
                                                                    span: span_join(start, end.span),
                                                                }),
                                                                e.1,
                                                                d + e.2,
                                                            ),
                                                        }
                                                    }
                                                },
                                            }
                                        },
                                    }
                                },
                            }
                        },
                    }
                },
            }
        },
    }
}

/// `unique first, second as alias;`
pub open spec fn parse_unique(t: Seq<Tok>, p: int) -> (Option<SStmt>, int, Seq<SDiagnostic>) {
    let start = span_at(t, p);
    let f = parse_name(t, bump(t, p));
    match f.0 {
        None => (None, f.1, f.2),
        Some((first, _)) => {
            let c = expect(t, f.1, Tk::Comma, "expected `,` between the instances of `unique`"@);
            match c.0 {
                None => (None, c.1, f.2 + c.2),
                Some(_) => {
                    let s = parse_name(t, c.1);
                    match s.0 {
                        None => (None, s.1, f.2 + c.2 + s.2),
                        Some((second, _)) => {
                            let k = expect(t, s.1, Tk::Keyword(Keyword::As), "expected `as` before the `unique` alias"@);
                            match k.0 {
                                None => (None, k.1, f.2 + c.2 + s.2 + k.2),
                                Some(_) => {
                                    let al = parse_name(t, k.1);
                                    match al.0 {
                                        None => (None, al.1, f.2 + c.2 + s.2 + k.2 + al.2),
                                        Some((alias, _)) => {
                                            let e = expect(t, al.1, Tk::Semicolon, "expected `;` after `unique`"@);
                                            match e.0 {
                                                None => (None, e.1, f.2 + c.2 + s.2 + k.2 + al.2 + e.2),
                                                Some(end) => (
                                                    Some(
                                                        SStmt::Unique(
                                                            bytes_as_chars(first),
                                                            bytes_as_chars(second),
                                                            bytes_as_chars(alias),
                                                            span_join(start, end.span),
                                                        ),
                                                    ),
                                                    e.1,
                                                    f.2 + c.2 + s.2 + k.2 + al.2 + e.2,
                                                ),
                                            }
                                        },
                                    }
                                },
                            }
                        },
                    }
                },
            }
        },
    }
}

/// `show expr;`
pub open spec fn parse_show(t: Seq<Tok>, p: int) -> (Option<SStmt>, int, Seq<SDiagnostic>) {
    let start = span_at(t, p);
    let e = parse_expr(t, bump(t, p));
    match e.0 {
        None => (None, e.1, e.2),
        Some(expr) => {
            let c = expect(t, e.1, Tk::Semicolon, "expected `;` after show statement"@);
            match c.0 {
                None => (None, c.1, e.2 + c.2),
                Some(end) => (Some(SStmt::Show(expr, span_join(start, end.span))), c.1, e.2 + c.2),
            }
        },
    }
}

// ---------------------------------------------------------------------------
// Action payloads.

/// A value of an `actions` payload.
pub open spec fn parse_value(t: Seq<Tok>, p: int) -> (Option<SValue>, int, Seq<SDiagnostic>)
    decreases t.len() - p, 0nat,
    when wf_toks(t) && 0 <= p < t.len()
{
    match kind_at(t, p) {
        Tk::Str(v) => (Some(SValue::Str(bytes_as_chars(v))), bump(t, p), seq![]),
        Tk::Number(n) => (Some(SValue::Number(n)), bump(t, p), seq![]),
        Tk::Ident(w) => (Some(SValue::Word(bytes_as_chars(w))), bump(t, p), seq![]),
        Tk::LBrace => {
            let q = bump(t, p);
            if q <= p {
                (None, q, seq![])
            } else if kind_at(t, q) == Tk::RBrace {
                (Some(SValue::Object(seq![])), bump(t, q), seq![])
            } else {
                let m = members_from(t, q, seq![]);
                match m.0 {
                    None => (None, m.1, m.2),
                    Some(members) => {
                        let c = expect(t, m.1, Tk::RBrace, "expected `}` after an object"@);
                        match c.0 {
                            None => (None, c.1, m.2 + c.2),
                            Some(_) => (Some(SValue::Object(members)), c.1, m.2 + c.2),
                        }
                    },
                }
            }
        },
        Tk::LBracket => {
            let q = bump(t, p);
            if q <= p {
                (None, q, seq![])
            } else if kind_at(t, q) == Tk::RBracket {
                (Some(SValue::List(seq![])), bump(t, q), seq![])
            } else {
                let m = values_from(t, q, seq![]);
                match m.0 {
                    None => (None, m.1, m.2),
                    Some(values) => {
                        let c = expect(t, m.1, Tk::RBracket, "expected `]` after a list"@);
                        match c.0 {
                            None => (None, c.1, m.2 + c.2),
                            Some(_) => (Some(SValue::List(values)), c.1, m.2 + c.2),
                        }
                    },
                }
            }
        },
        _ => (None, bump(t, p), err1("expected a value"@, span_at(t, p))),
    }
}

/// Comma-separated values.
pub open spec fn values_from(t: Seq<Tok>, p: int, acc: Seq<SValue>) -> (Option<Seq<SValue>>, int, Seq<SDiagnostic>)
    decreases t.len() - p, 1nat,
    when wf_toks(t) && 0 <= p < t.len()
{
    let a = parse_value(t, p);
    match a.0 {
        None => (None, a.1, a.2),
        Some(v) => {
            if kind_at(t, a.1) == Tk::Comma {
                let q = bump(t, a.1);
                if q <= p || q >= t.len() {
                    (None, q, a.2)
                } else {
                    let r = values_from(t, q, acc.push(v));
                    (r.0, r.1, a.2 + r.2)
                }
            } else {
                (Some(acc.push(v)), a.1, a.2)
            }
        },
    }
}

/// Comma-separated `"key": value` members.
pub open spec fn members_from(t: Seq<Tok>, p: int, acc: Seq<(Seq<char>, SValue)>) -> (
    Option<Seq<(Seq<char>, SValue)>>,
    int,
    Seq<SDiagnostic>,
)
    decreases t.len() - p, 1nat,
    when wf_toks(t) && 0 <= p < t.len()
{
    let k = expect_string(t, p, "expected a string key"@);
    match k.0 {
        None => (None, k.1, k.2),
        Some(key) => {
            let c = expect(t, k.1, Tk::Colon, "expected `:` after a key"@);
            match c.0 {
                None => (None, c.1, k.2 + c.2),
                Some(_) => {
                    if c.1 <= p || c.1 >= t.len() {
                        (None, c.1, k.2 + c.2)
                    } else {
                        let v = parse_value(t, c.1);
                        match v.0 {
                            None => (None, v.1, k.2 + c.2 + v.2),
                            Some(value) => {
                                let m = (bytes_as_chars(key), value);
                                if kind_at(t, v.1) == Tk::Comma {
                                    let q = bump(t, v.1);
                                    if q <= p || q >= t.len() {
                                        (None, q, k.2 + c.2 + v.2)
                                    } else {
                                        let r = members_from(t, q, acc.push(m));
                                        (r.0, r.1, k.2 + c.2 + v.2 + r.2)
                                    }
                                } else {
                                    (Some(acc.push(m)), v.1, k.2 + c.2 + v.2)
                                }
                            },
                        }
                    }
                },
            }
        },
    }
}

/// `actions [ values ]`, optionally followed by `;`.
pub open spec fn parse_actions(t: Seq<Tok>, p: int) -> (Option<SStmt>, int, Seq<SDiagnostic>) {
    let start = span_at(t, p);
    let o = expect(t, bump(t, p), Tk::LBracket, "expected `[` after `actions`"@);
    match o.0 {
        None => (None, o.1, o.2),
        Some(_) => {
            let v = if kind_at(t, o.1) == Tk::RBracket {
                (Some(Seq::<SValue>::empty()), o.1, Seq::<SDiagnostic>::empty())
            } else {
                values_from(t, o.1, seq![])
            };
            match v.0 {
                None => (None, v.1, o.2 + v.2),
                Some(values) => {
                    let c = expect(t, v.1, Tk::RBracket, "expected `]` after actions"@);
                    match c.0 {
                        None => (None, c.1, o.2 + v.2 + c.2),
                        Some(close) => {
                            if kind_at(t, c.1) == Tk::Semicolon {
                                (
                                    Some(SStmt::Actions(values, span_join(start, span_at(t, c.1)))),
                                    bump(t, c.1),
                                    o.2 + v.2 + c.2,
                                )
                            } else {
                                (Some(SStmt::Actions(values, span_join(start, close.span))), c.1, o.2 + v.2 + c.2)
                            }
                        },
                    }
                },
            }
        },
    }
}

// ---------------------------------------------------------------------------
// Declarations, folders and statement lists.

pub open spec fn decl_kind(k: Tk) -> DeclKind {
    if k == Tk::Keyword(Keyword::Schema) {
        DeclKind::Schema
    } else if k == Tk::Keyword(Keyword::Property) {
        DeclKind::Property
    } else if k == Tk::Keyword(Keyword::Struct) {
        DeclKind::Struct
    } else {
        DeclKind::Macro
    }
}

pub open spec fn is_decl_keyword(k: Tk) -> bool {
    k == Tk::Keyword(Keyword::Schema) || k == Tk::Keyword(Keyword::Property) || k == Tk::Keyword(Keyword::Struct)
        || k == Tk::Keyword(Keyword::Macro)
}

/// `schema|property|struct|macro Name(params) { statements }`
pub open spec fn parse_schema(t: Seq<Tok>, p: int) -> (Option<SSchemaDecl>, int, Seq<SDiagnostic>)
    decreases t.len() - p, 0nat,
    when wf_toks(t) && 0 <= p < t.len()
{
    let kind = decl_kind(kind_at(t, p));
    let start = span_at(t, p);
    let n = parse_name(t, bump(t, p));
    match n.0 {
        None => (None, n.1, n.2),
        Some((name, _)) => {
            let o = expect(t, n.1, Tk::LParen, "expected `(` after schema name"@);
            match o.0 {
                None => (None, o.1, n.2 + o.2),
                Some(_) => {
                    let a = if kind_at(t, o.1) == Tk::RParen {
                        (Some(Seq::<SParam>::empty()), o.1, Seq::<SDiagnostic>::empty())
                    } else {
                        params_from(t, o.1, seq![])
                    };
                    match a.0 {
                        None => (None, a.1, n.2 + o.2 + a.2),
                        Some(params) => {
                            let c = expect(t, a.1, Tk::RParen, "expected `)` after parameters"@);
                            match c.0 {
                                None => (None, c.1, n.2 + o.2 + a.2 + c.2),
                                Some(_) => {
                                    let lb = expect(t, c.1, Tk::LBrace, "expected `{` before schema body"@);
                                    let d = n.2 + o.2 + a.2 + c.2 + lb.2;
                                    match lb.0 {
                                        None => (None, lb.1, d),
                                        Some(_) => {
                                            if lb.1 <= p || lb.1 >= t.len() {
                                                (None, lb.1, d)
                                            } else {
                                                let b = stmts_from(t, lb.1, true, seq![]);
                                                let e = expect(t, b.1, Tk::RBrace, "expected `}` after schema body"@);
                                                match e.0 {
                                                    None => (None, e.1, d + b.2 + e.2),
                                                    Some(end) => (
                                                        Some(SSchemaDecl {
                                                            name: bytes_as_chars(name),
                                                            kind,
                                                            params,
                                                            body: b.0,
                                                            span: span_join(start, end.span),
                                                        }),
                                                        e.1,
                                                        d + b.2 + e.2,
                                                    ),
                                                }
                                            }
                                        },
                                    }
                                },
                            }
                        },
                    }
                },
            }
        },
    }
}

/// `folder Name { statements }`
pub open spec fn parse_folder(t: Seq<Tok>, p: int) -> (Option<SStmt>, int, Seq<SDiagnostic>)
    decreases t.len() - p, 0nat,
    when wf_toks(t) && 0 <= p < t.len()
{
    let start = span_at(t, p);
    let n = parse_name(t, bump(t, p));
    match n.0 {
        None => (None, n.1, n.2),
        Some((name, _)) => {
            let lb = expect(t, n.1, Tk::LBrace, "expected `{` after folder name"@);
            match lb.0 {
                None => (None, lb.1, n.2 + lb.2),
                Some(_) => {
                    if lb.1 <= p || lb.1 >= t.len() {
                        (None, lb.1, n.2 + lb.2)
                    } else {
                        let b = stmts_from(t, lb.1, true, seq![]);
                        let e = expect(t, b.1, Tk::RBrace, "expected `}` after folder body"@);
                        match e.0 {
                            None => (None, e.1, n.2 + lb.2 + b.2 + e.2),
                            Some(end) => (
                                Some(SStmt::Folder(bytes_as_chars(name), b.0, span_join(start, end.span))),
                                e.1,
                                n.2 + lb.2 + b.2 + e.2,
                            ),
                        }
                    }
                },
            }
        },
    }
}

pub open spec fn lift<A, B>(r: (Option<A>, int, Seq<SDiagnostic>), f: spec_fn(A) -> B) -> (Option<B>, int, Seq<SDiagnostic>) {
    (
        match r.0 {
            Some(a) => Some(f(a)),
            None => None,
        },
        r.1,
        r.2,
    )
}

/// One statement, chosen by its first token.
pub open spec fn parse_stmt(t: Seq<Tok>, p: int) -> (Option<SStmt>, int, Seq<SDiagnostic>)
    decreases t.len() - p, 1nat,
    when wf_toks(t) && 0 <= p < t.len()
{
    let k = kind_at(t, p);
    if k == Tk::Keyword(Keyword::Cell) {
        lift(parse_cell(t, p), |d: SCellDecl| SStmt::Cell(d))
    } else if k == Tk::Keyword(Keyword::Prove) || k == Tk::Keyword(Keyword::Construct) {
        lift(parse_proof(t, p), |d: SProofDecl| SStmt::Proof(d))
    } else if is_decl_keyword(k) {
        lift(parse_schema(t, p), |d: SSchemaDecl| SStmt::Schema(d))
    } else if k == Tk::Keyword(Keyword::Use) {
        lift(parse_use(t, p), |d: SUseDecl| SStmt::Use(d))
    } else if k == Tk::Keyword(Keyword::Unique) {
        parse_unique(t, p)
    } else if k == Tk::Keyword(Keyword::Folder) {
        parse_folder(t, p)
    } else if k == Tk::Keyword(Keyword::Actions) {
        parse_actions(t, p)
    } else if k == Tk::Keyword(Keyword::Show) {
        parse_show(t, p)
    } else if k == Tk::Keyword(Keyword::Title) || k == Tk::Keyword(Keyword::Author) || k == Tk::Keyword(
        Keyword::Abstract,
    ) {
        parse_metadata(t, p)
    } else if k == Tk::Eof {
        (None, p, seq![])
    } else {
        (None, bump(t, p), err1("expected a statement"@, span_at(t, p)))
    }
}

/// Statements from `p` up to the end (or, in a block, up to the closing brace),
/// skipping to the next `;` after a statement that fails to parse.
pub open spec fn stmts_from(t: Seq<Tok>, p: int, in_block: bool, acc: Seq<SStmt>) -> (Seq<SStmt>, int, Seq<SDiagnostic>)
    decreases t.len() - p, 2nat,
    when wf_toks(t) && 0 <= p < t.len()
{
    if kind_at(t, p) == Tk::Eof || (in_block && kind_at(t, p) == Tk::RBrace) {
        (acc, p, seq![])
    } else {
        let s = parse_stmt(t, p);
        let (next, acc2) = match s.0 {
            Some(st) => (s.1, acc.push(st)),
            None => (synchronize(t, s.1), acc),
        };
        if next <= p || next >= t.len() {
            (acc2, next, s.2)
        } else {
            let r = stmts_from(t, next, in_block, acc2);
            (r.0, r.1, s.2 + r.2)
        }
    }
}

/// The statements of a whole token sequence, and the parse diagnostics.
pub open spec fn spec_program(t: Seq<Tok>) -> (Seq<SStmt>, Seq<SDiagnostic>) {
    let r = stmts_from(t, 0, false, seq![]);
    (r.0, r.2)
}

// ---------------------------------------------------------------------------
// The executable parser.

/// Parser state: the tokens, the cursor and the diagnostics so far.
pub struct Parser {
    pub tokens: Vec<Token>,
    pub cursor: usize,
    pub diagnostics: Vec<Diagnostic>,
}

/// Equality of token kinds.
pub fn kind_eq(a: &TokenKind, b: &TokenKind) -> (r: bool)
    ensures
        r == (a@ == b@),
{
    match a {
        TokenKind::Ident(x) => match b {
            TokenKind::Ident(y) => crate::text::bytes_order(x.as_slice(), y.as_slice()) == 0,
            _ => false,
        },
        TokenKind::Str(x) => match b {
            TokenKind::Str(y) => crate::text::bytes_order(x.as_slice(), y.as_slice()) == 0,
            _ => false,
        },
        TokenKind::Number(x) => match b {
            TokenKind::Number(y) => *x == *y,
            _ => false,
        },
        TokenKind::Keyword(x) => match b {
            TokenKind::Keyword(y) => *x == *y,
            _ => false,
        },
        TokenKind::Colon => matches!(b, TokenKind::Colon),
        TokenKind::Semicolon => matches!(b, TokenKind::Semicolon),
        TokenKind::Comma => matches!(b, TokenKind::Comma),
        TokenKind::Dot => matches!(b, TokenKind::Dot),
        TokenKind::LParen => matches!(b, TokenKind::LParen),
        TokenKind::RParen => matches!(b, TokenKind::RParen),
        TokenKind::LBrace => matches!(b, TokenKind::LBrace),
        TokenKind::RBrace => matches!(b, TokenKind::RBrace),
        TokenKind::LBracket => matches!(b, TokenKind::LBracket),
        TokenKind::RBracket => matches!(b, TokenKind::RBracket),
        TokenKind::Lt => matches!(b, TokenKind::Lt),
        TokenKind::Gt => matches!(b, TokenKind::Gt),
        TokenKind::Star => matches!(b, TokenKind::Star),
        TokenKind::Equals => matches!(b, TokenKind::Equals),
        TokenKind::Arrow => matches!(b, TokenKind::Arrow),
        TokenKind::DoubleArrow => matches!(b, TokenKind::DoubleArrow),
        TokenKind::Eof => matches!(b, TokenKind::Eof),
    }
}

pub open spec fn expr_view_of(e: Expr) -> SExpr {
    e@
}

impl Expr {
    /// The span of the whole expression.
    pub fn span(&self) -> (r: Span)
        ensures
            r == sexpr_span(self@),
    {
        match self {
            Expr::Name { span, .. } => *span,
            Expr::Identity { span, .. } => *span,
            Expr::Inverse { span, .. } => *span,
            Expr::Contract { span, .. } => *span,
            Expr::Compose { span, .. } => *span,
        }
    }
}

pub open spec fn opt_stmt(r: Option<Stmt>) -> Option<SStmt> {
    match r {
        Some(e) => Some(e@),
        None => None,
    }
}

pub open spec fn opt_str(r: Option<String>) -> Option<Seq<char>> {
    match r {
        Some(e) => Some(e@),
        None => None,
    }
}

pub open spec fn opt_expr(r: Option<Expr>) -> Option<SExpr> {
    match r {
        Some(e) => Some(e@),
        None => None,
    }
}

impl Parser {
    pub open spec fn toks(&self) -> Seq<Tok> {
        toks_view(self.tokens@)
    }

    pub open spec fn inv(&self) -> bool {
        &&& wf_toks(self.toks())
        &&& self.cursor < self.tokens@.len()
    }

    pub open spec fn diags(&self) -> Seq<SDiagnostic> {
        diags_view(self.diagnostics@)
    }

    /// Whether the parser moved from `old` to `self` following the spec result `s`.
    pub open spec fn follows<T>(&self, old: &Parser, s: (Option<T>, int, Seq<SDiagnostic>)) -> bool {
        &&& self.tokens@ == old.tokens@
        &&& self.inv()
        &&& self.cursor as int == s.1
        &&& self.diags() == old.diags() + s.2
        &&& self.cursor >= old.cursor
    }

    /// A parser over `tokens`, which must end with `Eof`.
    pub fn new(tokens: Vec<Token>) -> (r: Parser)
        requires
            wf_toks(toks_view(tokens@)),
        ensures
            r.inv(),
            r.tokens@ == tokens@,
            r.cursor == 0,
            r.diagnostics@.len() == 0,
    {
        Parser { tokens, cursor: 0, diagnostics: Vec::new() }
    }

    /// The current token's kind.
    pub fn peek_kind(&self) -> (r: &TokenKind)
        requires
            self.inv(),
        ensures
            r@ == kind_at(self.toks(), self.cursor as int),
    {
        &self.tokens[self.cursor].kind
    }

    /// The current token's span.
    pub fn peek_span(&self) -> (r: Span)
        requires
            self.inv(),
        ensures
            r == span_at(self.toks(), self.cursor as int),
    {
        self.tokens[self.cursor].span
    }

    /// Whether the current token has kind `k`.
    pub fn at(&self, k: &TokenKind) -> (r: bool)
        requires
            self.inv(),
        ensures
            r == (kind_at(self.toks(), self.cursor as int) == k@),
    {
        kind_eq(&self.tokens[self.cursor].kind, k)
    }

    /// Whether the current token is the keyword `k`.
    pub fn at_keyword(&self, k: Keyword) -> (r: bool)
        requires
            self.inv(),
        ensures
            r == (kind_at(self.toks(), self.cursor as int) == Tk::Keyword(k)),
    {
        match &self.tokens[self.cursor].kind {
            TokenKind::Keyword(x) => *x == k,
            _ => false,
        }
    }

    /// Moves past the current token (never past `Eof`) and returns its index.
    pub fn bump(&mut self) -> (r: usize)
        requires
            old(self).inv(),
        ensures
            r == old(self).cursor,
            final(self).cursor as int == bump(old(self).toks(), old(self).cursor as int),
            final(self).tokens == old(self).tokens,
            final(self).diagnostics == old(self).diagnostics,
            final(self).inv(),
    {
        let cursor = self.cursor;
        if self.cursor < self.tokens.len() - 1 {
            self.cursor = self.cursor + 1;
        } else {
            self.cursor = self.tokens.len() - 1;
        }
        cursor
    }

    /// Reports an error.
    pub fn error_text(&mut self, message: &str, span: Span)
        ensures
            final(self).diags() == old(self).diags().push(error_diag(message@, span)),
            final(self).tokens == old(self).tokens,
            final(self).cursor == old(self).cursor,
    {
        let d = Diagnostic::error_text(message, span);
        proof {
            lemma_diags_view_push(self.diagnostics@, d);
        }
        self.diagnostics.push(d);
    }

    /// Consumes a token of kind `k`, or reports `message`; returns the consumed
    /// token's span.
    pub fn expect(&mut self, k: &TokenKind, message: &str) -> (r: Option<Span>)
        requires
            old(self).inv(),
        ensures
            ({
                let s = expect(old(self).toks(), old(self).cursor as int, k@, message@);
                &&& final(self).follows(old(self), s)
                &&& r == (match s.0 {
                    Some(tk) => Some(tk.span),
                    None => None::<Span>,
                })
            }),
    {
        if self.at(k) {
            let i = self.bump();
            assert(old(self).diags() + seq![] =~= old(self).diags());
            Some(self.tokens[i].span)
        } else {
            let span = self.peek_span();
            self.error_text(message, span);
            assert(old(self).diags().push(error_diag(message@, span)) =~= old(self).diags() + err1(message@, span));
            None
        }
    }

    /// Consumes the keyword `k`, or reports `message`.
    pub fn expect_keyword(&mut self, k: Keyword, message: &str) -> (r: Option<Span>)
        requires
            old(self).inv(),
        ensures
            ({
                let s = expect(old(self).toks(), old(self).cursor as int, Tk::Keyword(k), message@);
                &&& final(self).follows(old(self), s)
                &&& r == (match s.0 {
                    Some(tk) => Some(tk.span),
                    None => None::<Span>,
                })
            }),
    {
        if self.at_keyword(k) {
            let i = self.bump();
            assert(old(self).diags() + seq![] =~= old(self).diags());
            Some(self.tokens[i].span)
        } else {
            let span = self.peek_span();
            self.error_text(message, span);
            assert(old(self).diags().push(error_diag(message@, span)) =~= old(self).diags() + err1(message@, span));
            None
        }
    }

    /// Consumes a number, or reports `message` (consuming the token).
    pub fn expect_number(&mut self, message: &str) -> (r: Option<usize>)
        requires
            old(self).inv(),
        ensures
            ({
                let s = expect_number(old(self).toks(), old(self).cursor as int, message@);
                &&& final(self).follows(old(self), s)
                &&& r == s.0
            }),
    {
        let i = self.bump();
        match &self.tokens[i].kind {
            TokenKind::Number(n) => {
                assert(old(self).diags() + seq![] =~= old(self).diags());
                Some(*n)
            },
            _ => {
                let span = self.tokens[i].span;
                self.error_text(message, span);
                assert(old(self).diags().push(error_diag(message@, span)) =~= old(self).diags() + err1(message@, span));
                None
            },
        }
    }

    /// Consumes `k` if it is the current token.
    pub fn eat(&mut self, k: &TokenKind) -> (r: bool)
        requires
            old(self).inv(),
        ensures
            r == (kind_at(old(self).toks(), old(self).cursor as int) == k@),
            final(self).cursor as int == (if r {
                bump(old(self).toks(), old(self).cursor as int)
            } else {
                old(self).cursor as int
            }),
            final(self).tokens == old(self).tokens,
            final(self).diagnostics == old(self).diagnostics,
            final(self).inv(),
    {
        if self.at(k) {
            self.bump();
            true
        } else {
            false
        }
    }

    /// Skips to just after the next `;`, or to the next `}` or the end.
    pub fn synchronize(&mut self)
        requires
            old(self).inv(),
        ensures
            final(self).cursor as int == synchronize(old(self).toks(), old(self).cursor as int),
            final(self).tokens == old(self).tokens,
            final(self).diagnostics == old(self).diagnostics,
            final(self).inv(),
            final(self).cursor >= old(self).cursor,
    {
        while !self.at(&TokenKind::Eof)
            invariant
                self.inv(),
                self.tokens == old(self).tokens,
                self.diagnostics == old(self).diagnostics,
                self.cursor >= old(self).cursor,
                synchronize(self.toks(), self.cursor as int) == synchronize(old(self).toks(), old(self).cursor as int),
            decreases self.tokens@.len() - self.cursor,
        {
            if self.eat(&TokenKind::Semicolon) || self.at(&TokenKind::RBrace) {
                return;
            }
            let _n = self.tokens.len();
            assert(self.toks()[self.tokens@.len() - 1].kind == Tk::Eof);
            self.cursor = self.cursor + 1;
        }
    }

    /// A possibly dotted name and its span.
    pub fn parse_name(&mut self) -> (r: Option<(Vec<u8>, Span)>)
        requires
            old(self).inv(),
        ensures
            ({
                let s = parse_name(old(self).toks(), old(self).cursor as int);
                &&& final(self).follows(old(self), s)
                &&& s.0 == (match r {
                    Some((v, sp)) => Some((v@, sp)),
                    None => None::<(Seq<u8>, Span)>,
                })
            }),
            r is Some ==> final(self).cursor > old(self).cursor,
    {
        let ghost t = self.toks();
        let i = self.bump();
        let mut name = match &self.tokens[i].kind {
            TokenKind::Ident(first) => copy_bytes(first.as_slice()),
            _ => {
                let span = self.tokens[i].span;
                self.error_text("expected a name", span);
                assert(old(self).diags().push(error_diag("expected a name"@, span)) =~= old(self).diags() + err1("expected a name"@, span));
                return None;
            },
        };
        let mut span = self.tokens[i].span;
        assert(old(self).diags() + seq![] =~= old(self).diags());
        loop
            invariant
                self.inv(),
                self.toks() == t,
                t == old(self).toks(),
                self.tokens == old(self).tokens,
                self.diagnostics == old(self).diagnostics,
                self.cursor > old(self).cursor,
                name_rest(t, self.cursor as int, name@, span) == parse_name(t, old(self).cursor as int),
            decreases self.tokens@.len() - self.cursor,
        {
            if !self.at(&TokenKind::Dot) {
                assert(old(self).diags() + seq![] =~= old(self).diags());
                return Some((name, span));
            }
            let ghost p = self.cursor as int;
            self.bump();
            let j = self.bump();
            match &self.tokens[j].kind {
                TokenKind::Ident(seg) => {
                    let ghost old_name = name@;
                    assert(t[j as int].kind == Tk::Ident(seg@));
                    name.push(46);
                    append_bytes(&mut name, seg.as_slice());
                    assert(name@ =~= old_name + seq![46u8] + seg@);
                    span = span.join(self.tokens[j].span);
                },
                _ => {
                    let sp = self.tokens[j].span;
                    self.error_text("expected a name segment after `.`", sp);
                    assert(old(self).diags().push(error_diag("expected a name segment after `.`"@, sp))
                        =~= old(self).diags() + err1("expected a name segment after `.`"@, sp));
                    return None;
                },
            }
        }
    }

    /// The bias word after the comma of `contract(expr, bias)`.
    pub fn parse_bias(&mut self) -> (r: Option<Bias>)
        requires
            old(self).inv(),
        ensures
            ({
                let s = parse_bias(old(self).toks(), old(self).cursor as int);
                &&& final(self).follows(old(self), s)
                &&& r == s.0
            }),
    {
        let i = self.bump();
        let b = self.word_bias(i);
        match b {
            Some(b) => {
                assert(old(self).diags() + seq![] =~= old(self).diags());
                Some(b)
            },
            None => {
                let span = self.tokens[i].span;
                self.error_text("expected `lower`, `higher` or `same`", span);
                assert(old(self).diags().push(error_diag("expected `lower`, `higher` or `same`"@, span))
                    =~= old(self).diags() + err1("expected `lower`, `higher` or `same`"@, span));
                None
            },
        }
    }

    /// The bias named by token `i`, if it names one.
    pub fn word_bias(&self, i: usize) -> (r: Option<Bias>)
        requires
            i < self.tokens@.len(),
        ensures
            r == bias_word(self.toks()[i as int].kind),
    {
        match &self.tokens[i].kind {
            TokenKind::Ident(w) => {
                let text = string_from_bytes(w.as_slice());
                if crate::text::str_eq(text.as_str(), "lower") {
                    Some(Bias::Lower)
                } else if crate::text::str_eq(text.as_str(), "higher") {
                    Some(Bias::Higher)
                } else if crate::text::str_eq(text.as_str(), "same") {
                    Some(Bias::Same)
                } else {
                    None
                }
            },
            _ => None,
        }
    }

    /// A term: `id(e)`, `inv(e)`, `contract(e[, bias])`, `(e)` or a name.
    pub fn parse_term(&mut self) -> (r: Option<Expr>)
        requires
            old(self).inv(),
        ensures
            ({
                let s = parse_term(old(self).toks(), old(self).cursor as int);
                &&& final(self).follows(old(self), s)
                &&& opt_expr(r) == s.0
            }),
            r is Some ==> final(self).cursor > old(self).cursor,
        decreases old(self).tokens@.len() - old(self).cursor, 0nat,
    {
        let ghost t = self.toks();
        let ghost p = self.cursor as int;
        let ghost d0 = self.diags();
        let is_id = self.at_keyword(Keyword::Id);
        let is_inv = self.at_keyword(Keyword::Inv);
        let is_contract = self.at_keyword(Keyword::Contract);
        if is_id || is_inv || is_contract {
            let start = self.peek_span();
            self.bump();
            let open_msg = if is_id {
                "expected `(` after id"
            } else if is_inv {
                "expected `(` after inv"
            } else {
                "expected `(` after contract"
            };
            let ghost d1 = self.diags();
            if self.expect(&TokenKind::LParen, open_msg).is_none() {
                return None;
            }
            let ghost o = expect(t, bump(t, p), Tk::LParen, open_msg@);
            let ghost d2 = self.diags();
            let inner = match self.parse_expr() {
                Some(e) => e,
                None => {
                    assert(self.diags() =~= d0 + (o.2 + parse_expr(t, o.1).2));
                    return None;
                },
            };
            let ghost e = parse_expr(t, o.1);
            if is_contract {
                let ghost at_comma = kind_at(t, e.1) == Tk::Comma;
                let bias = if self.at(&TokenKind::Comma) {
                    self.bump();
                    match self.parse_bias() {
                        Some(b) => b,
                        None => {
                            assert(self.diags() =~= d0 + (o.2 + e.2 + parse_bias(t, bump(t, e.1)).2));
                            return None;
                        },
                    }
                } else {
                    Bias::Lower
                };
                let ghost b = if at_comma {
                    parse_bias(t, bump(t, e.1))
                } else {
                    (Some(Bias::Lower), e.1, Seq::<SDiagnostic>::empty())
                };
                let end = match self.expect(&TokenKind::RParen, "expected `)` after contraction expression") {
                    Some(sp) => sp,
                    None => {
                        assert(self.diags() =~= d0 + (o.2 + e.2 + b.2 + expect(t, b.1, Tk::RParen, "expected `)` after contraction expression"@).2));
                        return None;
                    },
                };
                assert(self.diags() =~= d0 + (o.2 + e.2 + b.2 + expect(t, b.1, Tk::RParen, "expected `)` after contraction expression"@).2));
                Some(Expr::Contract { expr: Box::new(inner), bias, span: start.join(end) })
            } else {
                let close_msg = if is_id {
                    "expected `)` after identity expression"
                } else {
                    "expected `)` after inverse expression"
                };
                let end = match self.expect(&TokenKind::RParen, close_msg) {
                    Some(sp) => sp,
                    None => {
                        assert(self.diags() =~= d0 + (o.2 + e.2 + expect(t, e.1, Tk::RParen, close_msg@).2));
                        return None;
                    },
                };
                assert(self.diags() =~= d0 + (o.2 + e.2 + expect(t, e.1, Tk::RParen, close_msg@).2));
                if is_id {
                    Some(Expr::Identity { expr: Box::new(inner), span: start.join(end) })
                } else {
                    Some(Expr::Inverse { expr: Box::new(inner), span: start.join(end) })
                }
            }
        } else if self.at(&TokenKind::LParen) {
            self.bump();
            let inner = match self.parse_expr() {
                Some(e) => e,
                None => {
                    return None;
                },
            };
            let ghost e = parse_expr(t, bump(t, p));
            if self.expect(&TokenKind::RParen, "expected `)` after expression").is_none() {
                assert(self.diags() =~= d0 + (e.2 + expect(t, e.1, Tk::RParen, "expected `)` after expression"@).2));
                return None;
            }
            assert(self.diags() =~= d0 + (e.2 + expect(t, e.1, Tk::RParen, "expected `)` after expression"@).2));
            Some(inner)
        } else {
            match self.parse_name() {
                Some((name, span)) => Some(Expr::Name { name: string_from_bytes(name.as_slice()), span }),
                None => None,
            }
        }
    }

    /// An expression: terms joined by `*`.
    pub fn parse_expr(&mut self) -> (r: Option<Expr>)
        requires
            old(self).inv(),
        ensures
            ({
                let s = parse_expr(old(self).toks(), old(self).cursor as int);
                &&& final(self).follows(old(self), s)
                &&& opt_expr(r) == s.0
            }),
            r is Some ==> final(self).cursor > old(self).cursor,
        decreases old(self).tokens@.len() - old(self).cursor, 1nat,
    {
        let ghost t = self.toks();
        let ghost p = self.cursor as int;
        let ghost big = parse_expr(t, p);
        let first = match self.parse_term() {
            Some(e) => e,
            None => {
                return None;
            },
        };
        let mut terms: Vec<Expr> = Vec::new();
        terms.push(first);
        proof {
            lemma_exprs_view_push(Seq::empty(), terms@[0]);
            assert(Seq::<Expr>::empty().push(terms@[0]) =~= terms@);
            assert(exprs_view(Seq::<Expr>::empty()) =~= Seq::<SExpr>::empty());
            assert(Seq::<SExpr>::empty().push(expr_view_of(terms@[0])) =~= seq![expr_view_of(terms@[0])]);
            let a = parse_term(t, p);
            let rest = expr_rest(t, a.1, seq![expr_view_of(terms@[0])]);
            assert(old(self).diags() + (a.2 + rest.2) =~= old(self).diags() + a.2 + rest.2);
        }
        loop
            invariant
                self.inv(),
                self.toks() == t,
                t == old(self).toks(),
                self.tokens@ == old(self).tokens@,
                self.cursor > old(self).cursor,
                big == parse_expr(old(self).toks(), old(self).cursor as int),
                terms@.len() >= 1,
                ({
                    let rest = expr_rest(t, self.cursor as int, exprs_view(terms@));
                    &&& big.0 == rest.0
                    &&& big.1 == rest.1
                    &&& old(self).diags() + big.2 == self.diags() + rest.2
                }),
            decreases self.tokens@.len() - self.cursor,
        {
            let ghost c = self.cursor as int;
            let ghost cur = self.diags();
            if !self.at(&TokenKind::Star) {
                assert(self.diags() + seq![] =~= self.diags());
                proof {
                    crate::ast::lemma_exprs_view(terms@);
                }
                let ghost tv = exprs_view(terms@);
                assert(big.0 == Some(compose_of(tv)));
                assert(big.1 == self.cursor as int);
                assert(self.diags() == old(self).diags() + big.2);
                if terms.len() == 1 {
                    let e = terms.pop().unwrap();
                    assert(tv[0] == e@);
                    assert(compose_of(tv) == e@);
                    assert(opt_expr(Some(e)) == big.0);
                    assert(self.follows(old(self), big));
                    return Some(e);
                } else {
                    let n = terms.len();
                    let span = terms[0].span().join(terms[n - 1].span());
                    assert(tv[0] == terms@[0]@);
                    assert(tv[n - 1] == terms@[n - 1]@);
                    let r = Expr::Compose { terms, span };
                    assert(r@ == SExpr::Compose(tv, span));
                    return Some(r);
                }
            }
            self.bump();
            let term = match self.parse_term() {
                Some(e) => e,
                None => {
                    assert(expr_rest(t, c, exprs_view(terms@)).0 is None);
                    assert(big.0 is None);
                    assert(big.1 == self.cursor as int);
                    assert(self.diags() == old(self).diags() + big.2);
                    return None;
                },
            };
            proof {
                lemma_exprs_view_push(terms@, term);
                let a = parse_term(t, bump(t, c));
                let rest = expr_rest(t, a.1, exprs_view(terms@).push(term@));
                assert(cur + (a.2 + rest.2) =~= cur + a.2 + rest.2);
            }
            terms.push(term);
        }
    }

    /// Builds a name string from the bytes of a parsed name.
    fn name_string(v: &Vec<u8>) -> (r: String)
        ensures
            r@ == bytes_as_chars(v@),
    {
        string_from_bytes(v.as_slice())
    }

    /// `->` or `<->`, consuming the token.
    pub fn parse_relation(&mut self, message: &str) -> (r: Option<Invertibility>)
        requires
            old(self).inv(),
        ensures
            ({
                let s = parse_relation(old(self).toks(), old(self).cursor as int, message@);
                &&& final(self).follows(old(self), s)
                &&& r == s.0
            }),
    {
        let i = self.bump();
        match &self.tokens[i].kind {
            TokenKind::Arrow => {
                assert(old(self).diags() + seq![] =~= old(self).diags());
                Some(Invertibility::Directed)
            },
            TokenKind::DoubleArrow => {
                assert(old(self).diags() + seq![] =~= old(self).diags());
                Some(Invertibility::Invertible)
            },
            _ => {
                let span = self.tokens[i].span;
                self.error_text(message, span);
                assert(old(self).diags().push(error_diag(message@, span)) =~= old(self).diags() + err1(message@, span));
                None
            },
        }
    }

    /// `title|author|abstract "text";`
    pub fn parse_metadata(&mut self) -> (r: Option<Stmt>)
        requires
            old(self).inv(),
            kind_at(old(self).toks(), old(self).cursor as int) != Tk::Eof,
        ensures
            ({
                let s = parse_metadata(old(self).toks(), old(self).cursor as int);
                &&& final(self).follows(old(self), s)
                &&& opt_stmt(r) == s.0
            }),
            final(self).cursor > old(self).cursor,
    {
        let ghost t = self.toks();
        let ghost d0 = self.diags();
        let key = if self.at_keyword(Keyword::Title) {
            MetadataKey::Title
        } else if self.at_keyword(Keyword::Author) {
            MetadataKey::Author
        } else {
            MetadataKey::Abstract
        };
        let start = self.peek_span();
        self.bump();
        let value = match self.expect_string("expected a string literal") {
            Some(v) => v,
            None => {
                return None;
            },
        };
        let ghost sv = expect_string(t, bump(t, old(self).cursor as int), "expected a string literal"@);
        let end = match self.expect(&TokenKind::Semicolon, "expected `;` after metadata") {
            Some(e) => e,
            None => {
                assert(self.diags() =~= d0 + (sv.2 + expect(t, sv.1, Tk::Semicolon, "expected `;` after metadata"@).2));
                return None;
            },
        };
        assert(self.diags() =~= d0 + (sv.2 + expect(t, sv.1, Tk::Semicolon, "expected `;` after metadata"@).2));
        Some(Stmt::Metadata { key, value, span: start.join(end) })
    }

    /// `show expr;`
    pub fn parse_show(&mut self) -> (r: Option<Stmt>)
        requires
            old(self).inv(),
            kind_at(old(self).toks(), old(self).cursor as int) != Tk::Eof,
        ensures
            ({
                let s = parse_show(old(self).toks(), old(self).cursor as int);
                &&& final(self).follows(old(self), s)
                &&& opt_stmt(r) == s.0
            }),
            final(self).cursor > old(self).cursor,
    {
        let ghost t = self.toks();
        let ghost d0 = self.diags();
        let start = self.peek_span();
        self.bump();
        let expr = match self.parse_expr() {
            Some(e) => e,
            None => {
                return None;
            },
        };
        let ghost e = parse_expr(t, bump(t, old(self).cursor as int));
        let end = match self.expect(&TokenKind::Semicolon, "expected `;` after show statement") {
            Some(sp) => sp,
            None => {
                assert(self.diags() =~= d0 + (e.2 + expect(t, e.1, Tk::Semicolon, "expected `;` after show statement"@).2));
                return None;
            },
        };
        assert(self.diags() =~= d0 + (e.2 + expect(t, e.1, Tk::Semicolon, "expected `;` after show statement"@).2));
        Some(Stmt::Show { expr, span: start.join(end) })
    }

    /// `cell name;` or `cell name: source (->|<->) target;`
    pub fn parse_cell(&mut self) -> (r: Option<CellDecl>)
        requires
            old(self).inv(),
            kind_at(old(self).toks(), old(self).cursor as int) != Tk::Eof,
        ensures
            ({
                let s = parse_cell(old(self).toks(), old(self).cursor as int);
                &&& final(self).follows(old(self), s)
                &&& s.0 == (match r {
                    Some(d) => Some(d@),
                    None => None::<SCellDecl>,
                })
            }),
            final(self).cursor > old(self).cursor,
    {
        let ghost t = self.toks();
        let ghost d0 = self.diags();
        let start = self.peek_span();
        self.bump();
        let (name, _) = match self.parse_name() {
            Some(n) => n,
            None => {
                return None;
            },
        };
        let ghost n = parse_name(t, bump(t, old(self).cursor as int));
        let name = Self::name_string(&name);
        if self.eat(&TokenKind::Colon) {
            let source = match self.parse_expr() {
                Some(e) => e,
                None => {
                    assert(self.diags() =~= d0 + (n.2 + parse_expr(t, bump(t, n.1)).2));
                    return None;
                },
            };
            let ghost src = parse_expr(t, bump(t, n.1));
            let invertibility = match self.parse_relation("expected `->` or `<->` in cell declaration") {
                Some(i) => i,
                None => {
                    assert(self.diags() =~= d0 + (n.2 + src.2 + parse_relation(t, src.1, "expected `->` or `<->` in cell declaration"@).2));
                    return None;
                },
            };
            let ghost rel = parse_relation(t, src.1, "expected `->` or `<->` in cell declaration"@);
            let target = match self.parse_expr() {
                Some(e) => e,
                None => {
                    assert(self.diags() =~= d0 + (n.2 + src.2 + rel.2 + parse_expr(t, rel.1).2));
                    return None;
                },
            };
            let ghost tgt = parse_expr(t, rel.1);
            let end = match self.expect(&TokenKind::Semicolon, "expected `;` after cell declaration") {
                Some(sp) => sp,
                None => {
                    assert(self.diags() =~= d0 + (n.2 + src.2 + rel.2 + tgt.2 + expect(t, tgt.1, Tk::Semicolon, "expected `;` after cell declaration"@).2));
                    return None;
                },
            };
            assert(self.diags() =~= d0 + (n.2 + src.2 + rel.2 + tgt.2 + expect(t, tgt.1, Tk::Semicolon, "expected `;` after cell declaration"@).2));
            Some(CellDecl { name, source: Some(source), target: Some(target), invertibility, span: start.join(end) })
        } else {
            let end = match self.expect(&TokenKind::Semicolon, "expected `;` after cell declaration") {
                Some(sp) => sp,
                None => {
                    assert(self.diags() =~= d0 + (n.2 + expect(t, n.1, Tk::Semicolon, "expected `;` after cell declaration"@).2));
                    return None;
                },
            };
            assert(self.diags() =~= d0 + (n.2 + expect(t, n.1, Tk::Semicolon, "expected `;` after cell declaration"@).2));
            Some(CellDecl { name, source: None, target: None, invertibility: Invertibility::Directed, span: start.join(end) })
        }
    }

    /// `unique first, second as alias;`
    pub fn parse_unique(&mut self) -> (r: Option<Stmt>)
        requires
            old(self).inv(),
            kind_at(old(self).toks(), old(self).cursor as int) != Tk::Eof,
        ensures
            ({
                let s = parse_unique(old(self).toks(), old(self).cursor as int);
                &&& final(self).follows(old(self), s)
                &&& opt_stmt(r) == s.0
            }),
            final(self).cursor > old(self).cursor,
    {
        let ghost t = self.toks();
        let ghost d0 = self.diags();
        let start = self.peek_span();
        self.bump();
        let (first, _) = match self.parse_name() {
            Some(n) => n,
            None => {
                return None;
            },
        };
        let ghost f = parse_name(t, bump(t, old(self).cursor as int));
        if self.expect(&TokenKind::Comma, "expected `,` between the instances of `unique`").is_none() {
            assert(self.diags() =~= d0 + (f.2 + expect(t, f.1, Tk::Comma, "expected `,` between the instances of `unique`"@).2));
            return None;
        }
        let ghost c = expect(t, f.1, Tk::Comma, "expected `,` between the instances of `unique`"@);
        let (second, _) = match self.parse_name() {
            Some(n) => n,
            None => {
                assert(self.diags() =~= d0 + (f.2 + c.2 + parse_name(t, c.1).2));
                return None;
            },
        };
        let ghost sn = parse_name(t, c.1);
        if self.expect_keyword(Keyword::As, "expected `as` before the `unique` alias").is_none() {
            assert(self.diags() =~= d0 + (f.2 + c.2 + sn.2 + expect(t, sn.1, Tk::Keyword(Keyword::As), "expected `as` before the `unique` alias"@).2));
            return None;
        }
        let ghost k = expect(t, sn.1, Tk::Keyword(Keyword::As), "expected `as` before the `unique` alias"@);
        let (alias, _) = match self.parse_name() {
            Some(n) => n,
            None => {
                assert(self.diags() =~= d0 + (f.2 + c.2 + sn.2 + k.2 + parse_name(t, k.1).2));
                return None;
            },
        };
        let ghost al = parse_name(t, k.1);
        let end = match self.expect(&TokenKind::Semicolon, "expected `;` after `unique`") {
            Some(sp) => sp,
            None => {
                assert(self.diags() =~= d0 + (f.2 + c.2 + sn.2 + k.2 + al.2 + expect(t, al.1, Tk::Semicolon, "expected `;` after `unique`"@).2));
                return None;
            },
        };
        assert(self.diags() =~= d0 + (f.2 + c.2 + sn.2 + k.2 + al.2 + expect(t, al.1, Tk::Semicolon, "expected `;` after `unique`"@).2));
        Some(Stmt::Unique {
            first: Self::name_string(&first),
            second: Self::name_string(&second),
            alias: Self::name_string(&alias),
            span: start.join(end),
        })
    }

    /// One proof-body step: `attach expr;` or `contract [bias];`.
    pub fn parse_step(&mut self) -> (r: Option<ProofStep>)
        requires
            old(self).inv(),
        ensures
            ({
                let s = parse_step(old(self).toks(), old(self).cursor as int);
                &&& final(self).follows(old(self), s)
                &&& s.0 == (match r {
                    Some(d) => Some(d@),
                    None => None::<SProofStep>,
                })
            }),
            r is Some ==> final(self).cursor > old(self).cursor,
    {
        let ghost t = self.toks();
        let ghost p = self.cursor as int;
        let ghost d0 = self.diags();
        let start = self.peek_span();
        if self.at_keyword(Keyword::Attach) {
            self.bump();
            let expr = match self.parse_expr() {
                Some(e) => e,
                None => {
                    return None;
                },
            };
            let ghost e = parse_expr(t, bump(t, p));
            let end = match self.expect(&TokenKind::Semicolon, "expected `;` after attach") {
                Some(sp) => sp,
                None => {
                    assert(self.diags() =~= d0 + (e.2 + expect(t, e.1, Tk::Semicolon, "expected `;` after attach"@).2));
                    return None;
                },
            };
            assert(self.diags() =~= d0 + (e.2 + expect(t, e.1, Tk::Semicolon, "expected `;` after attach"@).2));
            Some(ProofStep::Attach { expr, span: start.join(end) })
        } else if self.at_keyword(Keyword::Contract) {
            self.bump();
            let bias = match self.word_bias(self.cursor) {
                Some(b) => {
                    self.bump();
                    b
                },
                None => Bias::Lower,
            };
            let end = match self.expect(&TokenKind::Semicolon, "expected `;` after contract") {
                Some(sp) => sp,
                None => {
                    return None;
                },
            };
            Some(ProofStep::Contract { bias, span: start.join(end) })
        } else {
            self.bump();
            self.error_text("expected `attach` or `contract` in a proof body", start);
            assert(d0.push(error_diag("expected `attach` or `contract` in a proof body"@, start))
                =~= d0 + err1("expected `attach` or `contract` in a proof body"@, start));
            None
        }
    }

    /// The steps of a proof body, up to its closing brace.
    pub fn parse_steps(&mut self) -> (r: Option<Vec<ProofStep>>)
        requires
            old(self).inv(),
        ensures
            ({
                let s = steps_from(old(self).toks(), old(self).cursor as int, seq![]);
                &&& final(self).follows(old(self), s)
                &&& s.0 == (match r {
                    Some(v) => Some(steps_view(v@)),
                    None => None::<Seq<SProofStep>>,
                })
            }),
    {
        let ghost t = self.toks();
        let ghost big = steps_from(t, self.cursor as int, seq![]);
        let mut steps: Vec<ProofStep> = Vec::new();
        assert(steps_view(steps@) =~= Seq::<SProofStep>::empty());
        assert(old(self).diags() + big.2 =~= self.diags() + big.2);
        loop
            invariant
                self.inv(),
                self.toks() == t,
                t == old(self).toks(),
                self.tokens@ == old(self).tokens@,
                self.cursor >= old(self).cursor,
                big == steps_from(old(self).toks(), old(self).cursor as int, seq![]),
                ({
                    let rest = steps_from(t, self.cursor as int, steps_view(steps@));
                    &&& big.0 == rest.0
                    &&& big.1 == rest.1
                    &&& old(self).diags() + big.2 == self.diags() + rest.2
                }),
            decreases self.tokens@.len() - self.cursor,
        {
            let ghost c = self.cursor as int;
            let ghost cur = self.diags();
            if self.at(&TokenKind::RBrace) || self.at(&TokenKind::Eof) {
                assert(self.diags() + seq![] =~= self.diags());
                return Some(steps);
            }
            let step = match self.parse_step() {
                Some(st) => st,
                None => {
                    return None;
                },
            };
            proof {
                let a = parse_step(t, c);
                assert(steps_view(steps@.push(step)) =~= steps_view(steps@).push(step@));
                let rest = steps_from(t, a.1, steps_view(steps@).push(step@));
                assert(cur + (a.2 + rest.2) =~= cur + a.2 + rest.2);
            }
            steps.push(step);
        }
    }

    /// `prove|construct name: source (->|<->) target (; | { steps })`
    #[verifier::rlimit(60)]
    #[verifier::spinoff_prover]
    pub fn parse_proof(&mut self) -> (r: Option<ProofDecl>)
        requires
            old(self).inv(),
            kind_at(old(self).toks(), old(self).cursor as int) != Tk::Eof,
        ensures
            ({
                let s = parse_proof(old(self).toks(), old(self).cursor as int);
                &&& final(self).follows(old(self), s)
                &&& s.0 == (match r {
                    Some(d) => Some(d@),
                    None => None::<SProofDecl>,
                })
            }),
            final(self).cursor > old(self).cursor,
    {
        let ghost t = self.toks();
        let ghost d0 = self.diags();
        let start = self.peek_span();
        self.bump();
        let (name, _) = match self.parse_name() {
            Some(n) => n,
            None => {
                return None;
            },
        };
        let ghost n = parse_name(t, bump(t, old(self).cursor as int));
        let name = Self::name_string(&name);
        if self.expect(&TokenKind::Colon, "expected `:` after proof name").is_none() {
            assert(self.diags() =~= d0 + (n.2 + expect(t, n.1, Tk::Colon, "expected `:` after proof name"@).2));
            return None;
        }
        let ghost c = expect(t, n.1, Tk::Colon, "expected `:` after proof name"@);
        let source = match self.parse_expr() {
            Some(e) => e,
            None => {
                assert(self.diags() =~= d0 + (n.2 + c.2 + parse_expr(t, c.1).2));
                return None;
            },
        };
        let ghost src = parse_expr(t, c.1);
        let invertibility = match self.parse_relation("expected `->` or `<->` in proof declaration") {
            Some(i) => i,
            None => {
                assert(self.diags() =~= d0 + (n.2 + c.2 + src.2 + parse_relation(t, src.1, "expected `->` or `<->` in proof declaration"@).2));
                return None;
            },
        };
        let ghost rel = parse_relation(t, src.1, "expected `->` or `<->` in proof declaration"@);
        let target = match self.parse_expr() {
            Some(e) => e,
            None => {
                assert(self.diags() =~= d0 + (n.2 + c.2 + src.2 + rel.2 + parse_expr(t, rel.1).2));
                return None;
            },
        };
        let ghost tgt = parse_expr(t, rel.1);
        let ghost d = n.2 + c.2 + src.2 + rel.2 + tgt.2;
        assert(self.diags() =~= d0 + d);
        if self.at(&TokenKind::LBrace) {
            self.bump();
            let steps = match self.parse_steps() {
                Some(v) => v,
                None => {
                    assert(self.diags() =~= d0 + (d + steps_from(t, bump(t, tgt.1), seq![]).2));
                    return None;
                },
            };
            let ghost b = steps_from(t, bump(t, tgt.1), seq![]);
            let end = match self.expect(&TokenKind::RBrace, "expected `}` after proof body") {
                Some(sp) => sp,
                None => {
                    assert(self.diags() =~= d0 + (d + b.2 + expect(t, b.1, Tk::RBrace, "expected `}` after proof body"@).2));
                    return None;
                },
            };
            assert(self.diags() =~= d0 + (d + b.2 + expect(t, b.1, Tk::RBrace, "expected `}` after proof body"@).2));
            Some(ProofDecl { name, source, target, invertibility, body: Some(steps), span: start.join(end) })
        } else {
            let end = match self.expect(&TokenKind::Semicolon, "expected `;` after proof declaration") {
                Some(sp) => sp,
                None => {
                    assert(self.diags() =~= d0 + (d + expect(t, tgt.1, Tk::Semicolon, "expected `;` after proof declaration"@).2));
                    return None;
                },
            };
            assert(self.diags() =~= d0 + (d + expect(t, tgt.1, Tk::Semicolon, "expected `;` after proof declaration"@).2));
            Some(ProofDecl { name, source, target, invertibility, body: None, span: start.join(end) })
        }
    }

    /// A parameter: `name: cell<n>` or `name: Declaration`.
    #[verifier::rlimit(40)]
    pub fn parse_param(&mut self) -> (r: Option<Param>)
        requires
            old(self).inv(),
        ensures
            ({
                let s = parse_param(old(self).toks(), old(self).cursor as int);
                &&& final(self).follows(old(self), s)
                &&& s.0 == (match r {
                    Some(d) => Some(d@),
                    None => None::<SParam>,
                })
            }),
            r is Some ==> final(self).cursor > old(self).cursor,
    {
        let ghost t = self.toks();
        let ghost d0 = self.diags();
        let (name, span) = match self.parse_name() {
            Some(n) => n,
            None => {
                return None;
            },
        };
        let ghost n = parse_name(t, old(self).cursor as int);
        let name = Self::name_string(&name);
        if self.expect(&TokenKind::Colon, "expected `:` after parameter name").is_none() {
            assert(self.diags() =~= d0 + (n.2 + expect(t, n.1, Tk::Colon, "expected `:` after parameter name"@).2));
            return None;
        }
        let ghost c = expect(t, n.1, Tk::Colon, "expected `:` after parameter name"@);
        if self.at_keyword(Keyword::Cell) {
            self.bump();
            if self.expect(&TokenKind::Lt, "expected `<` in parameter type").is_none() {
                assert(self.diags() =~= d0 + (n.2 + c.2 + expect(t, bump(t, c.1), Tk::Lt, "expected `<` in parameter type"@).2));
                return None;
            }
            let ghost lt = expect(t, bump(t, c.1), Tk::Lt, "expected `<` in parameter type"@);
            let dimension = match self.expect_number("expected parameter dimension") {
                Some(d) => d,
                None => {
                    assert(self.diags() =~= d0 + (n.2 + c.2 + lt.2 + expect_number(t, lt.1, "expected parameter dimension"@).2));
                    return None;
                },
            };
            let ghost dn = expect_number(t, lt.1, "expected parameter dimension"@);
            if self.expect(&TokenKind::Gt, "expected `>` in parameter type").is_none() {
                assert(self.diags() =~= d0 + (n.2 + c.2 + lt.2 + dn.2 + expect(t, dn.1, Tk::Gt, "expected `>` in parameter type"@).2));
                return None;
            }
            assert(self.diags() =~= d0 + (n.2 + c.2 + lt.2 + dn.2 + expect(t, dn.1, Tk::Gt, "expected `>` in parameter type"@).2));
            Some(Param { name, dimension, structure: None, span })
        } else if matches!(self.peek_kind(), TokenKind::Ident(_)) {
            let (sname, _) = match self.parse_name() {
                Some(n) => n,
                None => {
                    assert(self.diags() =~= d0 + (n.2 + c.2 + parse_name(t, c.1).2));
                    return None;
                },
            };
            assert(self.diags() =~= d0 + (n.2 + c.2 + parse_name(t, c.1).2));
            Some(Param { name, dimension: 0, structure: Some(Self::name_string(&sname)), span })
        } else {
            let sp = self.peek_span();
            self.error_text("expected `cell<dimension>` or a declaration name as parameter type", sp);
            assert(self.diags() =~= d0 + (n.2 + c.2 + err1(
                "expected `cell<dimension>` or a declaration name as parameter type"@,
                sp,
            )));
            None
        }
    }

    /// Comma-separated parameters.
    pub fn parse_params(&mut self) -> (r: Option<Vec<Param>>)
        requires
            old(self).inv(),
        ensures
            ({
                let s = params_from(old(self).toks(), old(self).cursor as int, seq![]);
                &&& final(self).follows(old(self), s)
                &&& s.0 == (match r {
                    Some(v) => Some(params_view(v@)),
                    None => None::<Seq<SParam>>,
                })
            }),
    {
        let ghost t = self.toks();
        let ghost big = params_from(t, self.cursor as int, seq![]);
        let mut params: Vec<Param> = Vec::new();
        assert(params_view(params@) =~= Seq::<SParam>::empty());
        assert(old(self).diags() + big.2 =~= self.diags() + big.2);
        loop
            invariant
                self.inv(),
                self.toks() == t,
                t == old(self).toks(),
                self.tokens@ == old(self).tokens@,
                self.cursor >= old(self).cursor,
                big == params_from(old(self).toks(), old(self).cursor as int, seq![]),
                ({
                    let rest = params_from(t, self.cursor as int, params_view(params@));
                    &&& big.0 == rest.0
                    &&& big.1 == rest.1
                    &&& old(self).diags() + big.2 == self.diags() + rest.2
                }),
            decreases self.tokens@.len() - self.cursor,
        {
            let ghost c = self.cursor as int;
            let ghost cur = self.diags();
            let param = match self.parse_param() {
                Some(pm) => pm,
                None => {
                    return None;
                },
            };
            let ghost a = parse_param(t, c);
            assert(params_view(params@.push(param)) =~= params_view(params@).push(param@));
            params.push(param);
            if !self.eat(&TokenKind::Comma) {
                assert(self.diags() =~= cur + a.2);
                return Some(params);
            }
            proof {
                let rest = params_from(t, bump(t, a.1), params_view(params@));
                assert(cur + (a.2 + rest.2) =~= cur + a.2 + rest.2);
            }
        }
    }

    /// Comma-separated names.
    pub fn parse_names(&mut self) -> (r: Option<Vec<String>>)
        requires
            old(self).inv(),
        ensures
            ({
                let s = names_from(old(self).toks(), old(self).cursor as int, seq![]);
                &&& final(self).follows(old(self), s)
                &&& s.0 == (match r {
                    Some(v) => Some(strings_view(v@)),
                    None => None::<Seq<Seq<char>>>,
                })
            }),
    {
        let ghost t = self.toks();
        let ghost big = names_from(t, self.cursor as int, seq![]);
        let mut names: Vec<String> = Vec::new();
        assert(strings_view(names@) =~= Seq::<Seq<char>>::empty());
        assert(old(self).diags() + big.2 =~= self.diags() + big.2);
        loop
            invariant
                self.inv(),
                self.toks() == t,
                t == old(self).toks(),
                self.tokens@ == old(self).tokens@,
                self.cursor >= old(self).cursor,
                big == names_from(old(self).toks(), old(self).cursor as int, seq![]),
                ({
                    let rest = names_from(t, self.cursor as int, strings_view(names@));
                    &&& big.0 == rest.0
                    &&& big.1 == rest.1
                    &&& old(self).diags() + big.2 == self.diags() + rest.2
                }),
            decreases self.tokens@.len() - self.cursor,
        {
            let ghost c = self.cursor as int;
            let ghost cur = self.diags();
            let (name, _) = match self.parse_name() {
                Some(n) => n,
                None => {
                    return None;
                },
            };
            let ghost a = parse_name(t, c);
            let name = Self::name_string(&name);
            assert(strings_view(names@.push(name)) =~= strings_view(names@).push(name@));
            names.push(name);
            if !self.eat(&TokenKind::Comma) {
                assert(self.diags() =~= cur + a.2);
                return Some(names);
            }
            proof {
                let rest = names_from(t, bump(t, a.1), strings_view(names@));
                assert(cur + (a.2 + rest.2) =~= cur + a.2 + rest.2);
            }
        }
    }

    /// The bindings of a `with` block, up to its closing brace.
    #[verifier::rlimit(40)]
    pub fn parse_bindings(&mut self) -> (r: Option<Vec<Binding>>)
        requires
            old(self).inv(),
        ensures
            ({
                let s = bindings_from(old(self).toks(), old(self).cursor as int, seq![]);
                &&& final(self).follows(old(self), s)
                &&& s.0 == (match r {
                    Some(v) => Some(bindings_view(v@)),
                    None => None::<Seq<SBinding>>,
                })
            }),
    {
        let ghost t = self.toks();
        let ghost big = bindings_from(t, self.cursor as int, seq![]);
        let mut bindings: Vec<Binding> = Vec::new();
        assert(bindings_view(bindings@) =~= Seq::<SBinding>::empty());
        assert(old(self).diags() + big.2 =~= self.diags() + big.2);
        loop
            invariant
                self.inv(),
                self.toks() == t,
                t == old(self).toks(),
                self.tokens@ == old(self).tokens@,
                self.cursor >= old(self).cursor,
                big == bindings_from(old(self).toks(), old(self).cursor as int, seq![]),
                ({
                    let rest = bindings_from(t, self.cursor as int, bindings_view(bindings@));
                    &&& big.0 == rest.0
                    &&& big.1 == rest.1
                    &&& old(self).diags() + big.2 == self.diags() + rest.2
                }),
            decreases self.tokens@.len() - self.cursor,
        {
            let ghost c = self.cursor as int;
            let ghost cur = self.diags();
            if self.at(&TokenKind::RBrace) || self.at(&TokenKind::Eof) {
                assert(self.diags() + seq![] =~= self.diags());
                return Some(bindings);
            }
            let (field, fspan) = match self.parse_name() {
                Some(n) => n,
                None => {
                    return None;
                },
            };
            let ghost f = parse_name(t, c);
            if self.expect(&TokenKind::Equals, "expected `=` in a `with` binding").is_none() {
                assert(self.diags() =~= cur + (f.2 + expect(t, f.1, Tk::Equals, "expected `=` in a `with` binding"@).2));
                return None;
            }
            let ghost eq = expect(t, f.1, Tk::Equals, "expected `=` in a `with` binding"@);
            let value = match self.parse_expr() {
                Some(e) => e,
                None => {
                    assert(self.diags() =~= cur + (f.2 + eq.2 + parse_expr(t, eq.1).2));
                    return None;
                },
            };
            let ghost v = parse_expr(t, eq.1);
            let end = match self.expect(&TokenKind::Semicolon, "expected `;` after a `with` binding") {
                Some(sp) => sp,
                None => {
                    assert(self.diags() =~= cur + (f.2 + eq.2 + v.2 + expect(t, v.1, Tk::Semicolon, "expected `;` after a `with` binding"@).2));
                    return None;
                },
            };
            let ghost e = expect(t, v.1, Tk::Semicolon, "expected `;` after a `with` binding"@);
            let b = Binding { field: Self::name_string(&field), value, span: fspan.join(end) };
            proof {
                assert(bindings_view(bindings@.push(b)) =~= bindings_view(bindings@).push(b@));
                let rest = bindings_from(t, e.1, bindings_view(bindings@).push(b@));
                assert(cur + (f.2 + eq.2 + v.2 + e.2 + rest.2) =~= cur + (f.2 + eq.2 + v.2 + e.2) + rest.2);
                assert(self.diags() =~= cur + (f.2 + eq.2 + v.2 + e.2));
            }
            bindings.push(b);
        }
    }

    /// `use Declaration(args) as alias;` or `use ... as alias with { bindings }`.
    #[verifier::rlimit(80)]
    #[verifier::spinoff_prover]
    pub fn parse_use(&mut self) -> (r: Option<UseDecl>)
        requires
            old(self).inv(),
            kind_at(old(self).toks(), old(self).cursor as int) != Tk::Eof,
        ensures
            ({
                let s = parse_use(old(self).toks(), old(self).cursor as int);
                &&& final(self).follows(old(self), s)
                &&& s.0 == (match r {
                    Some(d) => Some(d@),
                    None => None::<SUseDecl>,
                })
            }),
            final(self).cursor > old(self).cursor,
    {
        let ghost t = self.toks();
        let ghost d0 = self.diags();
        let start = self.peek_span();
        self.bump();
        let (schema, _) = match self.parse_name() {
            Some(n) => n,
            None => {
                return None;
            },
        };
        let ghost n = parse_name(t, bump(t, old(self).cursor as int));
        let schema = Self::name_string(&schema);
        if self.expect(&TokenKind::LParen, "expected `(` after schema name").is_none() {
            assert(self.diags() =~= d0 + (n.2 + expect(t, n.1, Tk::LParen, "expected `(` after schema name"@).2));
            return None;
        }
        let ghost o = expect(t, n.1, Tk::LParen, "expected `(` after schema name"@);
        let ghost a = if kind_at(t, o.1) == Tk::RParen {
            (Some(Seq::<Seq<char>>::empty()), o.1, Seq::<SDiagnostic>::empty())
        } else {
            names_from(t, o.1, seq![])
        };
        let args = if self.at(&TokenKind::RParen) {
            let v: Vec<String> = Vec::new();
            assert(strings_view(v@) =~= Seq::<Seq<char>>::empty());
            v
        } else {
            match self.parse_names() {
                Some(v) => v,
                None => {
                    assert(self.diags() =~= d0 + (n.2 + o.2 + a.2));
                    return None;
                },
            }
        };
        assert(self.diags() =~= d0 + (n.2 + o.2 + a.2));
        if self.expect(&TokenKind::RParen, "expected `)` after schema arguments").is_none() {
            assert(self.diags() =~= d0 + (n.2 + o.2 + a.2 + expect(t, a.1, Tk::RParen, "expected `)` after schema arguments"@).2));
            return None;
        }
        let ghost c = expect(t, a.1, Tk::RParen, "expected `)` after schema arguments"@);
        if self.expect_keyword(Keyword::As, "expected `as` before schema alias").is_none() {
            assert(self.diags() =~= d0 + (n.2 + o.2 + a.2 + c.2 + expect(t, c.1, Tk::Keyword(Keyword::As), "expected `as` before schema alias"@).2));
            return None;
        }
        let ghost k = expect(t, c.1, Tk::Keyword(Keyword::As), "expected `as` before schema alias"@);
        let (alias, _) = match self.parse_name() {
            Some(n) => n,
            None => {
                assert(self.diags() =~= d0 + (n.2 + o.2 + a.2 + c.2 + k.2 + parse_name(t, k.1).2));
                return None;
            },
        };
        let ghost al = parse_name(t, k.1);
        let ghost d = n.2 + o.2 + a.2 + c.2 + k.2 + al.2;
        assert(self.diags() =~= d0 + d);
        let alias = Self::name_string(&alias);
        if self.at_keyword(Keyword::With) {
            self.bump();
            if self.expect(&TokenKind::LBrace, "expected `{` after `with`").is_none() {
                assert(self.diags() =~= d0 + (d + expect(t, bump(t, al.1), Tk::LBrace, "expected `{` after `with`"@).2));
                return None;
            }
            let ghost lb = expect(t, bump(t, al.1), Tk::LBrace, "expected `{` after `with`"@);
            let bindings = match self.parse_bindings() {
                Some(v) => v,
                None => {
                    assert(self.diags() =~= d0 + (d + lb.2 + bindings_from(t, lb.1, seq![]).2));
                    return None;
                },
            };
            let ghost bs = bindings_from(t, lb.1, seq![]);
            let end = match self.expect(&TokenKind::RBrace, "expected `}` after `with` bindings") {
                Some(sp) => sp,
                None => {
                    assert(self.diags() =~= d0 + (d + lb.2 + bs.2 + expect(t, bs.1, Tk::RBrace, "expected `}` after `with` bindings"@).2));
                    return None;
                },
            };
            assert(self.diags() =~= d0 + (d + lb.2 + bs.2 + expect(t, bs.1, Tk::RBrace, "expected `}` after `with` bindings"@).2));
            Some(UseDecl { schema, args, alias, bindings, span: start.join(end) })
        } else {
            let end = match self.expect(&TokenKind::Semicolon, "expected `;` after schema use") {
                Some(sp) => sp,
                None => {
                    assert(self.diags() =~= d0 + (d + expect(t, al.1, Tk::Semicolon, "expected `;` after schema use"@).2));
                    return None;
                },
            };
            assert(self.diags() =~= d0 + (d + expect(t, al.1, Tk::Semicolon, "expected `;` after schema use"@).2));
            let bindings: Vec<Binding> = Vec::new();
            assert(bindings_view(bindings@) =~= Seq::<SBinding>::empty());
            Some(UseDecl { schema, args, alias, bindings, span: start.join(end) })
        }
    }

    /// A value of an `actions` payload.
    pub fn parse_value(&mut self) -> (r: Option<ActionValue>)
        requires
            old(self).inv(),
        ensures
            ({
                let s = parse_value(old(self).toks(), old(self).cursor as int);
                &&& final(self).follows(old(self), s)
                &&& s.0 == (match r {
                    Some(v) => Some(v@),
                    None => None::<SValue>,
                })
            }),
            r is Some ==> final(self).cursor > old(self).cursor,
        decreases old(self).tokens@.len() - old(self).cursor, 0nat,
    {
        let ghost t = self.toks();
        let ghost p = self.cursor as int;
        let ghost d0 = self.diags();
        let i = self.bump();
        assert(d0 + seq![] =~= d0);
        match &self.tokens[i].kind {
            TokenKind::Str(v) => {
                return Some(ActionValue::Str(string_from_bytes(v.as_slice())));
            },
            TokenKind::Number(n) => {
                return Some(ActionValue::Number(*n));
            },
            TokenKind::Ident(w) => {
                return Some(ActionValue::Word(string_from_bytes(w.as_slice())));
            },
            TokenKind::LBrace => {
                if self.at(&TokenKind::RBrace) {
                    self.bump();
                    let members: Vec<Member> = Vec::new();
                    assert(members_view(members@) =~= Seq::<(Seq<char>, SValue)>::empty());
                    return Some(ActionValue::Object(members));
                }
                let members = match self.parse_members() {
                    Some(m) => m,
                    None => {
                        return None;
                    },
                };
                let ghost m = members_from(t, bump(t, p), seq![]);
                if self.expect(&TokenKind::RBrace, "expected `}` after an object").is_none() {
                    assert(self.diags() =~= d0 + (m.2 + expect(t, m.1, Tk::RBrace, "expected `}` after an object"@).2));
                    return None;
                }
                assert(self.diags() =~= d0 + (m.2 + expect(t, m.1, Tk::RBrace, "expected `}` after an object"@).2));
                return Some(ActionValue::Object(members));
            },
            TokenKind::LBracket => {
                if self.at(&TokenKind::RBracket) {
                    self.bump();
                    let values: Vec<ActionValue> = Vec::new();
                    assert(values_view(values@) =~= Seq::<SValue>::empty());
                    return Some(ActionValue::List(values));
                }
                let values = match self.parse_values() {
                    Some(m) => m,
                    None => {
                        return None;
                    },
                };
                let ghost m = values_from(t, bump(t, p), seq![]);
                if self.expect(&TokenKind::RBracket, "expected `]` after a list").is_none() {
                    assert(self.diags() =~= d0 + (m.2 + expect(t, m.1, Tk::RBracket, "expected `]` after a list"@).2));
                    return None;
                }
                assert(self.diags() =~= d0 + (m.2 + expect(t, m.1, Tk::RBracket, "expected `]` after a list"@).2));
                return Some(ActionValue::List(values));
            },
            _ => {},
        }
        let span = self.tokens[i].span;
        self.error_text("expected a value", span);
        assert(d0.push(error_diag("expected a value"@, span)) =~= d0 + err1("expected a value"@, span));
        None
    }

    /// Comma-separated values.
    pub fn parse_values(&mut self) -> (r: Option<Vec<ActionValue>>)
        requires
            old(self).inv(),
        ensures
            ({
                let s = values_from(old(self).toks(), old(self).cursor as int, seq![]);
                &&& final(self).follows(old(self), s)
                &&& s.0 == (match r {
                    Some(v) => Some(values_view(v@)),
                    None => None::<Seq<SValue>>,
                })
            }),
        decreases old(self).tokens@.len() - old(self).cursor, 1nat,
    {
        let ghost t = self.toks();
        let ghost big = values_from(t, self.cursor as int, seq![]);
        let mut values: Vec<ActionValue> = Vec::new();
        assert(values_view(values@) =~= Seq::<SValue>::empty());
        assert(old(self).diags() + big.2 =~= self.diags() + big.2);
        loop
            invariant
                self.inv(),
                self.toks() == t,
                t == old(self).toks(),
                self.tokens@ == old(self).tokens@,
                self.cursor >= old(self).cursor,
                big == values_from(old(self).toks(), old(self).cursor as int, seq![]),
                ({
                    let rest = values_from(t, self.cursor as int, values_view(values@));
                    &&& big.0 == rest.0
                    &&& big.1 == rest.1
                    &&& old(self).diags() + big.2 == self.diags() + rest.2
                }),
            decreases self.tokens@.len() - self.cursor,
        {
            let ghost c = self.cursor as int;
            let ghost cur = self.diags();
            let v = match self.parse_value() {
                Some(v) => v,
                None => {
                    return None;
                },
            };
            let ghost a = parse_value(t, c);
            proof {
                lemma_values_view_push(values@, v);
            }
            values.push(v);
            if !self.eat(&TokenKind::Comma) {
                assert(self.diags() =~= cur + a.2);
                return Some(values);
            }
            proof {
                let rest = values_from(t, bump(t, a.1), values_view(values@));
                assert(cur + (a.2 + rest.2) =~= cur + a.2 + rest.2);
            }
        }
    }

    /// Comma-separated `"key": value` members.
    pub fn parse_members(&mut self) -> (r: Option<Vec<Member>>)
        requires
            old(self).inv(),
        ensures
            ({
                let s = members_from(old(self).toks(), old(self).cursor as int, seq![]);
                &&& final(self).follows(old(self), s)
                &&& s.0 == (match r {
                    Some(v) => Some(members_view(v@)),
                    None => None::<Seq<(Seq<char>, SValue)>>,
                })
            }),
        decreases old(self).tokens@.len() - old(self).cursor, 1nat,
    {
        let ghost t = self.toks();
        let ghost big = members_from(t, self.cursor as int, seq![]);
        let mut members: Vec<Member> = Vec::new();
        assert(members_view(members@) =~= Seq::<(Seq<char>, SValue)>::empty());
        assert(old(self).diags() + big.2 =~= self.diags() + big.2);
        loop
            invariant
                self.inv(),
                self.toks() == t,
                t == old(self).toks(),
                self.tokens@ == old(self).tokens@,
                self.cursor >= old(self).cursor,
                big == members_from(old(self).toks(), old(self).cursor as int, seq![]),
                ({
                    let rest = members_from(t, self.cursor as int, members_view(members@));
                    &&& big.0 == rest.0
                    &&& big.1 == rest.1
                    &&& old(self).diags() + big.2 == self.diags() + rest.2
                }),
            decreases self.tokens@.len() - self.cursor,
        {
            let ghost c = self.cursor as int;
            let ghost cur = self.diags();
            let key = match self.expect_string("expected a string key") {
                Some(k) => k,
                None => {
                    return None;
                },
            };
            let ghost k = expect_string(t, c, "expected a string key"@);
            if self.expect(&TokenKind::Colon, "expected `:` after a key").is_none() {
                assert(self.diags() =~= cur + (k.2 + expect(t, k.1, Tk::Colon, "expected `:` after a key"@).2));
                return None;
            }
            let ghost co = expect(t, k.1, Tk::Colon, "expected `:` after a key"@);
            let value = match self.parse_value() {
                Some(v) => v,
                None => {
                    assert(self.diags() =~= cur + (k.2 + co.2 + parse_value(t, co.1).2));
                    return None;
                },
            };
            let ghost v = parse_value(t, co.1);
            let m = Member { key, value };
            proof {
                lemma_members_view_push(members@, m);
            }
            members.push(m);
            if !self.eat(&TokenKind::Comma) {
                assert(self.diags() =~= cur + (k.2 + co.2 + v.2));
                return Some(members);
            }
            proof {
                let rest = members_from(t, bump(t, v.1), members_view(members@));
                assert(cur + (k.2 + co.2 + v.2 + rest.2) =~= cur + (k.2 + co.2 + v.2) + rest.2);
            }
        }
    }

    /// `actions [ values ]`, optionally followed by `;`.
    pub fn parse_actions(&mut self) -> (r: Option<Stmt>)
        requires
            old(self).inv(),
            kind_at(old(self).toks(), old(self).cursor as int) != Tk::Eof,
        ensures
            ({
                let s = parse_actions(old(self).toks(), old(self).cursor as int);
                &&& final(self).follows(old(self), s)
                &&& opt_stmt(r) == s.0
            }),
            final(self).cursor > old(self).cursor,
    {
        let ghost t = self.toks();
        let ghost d0 = self.diags();
        let start = self.peek_span();
        self.bump();
        if self.expect(&TokenKind::LBracket, "expected `[` after `actions`").is_none() {
            return None;
        }
        let ghost o = expect(t, bump(t, old(self).cursor as int), Tk::LBracket, "expected `[` after `actions`"@);
        let ghost v = if kind_at(t, o.1) == Tk::RBracket {
            (Some(Seq::<SValue>::empty()), o.1, Seq::<SDiagnostic>::empty())
        } else {
            values_from(t, o.1, seq![])
        };
        let actions = if self.at(&TokenKind::RBracket) {
            let v: Vec<ActionValue> = Vec::new();
            assert(values_view(v@) =~= Seq::<SValue>::empty());
            v
        } else {
            match self.parse_values() {
                Some(v) => v,
                None => {
                    assert(self.diags() =~= d0 + (o.2 + v.2));
                    return None;
                },
            }
        };
        assert(self.diags() =~= d0 + (o.2 + v.2));
        let close = match self.expect(&TokenKind::RBracket, "expected `]` after actions") {
            Some(sp) => sp,
            None => {
                assert(self.diags() =~= d0 + (o.2 + v.2 + expect(t, v.1, Tk::RBracket, "expected `]` after actions"@).2));
                return None;
            },
        };
        assert(self.diags() =~= d0 + (o.2 + v.2 + expect(t, v.1, Tk::RBracket, "expected `]` after actions"@).2));
        if self.at(&TokenKind::Semicolon) {
            let end = self.peek_span();
            self.bump();
            Some(Stmt::Actions { actions, span: start.join(end) })
        } else {
            Some(Stmt::Actions { actions, span: start.join(close) })
        }
    }

    /// `schema|property|struct|macro Name(params) { statements }`
    #[verifier::rlimit(60)]
    #[verifier::spinoff_prover]
    pub fn parse_schema(&mut self) -> (r: Option<SchemaDecl>)
        requires
            old(self).inv(),
            kind_at(old(self).toks(), old(self).cursor as int) != Tk::Eof,
        ensures
            ({
                let s = parse_schema(old(self).toks(), old(self).cursor as int);
                &&& final(self).follows(old(self), s)
                &&& s.0 == (match r {
                    Some(d) => Some(
                        SSchemaDecl {
                            name: d.name@,
                            kind: d.kind,
                            params: params_view(d.params@),
                            body: stmts_view(d.body@),
                            span: d.span,
                        },
                    ),
                    None => None::<SSchemaDecl>,
                })
            }),
            final(self).cursor > old(self).cursor,
        decreases old(self).tokens@.len() - old(self).cursor, 0nat,
    {
        let ghost t = self.toks();
        let ghost d0 = self.diags();
        let kind = if self.at_keyword(Keyword::Schema) {
            DeclKind::Schema
        } else if self.at_keyword(Keyword::Property) {
            DeclKind::Property
        } else if self.at_keyword(Keyword::Struct) {
            DeclKind::Struct
        } else {
            DeclKind::Macro
        };
        let start = self.peek_span();
        self.bump();
        let (name, _) = match self.parse_name() {
            Some(n) => n,
            None => {
                return None;
            },
        };
        let ghost n = parse_name(t, bump(t, old(self).cursor as int));
        let name = Self::name_string(&name);
        if self.expect(&TokenKind::LParen, "expected `(` after schema name").is_none() {
            assert(self.diags() =~= d0 + (n.2 + expect(t, n.1, Tk::LParen, "expected `(` after schema name"@).2));
            return None;
        }
        let ghost o = expect(t, n.1, Tk::LParen, "expected `(` after schema name"@);
        let ghost a = if kind_at(t, o.1) == Tk::RParen {
            (Some(Seq::<SParam>::empty()), o.1, Seq::<SDiagnostic>::empty())
        } else {
            params_from(t, o.1, seq![])
        };
        let params = if self.at(&TokenKind::RParen) {
            let v: Vec<Param> = Vec::new();
            assert(params_view(v@) =~= Seq::<SParam>::empty());
            v
        } else {
            match self.parse_params() {
                Some(v) => v,
                None => {
                    assert(self.diags() =~= d0 + (n.2 + o.2 + a.2));
                    return None;
                },
            }
        };
        assert(self.diags() =~= d0 + (n.2 + o.2 + a.2));
        if self.expect(&TokenKind::RParen, "expected `)` after parameters").is_none() {
            assert(self.diags() =~= d0 + (n.2 + o.2 + a.2 + expect(t, a.1, Tk::RParen, "expected `)` after parameters"@).2));
            return None;
        }
        let ghost c = expect(t, a.1, Tk::RParen, "expected `)` after parameters"@);
        if self.expect(&TokenKind::LBrace, "expected `{` before schema body").is_none() {
            assert(self.diags() =~= d0 + (n.2 + o.2 + a.2 + c.2 + expect(t, c.1, Tk::LBrace, "expected `{` before schema body"@).2));
            return None;
        }
        let ghost lb = expect(t, c.1, Tk::LBrace, "expected `{` before schema body"@);
        let ghost d = n.2 + o.2 + a.2 + c.2 + lb.2;
        assert(self.diags() =~= d0 + d);
        let body = self.parse_stmts(true);
        let ghost b = stmts_from(t, lb.1, true, seq![]);
        let end = match self.expect(&TokenKind::RBrace, "expected `}` after schema body") {
            Some(sp) => sp,
            None => {
                assert(self.diags() =~= d0 + (d + b.2 + expect(t, b.1, Tk::RBrace, "expected `}` after schema body"@).2));
                return None;
            },
        };
        assert(self.diags() =~= d0 + (d + b.2 + expect(t, b.1, Tk::RBrace, "expected `}` after schema body"@).2));
        Some(SchemaDecl { name, kind, params, body, span: start.join(end) })
    }

    /// `folder Name { statements }`
    pub fn parse_folder(&mut self) -> (r: Option<Stmt>)
        requires
            old(self).inv(),
            kind_at(old(self).toks(), old(self).cursor as int) != Tk::Eof,
        ensures
            ({
                let s = parse_folder(old(self).toks(), old(self).cursor as int);
                &&& final(self).follows(old(self), s)
                &&& opt_stmt(r) == s.0
            }),
            final(self).cursor > old(self).cursor,
        decreases old(self).tokens@.len() - old(self).cursor, 0nat,
    {
        let ghost t = self.toks();
        let ghost d0 = self.diags();
        let start = self.peek_span();
        self.bump();
        let (name, _) = match self.parse_name() {
            Some(n) => n,
            None => {
                return None;
            },
        };
        let ghost n = parse_name(t, bump(t, old(self).cursor as int));
        let name = Self::name_string(&name);
        if self.expect(&TokenKind::LBrace, "expected `{` after folder name").is_none() {
            assert(self.diags() =~= d0 + (n.2 + expect(t, n.1, Tk::LBrace, "expected `{` after folder name"@).2));
            return None;
        }
        let ghost lb = expect(t, n.1, Tk::LBrace, "expected `{` after folder name"@);
        assert(self.diags() =~= d0 + (n.2 + lb.2));
        let body = self.parse_stmts(true);
        let ghost b = stmts_from(t, lb.1, true, seq![]);
        let end = match self.expect(&TokenKind::RBrace, "expected `}` after folder body") {
            Some(sp) => sp,
            None => {
                assert(self.diags() =~= d0 + (n.2 + lb.2 + b.2 + expect(t, b.1, Tk::RBrace, "expected `}` after folder body"@).2));
                return None;
            },
        };
        assert(self.diags() =~= d0 + (n.2 + lb.2 + b.2 + expect(t, b.1, Tk::RBrace, "expected `}` after folder body"@).2));
        Some(Stmt::Folder { name, body, span: start.join(end) })
    }

    /// One statement, chosen by its first token.
    pub fn parse_stmt(&mut self) -> (r: Option<Stmt>)
        requires
            old(self).inv(),
        ensures
            ({
                let s = parse_stmt(old(self).toks(), old(self).cursor as int);
                &&& final(self).follows(old(self), s)
                &&& opt_stmt(r) == s.0
            }),
            kind_at(old(self).toks(), old(self).cursor as int) != Tk::Eof ==> final(self).cursor > old(self).cursor,
        decreases old(self).tokens@.len() - old(self).cursor, 1nat,
    {
        if self.at_keyword(Keyword::Cell) {
            match self.parse_cell() {
                Some(d) => Some(Stmt::Cell(d)),
                None => None,
            }
        } else if self.at_keyword(Keyword::Prove) || self.at_keyword(Keyword::Construct) {
            match self.parse_proof() {
                Some(d) => Some(Stmt::Proof(d)),
                None => None,
            }
        } else if self.at_keyword(Keyword::Schema) || self.at_keyword(Keyword::Property)
            || self.at_keyword(Keyword::Struct) || self.at_keyword(Keyword::Macro) {
            match self.parse_schema() {
                Some(d) => Some(Stmt::Schema(d)),
                None => None,
            }
        } else if self.at_keyword(Keyword::Use) {
            match self.parse_use() {
                Some(d) => Some(Stmt::Use(d)),
                None => None,
            }
        } else if self.at_keyword(Keyword::Unique) {
            self.parse_unique()
        } else if self.at_keyword(Keyword::Folder) {
            self.parse_folder()
        } else if self.at_keyword(Keyword::Actions) {
            self.parse_actions()
        } else if self.at_keyword(Keyword::Show) {
            self.parse_show()
        } else if self.at_keyword(Keyword::Title) || self.at_keyword(Keyword::Author)
            || self.at_keyword(Keyword::Abstract) {
            self.parse_metadata()
        } else if self.at(&TokenKind::Eof) {
            assert(old(self).diags() + seq![] =~= old(self).diags());
            None
        } else {
            let span = self.peek_span();
            self.bump();
            self.error_text("expected a statement", span);
            assert(old(self).diags().push(error_diag("expected a statement"@, span))
                =~= old(self).diags() + err1("expected a statement"@, span));
            None
        }
    }

    /// Statements up to the end of input (or, in a block, up to `}`), skipping
    /// to the next `;` after a statement that fails to parse.
    #[verifier::rlimit(50)]
    #[verifier::spinoff_prover]
    pub fn parse_stmts(&mut self, in_block: bool) -> (r: Vec<Stmt>)
        requires
            old(self).inv(),
        ensures
            ({
                let s = stmts_from(old(self).toks(), old(self).cursor as int, in_block, seq![]);
                &&& final(self).follows(old(self), (Some(s.0), s.1, s.2))
                &&& stmts_view(r@) == s.0
            }),
        decreases old(self).tokens@.len() - old(self).cursor, 2nat,
    {
        let ghost t = self.toks();
        let ghost big = stmts_from(t, self.cursor as int, in_block, seq![]);
        let mut stmts: Vec<Stmt> = Vec::new();
        assert(stmts_view(stmts@) =~= Seq::<SStmt>::empty());
        assert(old(self).diags() + big.2 =~= self.diags() + big.2);
        loop
            invariant
                self.inv(),
                self.toks() == t,
                t == old(self).toks(),
                self.tokens@ == old(self).tokens@,
                self.cursor >= old(self).cursor,
                big == stmts_from(old(self).toks(), old(self).cursor as int, in_block, seq![]),
                ({
                    let rest = stmts_from(t, self.cursor as int, in_block, stmts_view(stmts@));
                    &&& big.0 == rest.0
                    &&& big.1 == rest.1
                    &&& old(self).diags() + big.2 == self.diags() + rest.2
                }),
            decreases self.tokens@.len() - self.cursor,
        {
            let ghost c = self.cursor as int;
            let ghost cur = self.diags();
            if self.at(&TokenKind::Eof) || (in_block && self.at(&TokenKind::RBrace)) {
                assert(self.diags() + seq![] =~= self.diags());
                return stmts;
            }
            let ghost s = parse_stmt(t, c);
            match self.parse_stmt() {
                Some(st) => {
                    proof {
                        lemma_stmts_view_push(stmts@, st);
                        let rest = stmts_from(t, s.1, in_block, stmts_view(stmts@).push(st@));
                        assert(cur + (s.2 + rest.2) =~= cur + s.2 + rest.2);
                    }
                    stmts.push(st);
                },
                None => {
                    self.synchronize();
                    proof {
                        let rest = stmts_from(t, synchronize(t, s.1), in_block, stmts_view(stmts@));
                        assert(cur + (s.2 + rest.2) =~= cur + s.2 + rest.2);
                    }
                },
            }
        }
    }

    /// Consumes a string literal, or reports `message` (consuming the token).
    pub fn expect_string(&mut self, message: &str) -> (r: Option<String>)
        requires
            old(self).inv(),
        ensures
            ({
                let s = expect_string(old(self).toks(), old(self).cursor as int, message@);
                &&& final(self).follows(old(self), s)
                &&& opt_str(r) == (match s.0 {
                    Some(v) => Some(bytes_as_chars(v)),
                    None => None::<Seq<char>>,
                })
            }),
    {
        let i = self.bump();
        match &self.tokens[i].kind {
            TokenKind::Str(v) => {
                assert(old(self).diags() + seq![] =~= old(self).diags());
                Some(string_from_bytes(v.as_slice()))
            },
            _ => {
                let span = self.tokens[i].span;
                self.error_text(message, span);
                assert(old(self).diags().push(error_diag(message@, span)) =~= old(self).diags() + err1(message@, span));
                None
            },
        }
    }
}


/// What `parse` returns for a text with bytes `b`: the lexical errors if there
/// are any, else the parse errors if there are any, else the statements.
pub open spec fn spec_parse(b: Seq<u8>) -> Result<Seq<SStmt>, Seq<SDiagnostic>> {
    let lexical = spec_lex_diagnostics(b);
    if lexical.len() > 0 {
        Err(lexical)
    } else {
        let (stmts, diags) = spec_program(spec_tokens(b));
        if diags.len() > 0 {
            Err(diags)
        } else {
            Ok(stmts)
        }
    }
}

pub open spec fn parse_result_view(r: Result<Ast, Vec<Diagnostic>>) -> Result<Seq<SStmt>, Seq<SDiagnostic>> {
    match r {
        Ok(ast) => Ok(ast@),
        Err(d) => Err(diags_view(d@)),
    }
}

/// Parses a program. Lexical errors are reported first; if there are none, the
/// parse errors are reported; a text with neither yields its statements.
pub fn parse(source: &str) -> (r: Result<Ast, Vec<Diagnostic>>)
    ensures
        parse_result_view(r) == spec_parse(source.spec_bytes()),
        r matches Err(ds) ==> ds@.len() > 0,
{
    let mut lexer = Lexer::new(source);
    let tokens = lexer.lex();
    if lexer.diagnostics.len() > 0 {
        return Err(lexer.diagnostics);
    }
    proof {
        lemma_lex_from_ends_with_eof(source.spec_bytes(), 0);
    }
    let mut parser = Parser::new(tokens);
    let statements = parser.parse_stmts(false);
    if parser.diagnostics.len() == 0 {
        Ok(Ast { statements })
    } else {
        Err(parser.diagnostics)
    }
}

} // verus!
