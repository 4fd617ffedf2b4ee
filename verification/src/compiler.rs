//! The compiler: evaluates a parsed program into a signature, a set of named
//! symbols, an optional selected diagram and diagnostics.
use vstd::prelude::*;
use vstd::string::StringExecFns;
use vstd::string::StringSliceAdditionalSpecFns;

use crate::ast::{
    sexpr_span, Ast, Bias, CellDecl, Expr, Invertibility, ProofDecl, ProofStep, SExpr, Stmt,
};
use crate::diagnostics::{diags_view, error_diag, lemma_diags_view_push, Diagnostic, SDiagnostic, Span};
use crate::diagram::{
    attach, composable, first_contraction, levels_of, lviews, lemma_lviews_push, s_attach,
    s_compose, s_identity, s_inverse, sdim, src_of, tgt_of, wf, Diagram, Generator, Level, Move,
    SDiagram, SLevel, SMove,
};
use crate::names::{
    dotted, insts_view, join_dotted, pairs_view, resolve, resolve_name, Instance, Pairs,
};
use crate::text::{append_bytes, bytes_as_chars, bytes_lt, bytes_order, concat3, copy_bytes, decimal, string_from_bytes, usize_to_string, utf8};
use crate::ast::{SCellDecl, SProofDecl, SProofStep, SStmt, SSchemaDecl, SchemaDecl, UseDecl, DeclKind, Binding};
use crate::names::{instance_index, lookup_pair, names_view, SInstance, lookup, find_instance};
use crate::diagram::{contraction_to, s_contraction};
use crate::diagram::{globular, s_generator};

verus! {

/// A named symbol of a program: a cell or a constructed proof.
pub struct Symbol {
    pub name: Vec<u8>,
    pub diagram: Diagram,
    pub invertible: bool,
}

pub struct SSym {
    pub name: Seq<u8>,
    pub diagram: SDiagram,
    pub invertible: bool,
}

impl View for Symbol {
    type V = SSym;

    open spec fn view(&self) -> SSym {
        SSym { name: self.name@, diagram: self.diagram@, invertible: self.invertible }
    }
}

pub open spec fn syms_view(v: Seq<Symbol>) -> Seq<SSym> {
    Seq::new(v.len(), |i: int| v[i]@)
}

/// A symbol table sorted by name, with no name twice.
pub open spec fn sorted_syms(s: Seq<SSym>) -> bool {
    forall|i: int, j: int| 0 <= i < j < s.len() ==> bytes_lt(#[trigger] s[i].name, #[trigger] s[j].name)
}

/// The symbol with the given name.
pub open spec fn find_sym(s: Seq<SSym>, name: Seq<u8>) -> Option<SSym>
    decreases s.len(),
{
    if s.len() == 0 {
        None
    } else if s[0].name == name {
        Some(s[0])
    } else {
        find_sym(s.drop_first(), name)
    }
}

pub proof fn lemma_find_sym(s: Seq<SSym>, name: Seq<u8>)
    ensures
        match find_sym(s, name) {
            Some(x) => exists|i: int| 0 <= i < s.len() && s[i] == x && x.name == name,
            None => forall|i: int| 0 <= i < s.len() ==> s[i].name != name,
        },
    decreases s.len(),
{
    if s.len() > 0 {
        lemma_find_sym(s.drop_first(), name);
        if s[0].name != name {
            match find_sym(s.drop_first(), name) {
                Some(x) => {
                    let i = choose|i: int| 0 <= i < s.drop_first().len() && s.drop_first()[i] == x && x.name == name;
                    assert(s[i + 1] == x);
                },
                None => {
                    assert forall|i: int| 0 <= i < s.len() implies s[i].name != name by {
                        if i > 0 {
                            assert(s[i] == s.drop_first()[i - 1]);
                        }
                    }
                },
            }
        }
    }
}

/// The number of symbols whose names sort before `name`.
pub open spec fn rank(s: Seq<SSym>, name: Seq<u8>) -> nat
    decreases s.len(),
{
    if s.len() == 0 {
        0
    } else if bytes_lt(s.last().name, name) {
        rank(s.drop_last(), name) + 1
    } else {
        rank(s.drop_last(), name)
    }
}

/// Where the symbols are kept: the index of the symbol named `name`, if any.
pub fn sym_index(syms: &Vec<Symbol>, name: &[u8]) -> (r: Option<usize>)
    ensures
        match r {
            Some(i) => i < syms@.len() && find_sym(syms_view(syms@), name@) == Some(syms@[i as int]@),
            None => find_sym(syms_view(syms@), name@) is None,
        },
{
    let mut i: usize = 0;
    assert(syms_view(syms@).subrange(0, syms@.len() as int) =~= syms_view(syms@));
    while i < syms.len()
        invariant
            i <= syms@.len(),
            find_sym(syms_view(syms@), name@) == find_sym(syms_view(syms@).subrange(i as int, syms@.len() as int), name@),
        decreases syms@.len() - i,
    {
        let ghost rest = syms_view(syms@).subrange(i as int, syms@.len() as int);
        assert(rest.drop_first() =~= syms_view(syms@).subrange(i + 1, syms@.len() as int));
        if bytes_order(syms[i].name.as_slice(), name) == 0 {
            return Some(i);
        }
        i = i + 1;
    }
    None
}

// ---------------------------------------------------------------------------
// Values of expressions.

/// The value of an expression: a diagram and whether it may be inverted.
pub struct Value {
    pub diagram: Diagram,
    pub invertible: bool,
}

pub struct SValueD {
    pub diagram: SDiagram,
    pub invertible: bool,
}

pub open spec fn opt_value(r: Option<Value>) -> Option<SValueD> {
    match r {
        Some(v) => Some(SValueD { diagram: v.diagram@, invertible: v.invertible }),
        None => None,
    }
}

/// The environment an expression is read in.
pub struct Env {
    pub syms: Seq<SSym>,
    pub insts: Seq<crate::names::SInstance>,
    pub aliases: Seq<(Seq<u8>, Seq<u8>)>,
}

pub open spec fn msg_unknown_symbol(name: Seq<char>) -> Seq<char> {
    "unknown symbol `"@ + name + "`"@
}

pub open spec fn err(msg: Seq<char>, s: Span) -> Seq<SDiagnostic> {
    seq![error_diag(msg, s)]
}

/// The value of an expression, and the diagnostics reported while reading it.
pub open spec fn eval(env: Env, e: SExpr) -> (Option<SValueD>, Seq<SDiagnostic>)
    decreases e, 1nat,
{
    match e {
        SExpr::Name(name, span) => match find_sym(env.syms, resolve(env.aliases, env.insts, utf8(name))) {
            Some(s) => (Some(SValueD { diagram: s.diagram, invertible: s.invertible }), seq![]),
            None => (None, err(msg_unknown_symbol(name), span)),
        },
        SExpr::Identity(inner, span) => {
            let r = eval(env, *inner);
            match r.0 {
                None => r,
                Some(v) => if sdim(v.diagram) >= usize::MAX {
                    (None, r.1 + err("the identity would exceed the largest dimension"@, span))
                } else {
                    (Some(SValueD { diagram: s_identity(v.diagram), invertible: true }), r.1)
                },
            }
        },
        SExpr::Inverse(inner, span) => {
            let r = eval(env, *inner);
            match r.0 {
                None => r,
                Some(v) => if !v.invertible {
                    (None, r.1 + err("only invertible diagrams can be inverted"@, span))
                } else if sdim(v.diagram) == 0 {
                    (None, r.1 + err("only positive-dimensional diagrams can be inverted"@, span))
                } else {
                    (Some(SValueD { diagram: s_inverse(v.diagram), invertible: true }), r.1)
                },
            }
        },
        SExpr::Contract(inner, bias, span) => {
            let r = eval(env, *inner);
            match r.0 {
                None => r,
                Some(v) => if sdim(v.diagram) == 0 {
                    (None, r.1 + err("only positive-dimensional diagrams can be contracted"@, span))
                } else {
                    match first_contraction(v.diagram, bias, 0) {
                        Some((_, c)) => (Some(SValueD { diagram: c, invertible: v.invertible }), r.1),
                        None => (None, r.1 + err("could not contract the diagram"@, span)),
                    }
                },
            }
        },
        SExpr::Compose(terms, span) => {
            if terms.len() == 0 {
                (None, seq![])
            } else {
                let r = eval(env, terms[0]);
                match r.0 {
                    None => r,
                    Some(v) => if sdim(v.diagram) == 0 {
                        (None, r.1 + err("only positive-dimensional diagrams can be composed"@, sexpr_span(terms[0])))
                    } else {
                        let rest = eval_terms(env, terms, 1, v, span);
                        (rest.0, r.1 + rest.1)
                    },
                }
            }
        },
    }
}

/// The composite of `acc` with the values of `terms[i..]`.
pub open spec fn eval_terms(env: Env, terms: Seq<SExpr>, i: int, acc: SValueD, span: Span) -> (
    Option<SValueD>,
    Seq<SDiagnostic>,
)
    decreases terms, 0nat, terms.len() - i,
{
    if i < 1 || i >= terms.len() {
        (Some(acc), seq![])
    } else {
        let r = eval(env, terms[i]);
        match r.0 {
            None => r,
            Some(v) => if sdim(v.diagram) == 0 {
                (None, r.1 + err("only positive-dimensional diagrams can be composed"@, sexpr_span(terms[i])))
            } else if sdim(acc.diagram) != sdim(v.diagram) {
                (None, r.1 + err("dimension mismatch: composed diagrams must have the same dimension"@, span))
            } else if !composable(acc.diagram, v.diagram) {
                (None, r.1 + err("target of one term must match source of the next term"@, span))
            } else {
                let next = SValueD {
                    diagram: s_compose(acc.diagram, v.diagram),
                    invertible: acc.invertible && v.invertible,
                };
                let rest = eval_terms(env, terms, i + 1, next, span);
                (rest.0, r.1 + rest.1)
            },
        }
    }
}


// ---------------------------------------------------------------------------
// The compiler state.

/// A generator of the compiled signature, with its presentation.
#[derive(Debug)]
pub struct GeneratorInfo {
    pub generator: Generator,
    pub name: String,
    pub invertibility: Invertibility,
    pub color: String,
    pub diagram: Diagram,
    pub folder: Vec<String>,
}

/// Title, author and abstract of a proof.
#[derive(Debug)]
pub struct Metadata {
    pub title: Option<String>,
    pub author: Option<String>,
    pub abstr: Option<String>,
}

/// The selected diagram of a proof.
#[derive(Debug)]
pub struct Workspace {
    pub diagram: Diagram,
}

/// A compiled proof: the signature, the selected diagram and the metadata.
#[derive(Debug)]
pub struct ProofState {
    pub signature: Vec<GeneratorInfo>,
    pub workspace: Option<Workspace>,
    pub metadata: Metadata,
}

/// A lexical scope: aliases for names, and the prefix of names declared here.
pub struct Scope {
    pub aliases: Pairs,
    pub prefix: Option<Vec<u8>>,
}

/// Compiler state.
pub struct Compiler {
    pub signature: Vec<GeneratorInfo>,
    pub symbols: Vec<Symbol>,
    pub decls: Vec<usize>,
    pub instances: Vec<Instance>,
    pub diagnostics: Vec<Diagnostic>,
    pub selected: Option<String>,
    pub selected_diagram: Option<Diagram>,
    pub metadata: Metadata,
    pub next_generator_id: usize,
    pub expansion_stack: Vec<usize>,
    pub folder: Vec<String>,
    pub boundary: Option<(bool, Diagram)>,
    pub workspace: Option<Diagram>,
}

impl Compiler {
    pub open spec fn env(&self, scope: &Scope) -> Env {
        Env { syms: syms_view(self.symbols@), insts: insts_view(self.instances@), aliases: pairs_view(scope.aliases@) }
    }

    pub open spec fn diags(&self) -> Seq<SDiagnostic> {
        diags_view(self.diagnostics@)
    }

    /// Everything but the diagnostics is as in `old`.
    pub open spec fn only_diags_changed(&self, old: &Compiler) -> bool {
        &&& self.signature@ == old.signature@
        &&& self.symbols@ == old.symbols@
        &&& self.decls@ == old.decls@
        &&& self.instances@ == old.instances@
        &&& self.selected == old.selected
        &&& self.selected_diagram == old.selected_diagram
        &&& self.metadata == old.metadata
        &&& self.next_generator_id == old.next_generator_id
        &&& self.expansion_stack@ == old.expansion_stack@
        &&& self.folder@ == old.folder@
        &&& self.boundary == old.boundary
        &&& self.workspace == old.workspace
    }

    /// Reports an error.
    pub fn error(&mut self, message: String, span: Span)
        ensures
            final(self).diags() == old(self).diags().push(error_diag(message@, span)),
            final(self).only_diags_changed(old(self)),
    {
        let d = Diagnostic::error(message, span);
        proof {
            lemma_diags_view_push(self.diagnostics@, d);
        }
        self.diagnostics.push(d);
    }

    /// Reports an error with a fixed message.
    pub fn error_text(&mut self, message: &str, span: Span)
        ensures
            final(self).diags() == old(self).diags().push(error_diag(message@, span)),
            final(self).only_diags_changed(old(self)),
    {
        self.error(String::from_str(message), span);
    }

    /// The value of an expression (see `eval`).
    pub fn compile_expr(&mut self, expr: &Expr, scope: &Scope) -> (r: Option<Value>)
        ensures
            ({
                let e = eval(old(self).env(scope), expr@);
                &&& opt_value(r) == e.0
                &&& final(self).diags() == old(self).diags() + e.1
            }),
            final(self).only_diags_changed(old(self)),
        decreases expr, 0nat,
    {
        let ghost d0 = self.diags();
        match expr {
            Expr::Name { name, span } => {
                let resolved = resolve_name(&scope.aliases, &self.instances, name.as_str().as_bytes());
                match sym_index(&self.symbols, resolved.as_slice()) {
                    Some(i) => {
                        assert(d0 + seq![] =~= d0);
                        Some(Value { diagram: self.symbols[i].diagram.copy(), invertible: self.symbols[i].invertible })
                    },
                    None => {
                        self.error(concat3("unknown symbol `", name.as_str(), "`"), *span);
                        assert(d0.push(error_diag(msg_unknown_symbol(name@), *span)) =~= d0 + err(msg_unknown_symbol(name@), *span));
                        None
                    },
                }
            },
            Expr::Identity { expr: inner, span } => {
                let v = match self.compile_expr(inner, scope) {
                    Some(v) => v,
                    None => {
                        return None;
                    },
                };
                let ghost r = eval(old(self).env(scope), (**inner)@);
                if v.diagram.dimension() == usize::MAX {
                    self.error_text("the identity would exceed the largest dimension", *span);
                    assert(self.diags() =~= d0 + (r.1 + err("the identity would exceed the largest dimension"@, *span)));
                    return None;
                }
                Some(Value { diagram: v.diagram.identity(), invertible: true })
            },
            Expr::Inverse { expr: inner, span } => self.compile_inverse(inner, *span, scope),
            Expr::Contract { expr: inner, bias, span } => {
                let v = match self.compile_expr(inner, scope) {
                    Some(v) => v,
                    None => {
                        return None;
                    },
                };
                let ghost r = eval(old(self).env(scope), (**inner)@);
                if v.diagram.dimension() == 0 {
                    self.error_text("only positive-dimensional diagrams can be contracted", *span);
                    assert(self.diags() =~= d0 + (r.1 + err("only positive-dimensional diagrams can be contracted"@, *span)));
                    return None;
                }
                match v.diagram.first_contraction(*bias) {
                    Some((_, c)) => Some(Value { diagram: c, invertible: v.invertible }),
                    None => {
                        self.error_text("could not contract the diagram", *span);
                        assert(self.diags() =~= d0 + (r.1 + err("could not contract the diagram"@, *span)));
                        None
                    },
                }
            },
            Expr::Compose { terms, span } => self.compile_composition(terms, *span, scope),
        }
    }

    /// The inverse of an expression's value: only an invertible diagram of
    /// positive dimension has one.
    pub fn compile_inverse(&mut self, inner: &Expr, span: Span, scope: &Scope) -> (r: Option<Value>)
        ensures
            ({
                let e = eval(old(self).env(scope), SExpr::Inverse(Box::new(inner@), span));
                &&& opt_value(r) == e.0
                &&& final(self).diags() == old(self).diags() + e.1
            }),
            final(self).only_diags_changed(old(self)),
        decreases inner, 1nat,
    {
        let ghost d0 = self.diags();
        let v = match self.compile_expr(inner, scope) {
            Some(v) => v,
            None => {
                return None;
            },
        };
        let ghost r = eval(old(self).env(scope), inner@);
        if !v.invertible {
            self.error_text("only invertible diagrams can be inverted", span);
            assert(self.diags() =~= d0 + (r.1 + err("only invertible diagrams can be inverted"@, span)));
            return None;
        }
        if v.diagram.dimension() == 0 {
            self.error_text("only positive-dimensional diagrams can be inverted", span);
            assert(self.diags() =~= d0 + (r.1 + err("only positive-dimensional diagrams can be inverted"@, span)));
            return None;
        }
        Some(Value { diagram: v.diagram.inverse(), invertible: true })
    }

    /// The composite of the values of `terms`.
    pub fn compile_composition(&mut self, terms: &Vec<Expr>, span: Span, scope: &Scope) -> (r: Option<Value>)
        ensures
            ({
                let e = eval(old(self).env(scope), SExpr::Compose(crate::ast::exprs_view(terms@), span));
                &&& opt_value(r) == e.0
                &&& final(self).diags() == old(self).diags() + e.1
            }),
            final(self).only_diags_changed(old(self)),
        decreases terms, 0nat,
    {
        let ghost d0 = self.diags();
        let ghost env = old(self).env(scope);
        let ghost tv = crate::ast::exprs_view(terms@);
        proof {
            crate::ast::lemma_exprs_view(terms@);
        }
        if terms.len() == 0 {
            assert(d0 + seq![] =~= d0);
            return None;
        }
        let first = match self.compile_expr(&terms[0], scope) {
            Some(v) => v,
            None => {
                return None;
            },
        };
        let ghost r0 = eval(env, tv[0]);
        if first.diagram.dimension() == 0 {
            self.error_text("only positive-dimensional diagrams can be composed", terms[0].span());
            assert(self.diags() =~= d0 + (r0.1 + err("only positive-dimensional diagrams can be composed"@, sexpr_span(tv[0]))));
            return None;
        }
        let ghost first_v = SValueD { diagram: first.diagram@, invertible: first.invertible };
        let ghost big = eval_terms(env, tv, 1, first_v, span);
        let mut acc = first;
        let mut i: usize = 1;
        assert(d0 + (r0.1 + big.1) =~= self.diags() + big.1);
        assert(eval(env, SExpr::Compose(tv, span)) == (big.0, r0.1 + big.1));
        while i < terms.len()
            invariant
                1 <= i <= terms@.len(),
                tv == crate::ast::exprs_view(terms@),
                tv.len() == terms@.len(),
                forall|j: int| 0 <= j < terms@.len() ==> #[trigger] tv[j] == terms@[j]@,
                env == old(self).env(scope),
                self.only_diags_changed(old(self)),
                big == eval_terms(env, tv, 1, first_v, span),
                d0 == old(self).diags(),
                eval(env, SExpr::Compose(tv, span)) == (big.0, r0.1 + big.1),
                ({
                    let rest = eval_terms(env, tv, i as int, SValueD { diagram: acc.diagram@, invertible: acc.invertible }, span);
                    &&& big.0 == rest.0
                    &&& d0 + (r0.1 + big.1) == self.diags() + rest.1
                }),
                sdim(acc.diagram@) >= 1,
            decreases terms@.len() - i,
        {
            let ghost cur = self.diags();
            let ghost accv = SValueD { diagram: acc.diagram@, invertible: acc.invertible };
            let next = match self.compile_expr(&terms[i], scope) {
                Some(v) => v,
                None => {
                    return None;
                },
            };
            let ghost ri = eval(env, tv[i as int]);
            if next.diagram.dimension() == 0 {
                self.error_text("only positive-dimensional diagrams can be composed", terms[i].span());
                assert(self.diags() =~= cur + (ri.1 + err("only positive-dimensional diagrams can be composed"@, sexpr_span(tv[i as int]))));
                return None;
            }
            if acc.diagram.dimension() != next.diagram.dimension() {
                self.error_text("dimension mismatch: composed diagrams must have the same dimension", span);
                assert(self.diags() =~= cur + (ri.1 + err("dimension mismatch: composed diagrams must have the same dimension"@, span)));
                return None;
            }
            let composite = match acc.diagram.compose(&next.diagram) {
                Some(c) => c,
                None => {
                    self.error_text("target of one term must match source of the next term", span);
                    assert(self.diags() =~= cur + (ri.1 + err("target of one term must match source of the next term"@, span)));
                    return None;
                },
            };
            let ghost nextv = SValueD { diagram: s_compose(acc.diagram@, next.diagram@), invertible: acc.invertible && next.invertible };
            proof {
                let rest = eval_terms(env, tv, i + 1, nextv, span);
                assert(cur + (ri.1 + rest.1) =~= cur + ri.1 + rest.1);
            }
            acc = Value { diagram: composite, invertible: acc.invertible && next.invertible };
            i = i + 1;
        }
        assert(self.diags() + seq![] =~= self.diags());
        Some(acc)
    }
}


// ---------------------------------------------------------------------------
// The symbol table and the signature.

/// The first position from `i` whose name does not sort before `name`.
pub open spec fn insert_pos(s: Seq<SSym>, name: Seq<u8>, i: int) -> int
    decreases s.len() - i,
{
    if i < 0 || i >= s.len() {
        s.len() as int
    } else if !bytes_lt(s[i].name, name) {
        i
    } else {
        insert_pos(s, name, i + 1)
    }
}

pub proof fn lemma_insert_pos(s: Seq<SSym>, name: Seq<u8>, i: int)
    requires
        0 <= i <= s.len(),
        forall|j: int| 0 <= j < i ==> bytes_lt(#[trigger] s[j].name, name),
    ensures
        i <= insert_pos(s, name, i) <= s.len(),
        forall|j: int| 0 <= j < insert_pos(s, name, i) ==> bytes_lt(#[trigger] s[j].name, name),
        insert_pos(s, name, i) < s.len() ==> !bytes_lt(s[insert_pos(s, name, i)].name, name),
    decreases s.len() - i,
{
    if i < s.len() && bytes_lt(s[i].name, name) {
        lemma_insert_pos(s, name, i + 1);
    }
}

/// Inserting a new name keeps the table sorted.
pub proof fn lemma_sorted_insert(s: Seq<SSym>, x: SSym)
    requires
        sorted_syms(s),
        find_sym(s, x.name) is None,
    ensures
        sorted_syms(s.insert(insert_pos(s, x.name, 0), x)),
{
    lemma_insert_pos(s, x.name, 0);
    lemma_find_sym(s, x.name);
    let p = insert_pos(s, x.name, 0);
    let t = s.insert(p, x);
    assert forall|i: int, j: int| 0 <= i < j < t.len() implies bytes_lt(#[trigger] t[i].name, #[trigger] t[j].name) by {
        if i < p && j < p {
        } else if i < p && j == p {
        } else if i < p && j > p {
            assert(t[j] == s[j - 1]);
            if p < s.len() {
                crate::text::lemma_bytes_lt_total(s[p].name, x.name);
                crate::text::lemma_bytes_lt_transitive(s[i].name, x.name, s[p].name);
                if j - 1 > p {
                    crate::text::lemma_bytes_lt_transitive(s[i].name, s[p].name, s[j - 1].name);
                }
            }
        } else if i == p {
            assert(t[j] == s[j - 1]);
            crate::text::lemma_bytes_lt_total(s[p].name, x.name);
            if j - 1 > p {
                crate::text::lemma_bytes_lt_transitive(x.name, s[p].name, s[j - 1].name);
            }
        } else {
            assert(t[i] == s[i - 1]);
            assert(t[j] == s[j - 1]);
        }
    }
}

impl Compiler {
    /// Adds a symbol under a new name, keeping the table sorted.
    pub fn insert_symbol(&mut self, name: Vec<u8>, diagram: Diagram, invertible: bool)
        requires
            find_sym(syms_view(old(self).symbols@), name@) is None,
        ensures
            final(self).selected == old(self).selected,
            final(self).metadata == old(self).metadata,
            final(self).selected_diagram == old(self).selected_diagram,
            final(self).workspace == old(self).workspace,
            final(self).boundary == old(self).boundary,
            ({
                let x = SSym { name: name@, diagram: diagram@, invertible };
                syms_view(final(self).symbols@) == syms_view(old(self).symbols@).insert(
                    insert_pos(syms_view(old(self).symbols@), name@, 0),
                    x,
                )
            }),
            final(self).signature@ == old(self).signature@,
            final(self).instances@ == old(self).instances@,
            final(self).diagnostics@ == old(self).diagnostics@,
            final(self).next_generator_id == old(self).next_generator_id,
            final(self).folder@ == old(self).folder@,
            final(self).decls@ == old(self).decls@,
            final(self).expansion_stack@ == old(self).expansion_stack@,
    {
        let ghost old_syms = syms_view(self.symbols@);
        let mut i: usize = 0;
        while i < self.symbols.len() && bytes_order(self.symbols[i].name.as_slice(), name.as_slice()) < 0
            invariant
                i <= self.symbols@.len(),
                syms_view(self.symbols@) == old_syms,
                insert_pos(old_syms, name@, i as int) == insert_pos(old_syms, name@, 0),
                self.signature@ == old(self).signature@,
                self.instances@ == old(self).instances@,
                self.diagnostics@ == old(self).diagnostics@,
                self.next_generator_id == old(self).next_generator_id,
                self.folder@ == old(self).folder@,
                self.decls@ == old(self).decls@,
                self.expansion_stack@ == old(self).expansion_stack@,
                self.selected_diagram == old(self).selected_diagram,
                self.workspace == old(self).workspace,
                self.boundary == old(self).boundary,
            decreases self.symbols@.len() - i,
        {
            i = i + 1;
        }
        let sym = Symbol { name, diagram, invertible };
        let ghost before = self.symbols@;
        self.symbols.insert(i, sym);
        assert(syms_view(self.symbols@) =~= old_syms.insert(i as int, sym@)) by {
            assert(self.symbols@ == before.insert(i as int, sym));
        }
    }

    /// A fresh generator of the given dimension, if identifiers are left.
    pub fn next_generator(&mut self, dimension: usize) -> (r: Option<Generator>)
        ensures
            final(self).selected == old(self).selected,
            final(self).metadata == old(self).metadata,
            final(self).selected_diagram == old(self).selected_diagram,
            final(self).workspace == old(self).workspace,
            final(self).boundary == old(self).boundary,
            match r {
                Some(g) => g == Generator { id: old(self).next_generator_id, dimension }
                    && final(self).next_generator_id == old(self).next_generator_id + 1,
                None => old(self).next_generator_id == usize::MAX && final(self).next_generator_id
                    == old(self).next_generator_id,
            },
            final(self).signature@ == old(self).signature@,
            final(self).symbols@ == old(self).symbols@,
            final(self).instances@ == old(self).instances@,
            final(self).diagnostics@ == old(self).diagnostics@,
            final(self).folder@ == old(self).folder@,
            final(self).decls@ == old(self).decls@,
            final(self).expansion_stack@ == old(self).expansion_stack@,
    {
        if self.next_generator_id == usize::MAX {
            return None;
        }
        let g = Generator::new(self.next_generator_id, dimension);
        self.next_generator_id = self.next_generator_id + 1;
        Some(g)
    }
}

/// The colour of a generator, cycling through eight colours by identifier.
pub open spec fn color_of(id: usize) -> Seq<char> {
    let k = id % 8;
    if k == 0 {
        "#2980b9"@
    } else if k == 1 {
        "#c0392b"@
    } else if k == 2 {
        "#f39c12"@
    } else if k == 3 {
        "#8e44ad"@
    } else if k == 4 {
        "#27ae60"@
    } else if k == 5 {
        "#f1c40f"@
    } else if k == 6 {
        "#6b7280"@
    } else {
        "#111827"@
    }
}

pub fn color(id: usize) -> (r: String)
    ensures
        r@ == color_of(id),
{
    let k = id % 8;
    let c = if k == 0 {
        "#2980b9"
    } else if k == 1 {
        "#c0392b"
    } else if k == 2 {
        "#f39c12"
    } else if k == 3 {
        "#8e44ad"
    } else if k == 4 {
        "#27ae60"
    } else if k == 5 {
        "#f1c40f"
    } else if k == 6 {
        "#6b7280"
    } else {
        "#111827"
    };
    String::from_str(c)
}

/// The mathematical content of a signature entry.
pub struct SInfo {
    pub generator: Generator,
    pub name: Seq<char>,
    pub invertibility: Invertibility,
    pub color: Seq<char>,
    pub diagram: SDiagram,
    pub folder: Seq<Seq<char>>,
}

pub open spec fn strings_view(v: Seq<String>) -> Seq<Seq<char>> {
    Seq::new(v.len(), |i: int| v[i]@)
}

impl View for GeneratorInfo {
    type V = SInfo;

    open spec fn view(&self) -> SInfo {
        SInfo {
            generator: self.generator,
            name: self.name@,
            invertibility: self.invertibility,
            color: self.color@,
            diagram: self.diagram@,
            folder: strings_view(self.folder@),
        }
    }
}

pub open spec fn sig_view(v: Seq<GeneratorInfo>) -> Seq<SInfo> {
    Seq::new(v.len(), |i: int| v[i]@)
}

/// A copy of a list of strings.
pub fn copy_strings(v: &Vec<String>) -> (r: Vec<String>)
    ensures
        strings_view(r@) == strings_view(v@),
{
    let mut out: Vec<String> = Vec::new();
    let mut i: usize = 0;
    while i < v.len()
        invariant
            i <= v@.len(),
            out@.len() == i,
            strings_view(out@) == strings_view(v@).subrange(0, i as int),
        decreases v@.len() - i,
    {
        let c = v[i].clone();
        assert(c@ == v@[i as int]@);
        let ghost before = out@;
        out.push(c);
        assert(out@ == before.push(c));
        assert forall|j: int| 0 <= j < i implies #[trigger] out@[j]@ == v@[j]@ by {
            assert(out@[j] == before[j]);
            assert(strings_view(before)[j] == strings_view(v@).subrange(0, i as int)[j]);
        }
        assert(strings_view(out@) =~= strings_view(v@).subrange(0, i + 1));
        i = i + 1;
    }
    assert(strings_view(v@).subrange(0, i as int) =~= strings_view(v@));
    out
}

/// The entry for a generator declared under `name` in `folder`.
pub open spec fn info_of(g: Generator, name: Seq<u8>, inv: Invertibility, d: SDiagram, folder: Seq<Seq<char>>) -> SInfo {
    SInfo { generator: g, name: bytes_as_chars(name), invertibility: inv, color: color_of(g.id), diagram: d, folder }
}

impl Compiler {
    /// Adds a signature entry for generator `g` with diagram `d`.
    pub fn add_generator(&mut self, g: Generator, name: &Vec<u8>, inv: Invertibility, d: &Diagram)
        ensures
            final(self).selected == old(self).selected,
            final(self).metadata == old(self).metadata,
            final(self).selected_diagram == old(self).selected_diagram,
            final(self).workspace == old(self).workspace,
            final(self).boundary == old(self).boundary,
            sig_view(final(self).signature@) == sig_view(old(self).signature@).push(
                info_of(g, name@, inv, d@, strings_view(old(self).folder@)),
            ),
            final(self).symbols@ == old(self).symbols@,
            final(self).instances@ == old(self).instances@,
            final(self).diagnostics@ == old(self).diagnostics@,
            final(self).next_generator_id == old(self).next_generator_id,
            final(self).folder@ == old(self).folder@,
            final(self).decls@ == old(self).decls@,
            final(self).expansion_stack@ == old(self).expansion_stack@,
    {
        let info = GeneratorInfo {
            generator: g,
            name: string_from_bytes(name.as_slice()),
            invertibility: inv,
            color: color(g.id),
            diagram: d.copy(),
            folder: copy_strings(&self.folder),
        };
        self.signature.push(info);
        assert(sig_view(self.signature@) =~= sig_view(old(self).signature@).push(
            info_of(g, name@, inv, d@, strings_view(old(self).folder@)),
        ));
    }
}

/// The name under which `name` is declared in a scope: prefixed inside a
/// declaration body.
pub open spec fn declared(prefix: Option<Seq<u8>>, name: Seq<u8>) -> Seq<u8> {
    match prefix {
        Some(p) => dotted(p, name),
        None => name,
    }
}

pub open spec fn prefix_view(p: Option<Vec<u8>>) -> Option<Seq<u8>> {
    match p {
        Some(v) => Some(v@),
        None => None,
    }
}

/// The name under which `name` is declared in `scope`.
pub fn declared_name(name: &str, scope: &Scope) -> (r: Vec<u8>)
    ensures
        r@ == declared(prefix_view(scope.prefix), utf8(name@)),
{
    match &scope.prefix {
        Some(p) => join_dotted(p.as_slice(), name.as_bytes()),
        None => copy_bytes(name.as_bytes()),
    }
}


// ---------------------------------------------------------------------------
// Cells.

pub open spec fn msg_dimension_mismatch(a: nat, b: nat) -> Seq<char> {
    "dimension mismatch: source dimension "@ + decimal(a) + " does not match target dimension "@ + decimal(b)
}

pub open spec fn msg_duplicate(name: Seq<u8>) -> Seq<char> {
    "duplicate symbol `"@ + bytes_as_chars(name) + "`"@
}

/// The diagram a cell declaration defines with generator identifier `id`, and
/// the diagnostics reported while building it.
pub open spec fn cell_diagram(env: Env, decl: SCellDecl, id: usize) -> (Option<SDiagram>, Seq<SDiagnostic>) {
    match (decl.source, decl.target) {
        (None, None) => (Some(SDiagram::Point(Generator { id, dimension: 0 })), seq![]),
        (Some(s), Some(t)) => {
            let rs = eval(env, s);
            match rs.0 {
                None => (None, rs.1),
                Some(a) => {
                    let rt = eval(env, t);
                    match rt.0 {
                        None => (None, rs.1 + rt.1),
                        Some(b) => if sdim(a.diagram) != sdim(b.diagram) {
                            (None, rs.1 + rt.1 + err(msg_dimension_mismatch(sdim(a.diagram), sdim(b.diagram)), decl.span))
                        } else if !globular(a.diagram, b.diagram) || sdim(a.diagram) >= usize::MAX {
                            (
                                None,
                                rs.1 + rt.1 + err(
                                    "could not create generator: the source and target are not parallel"@,
                                    decl.span,
                                ),
                            )
                        } else {
                            (
                                Some(s_generator(Generator { id, dimension: (sdim(a.diagram) + 1) as usize }, a.diagram, b.diagram)),
                                rs.1 + rt.1,
                            )
                        },
                    }
                },
            }
        },
        _ => (None, err("cell declaration must have both source and target"@, decl.span)),
    }
}

/// The generator a cell diagram introduces: its last level's generator, or the point.
pub open spec fn new_generator(d: SDiagram) -> Generator {
    match d {
        SDiagram::Point(g) => g,
        SDiagram::Cell(_, _, l) => match l[0].action {
            SMove::Apply(apps) => apps[0].generator,
            _ => Generator { id: 0, dimension: 0 },
        },
    }
}

pub open spec fn scope_aliases_after(scope: &Scope, name: Seq<u8>, public: Seq<u8>) -> Seq<(Seq<u8>, Seq<u8>)> {
    if scope.prefix is Some {
        pairs_view(scope.aliases@).push((name, public))
    } else {
        pairs_view(scope.aliases@)
    }
}

impl Compiler {
    /// Compiles `cell name;` or `cell name: source -> target;`: a new generator,
    /// its signature entry and its symbol, unless the name is taken or the
    /// boundary is invalid.
    #[verifier::rlimit(60)]
    pub fn compile_cell(&mut self, decl: &CellDecl, scope: &mut Scope)
        requires
            sorted_syms(syms_view(old(self).symbols@)),
        ensures
            final(self).selected_diagram == old(self).selected_diagram,
            final(self).workspace == old(self).workspace,
            final(self).boundary == old(self).boundary,
            cell_effect(*final(self), *old(self), *final(scope), *old(scope), decl@),
            final(scope).prefix == old(scope).prefix,
            sorted_syms(syms_view(final(self).symbols@)),
            final(self).folder@ == old(self).folder@,
            final(self).decls@ == old(self).decls@,
            final(self).expansion_stack@ == old(self).expansion_stack@,
    {
        let ghost d0 = self.diags();
        let ghost env = self.env(scope);
        let public = declared_name(decl.name.as_str(), scope);
        if sym_index(&self.symbols, public.as_slice()).is_some() {
            let text = string_from_bytes(public.as_slice());
            self.error(concat3("duplicate symbol `", text.as_str(), "`"), decl.span);
            assert(self.diags() =~= d0 + err(msg_duplicate(public@), decl.span));
            return;
        }
        if self.next_generator_id == usize::MAX {
            self.error_text("too many generators", decl.span);
            assert(self.diags() =~= d0 + err("too many generators"@, decl.span));
            return;
        }
        let id = self.next_generator_id;
        let ghost built = cell_diagram(env, decl@, id);
        let diagram = match (&decl.source, &decl.target) {
            (None, None) => {
                assert(d0 + seq![] =~= d0);
                Diagram::Point(Generator::new(id, 0))
            },
            (Some(s), Some(t)) => {
                let a = match self.compile_expr(s, scope) {
                    Some(v) => v,
                    None => {
                        return;
                    },
                };
                let ghost rs = eval(env, s@);
                let b = match self.compile_expr(t, scope) {
                    Some(v) => v,
                    None => {
                        assert(self.diags() =~= d0 + built.1);
                        return;
                    },
                };
                let ghost rt = eval(env, t@);
                let da = a.diagram.dimension();
                let db = b.diagram.dimension();
                if da != db {
                    let m1 = String::from_str("dimension mismatch: source dimension ");
                    let m2 = m1.concat(usize_to_string(da).as_str());
                    let m3 = m2.concat(" does not match target dimension ");
                    let m4 = m3.concat(usize_to_string(db).as_str());
                    self.error(m4, decl.span);
                    assert(self.diags() =~= d0 + (rs.1 + rt.1 + err(msg_dimension_mismatch(da as nat, db as nat), decl.span)));
                    return;
                }
                if da == usize::MAX {
                    self.error_text("could not create generator: the source and target are not parallel", decl.span);
                    assert(self.diags() =~= d0 + (rs.1 + rt.1 + err(
                        "could not create generator: the source and target are not parallel"@,
                        decl.span,
                    )));
                    return;
                }
                match Diagram::from_generator(Generator::new(id, da + 1), a.diagram, b.diagram) {
                    Some(d) => d,
                    None => {
                        self.error_text("could not create generator: the source and target are not parallel", decl.span);
                        assert(self.diags() =~= d0 + (rs.1 + rt.1 + err(
                            "could not create generator: the source and target are not parallel"@,
                            decl.span,
                        )));
                        return;
                    },
                }
            },
            _ => {
                self.error_text("cell declaration must have both source and target", decl.span);
                assert(self.diags() =~= d0 + err("cell declaration must have both source and target"@, decl.span));
                return;
            },
        };
        assert(built.0 == Some(diagram@));
        assert(self.diags() == d0 + built.1);
        if !diagram.is_wf() {
            self.error_text("compiled diagram failed validation: Malformed", decl.span);
            assert(self.diags() =~= d0 + built.1 + err("compiled diagram failed validation: Malformed"@, decl.span));
            return;
        }
        let generator = match &diagram {
            Diagram::Point(g) => *g,
            Diagram::Cell { .. } => Generator::new(id, diagram.dimension()),
        };
        assert(generator == new_generator(diagram@));
        let _ = self.next_generator(0);
        self.add_generator(generator, &public, decl.invertibility, &diagram);
        if scope.prefix.is_some() {
            let key = copy_bytes(decl.name.as_str().as_bytes());
            let value = copy_bytes(public.as_slice());
            scope.aliases.push((key, value));
            assert(pairs_view(scope.aliases@) =~= scope_aliases_after(old(scope), utf8(decl.name@), public@));
        }
        let inv = match decl.invertibility {
            Invertibility::Invertible => true,
            Invertibility::Directed => false,
        };
        proof {
            lemma_sorted_insert(syms_view(self.symbols@), SSym { name: public@, diagram: diagram@, invertible: inv });
        }
        self.insert_symbol(public, diagram, inv);
    }
}


// ---------------------------------------------------------------------------
// Constructed proofs.

/// Runs proof-body steps from `i` on, starting from the slice `cur` with the
/// levels built so far: the levels and the final slice, and the diagnostics.
pub open spec fn run_steps(env: Env, cur: SDiagram, levels: Seq<SLevel>, steps: Seq<SProofStep>, i: int) -> (
    Option<(Seq<SLevel>, SDiagram)>,
    Seq<SDiagnostic>,
)
    decreases steps.len() - i,
{
    if i < 0 || i >= steps.len() {
        (Some((levels, cur)), seq![])
    } else {
        match steps[i] {
            SProofStep::Attach(e, span) => {
                let r = eval(env, e);
                match r.0 {
                    None => (None, r.1),
                    Some(v) => match s_attach(cur, v.diagram) {
                        Some((ls, top)) => {
                            let rest = run_steps(env, top, levels + ls, steps, i + 1);
                            (rest.0, r.1 + rest.1)
                        },
                        None => (
                            None,
                            r.1 + err("could not attach the diagram: its source does not occur in the proof target"@, span),
                        ),
                    },
                }
            },
            SProofStep::Contract(bias, span) => match first_contraction(cur, bias, 0) {
                Some((h, c)) => {
                    if h < 0 || h > usize::MAX {
                        (None, seq![])
                    } else {
                        run_steps(
                            env,
                            c,
                            levels.push(SLevel { action: SMove::Contract(h as usize, bias, false), target: c }),
                            steps,
                            i + 1,
                        )
                    }
                },
                None => (None, err("could not contract the proof target"@, span)),
            },
        }
    }
}

pub open spec fn msg_proof_dimension(a: nat, b: nat) -> Seq<char> {
    "dimension mismatch: proof source dimension "@ + decimal(a) + " does not match target dimension "@ + decimal(b)
}

/// The diagram a proof declaration constructs, and the diagnostics reported.
/// Without a body, a single unbiased contraction of the source must give the
/// target; with a body, the steps must end at the target.
pub open spec fn proof_diagram(env: Env, decl: SProofDecl) -> (Option<SDiagram>, Seq<SDiagnostic>) {
    let rs = eval(env, decl.source);
    match rs.0 {
        None => (None, rs.1),
        Some(a) => {
            let rt = eval(env, decl.target);
            match rt.0 {
                None => (None, rs.1 + rt.1),
                Some(b) => {
                    let d = rs.1 + rt.1;
                    if sdim(a.diagram) != sdim(b.diagram) {
                        (None, d + err(msg_proof_dimension(sdim(a.diagram), sdim(b.diagram)), decl.span))
                    } else if sdim(a.diagram) == 0 {
                        (None, d + err("only positive-dimensional proofs can be constructed"@, decl.span))
                    } else if sdim(a.diagram) >= usize::MAX {
                        (None, d + err("the proof would exceed the largest dimension"@, decl.span))
                    } else {
                        match decl.body {
                            None => match contraction_to(a.diagram, b.diagram, 0) {
                                Some(h) => (Some(s_contraction(a.diagram, h, Bias::Same, b.diagram)), d),
                                None => (
                                    None,
                                    d + err("could not construct proof using the built-in contraction rules"@, decl.span),
                                ),
                            },
                            Some(steps) => {
                                let r = run_steps(env, a.diagram, seq![], steps, 0);
                                match r.0 {
                                    None => (None, d + r.1),
                                    Some((levels, top)) => if top != b.diagram {
                                        (
                                            None,
                                            d + r.1 + err(
                                                "could not construct proof: the proof body ends at a different diagram than its declared target"@,
                                                decl.span,
                                            ),
                                        )
                                    } else {
                                        (Some(SDiagram::Cell((sdim(a.diagram) + 1) as usize, Box::new(a.diagram), levels)), d + r.1)
                                    },
                                }
                            },
                        }
                    }
                },
            }
        },
    }
}

impl Compiler {
    /// Runs the steps of a proof body from `start`.
    pub fn run_steps(&mut self, steps: &Vec<ProofStep>, start: Diagram, scope: &Scope) -> (r: Option<(Vec<Level>, Diagram)>)
        ensures
            ({
                let s = run_steps(old(self).env(scope), start@, seq![], crate::ast::steps_view(steps@), 0);
                &&& final(self).diags() == old(self).diags() + s.1
                &&& match r {
                    Some((levels, top)) => s.0 == Some((lviews(levels@), top@)),
                    None => s.0 is None,
                }
            }),
            final(self).only_diags_changed(old(self)),
    {
        let ghost env = self.env(scope);
        let ghost sv = crate::ast::steps_view(steps@);
        let ghost big = run_steps(env, start@, seq![], sv, 0);
        let ghost d0 = self.diags();
        let mut levels: Vec<Level> = Vec::new();
        let mut cur = start;
        let mut i: usize = 0;
        assert(lviews(levels@) =~= Seq::<SLevel>::empty());
        assert(d0 + big.1 =~= self.diags() + big.1);
        while i < steps.len()
            invariant
                i <= steps@.len(),
                sv == crate::ast::steps_view(steps@),
                env == old(self).env(scope),
                self.only_diags_changed(old(self)),
                big == run_steps(env, start@, seq![], sv, 0),
                d0 == old(self).diags(),
                ({
                    let rest = run_steps(env, cur@, lviews(levels@), sv, i as int);
                    &&& big.0 == rest.0
                    &&& d0 + big.1 == self.diags() + rest.1
                }),
            decreases steps@.len() - i,
        {
            let ghost cd = self.diags();
            match &steps[i] {
                ProofStep::Attach { expr, span } => {
                    let v = match self.compile_expr(expr, scope) {
                        Some(v) => v,
                        None => {
                            return None;
                        },
                    };
                    let ghost r = eval(env, expr@);
                    match attach(&cur, &v.diagram) {
                        Some((ls, top)) => {
                            let ghost old_levels = lviews(levels@);
                            let ghost lsv = lviews(ls@);
                            proof {
                                crate::diagram::lemma_lviews(ls@);
                                assert(lviews(ls@).subrange(0, ls@.len() as int) =~= lviews(ls@));
                            }
                            crate::diagram::append_levels(&mut levels, &ls, 0, ls.len());
                            assert(lviews(levels@) =~= old_levels + lsv);
                            proof {
                                let rest = run_steps(env, top@, old_levels + lsv, sv, i + 1);
                                assert(cd + (r.1 + rest.1) =~= cd + r.1 + rest.1);
                            }
                            cur = top;
                        },
                        None => {
                            self.error_text("could not attach the diagram: its source does not occur in the proof target", *span);
                            assert(self.diags() =~= cd + (r.1 + err(
                                "could not attach the diagram: its source does not occur in the proof target"@,
                                *span,
                            )));
                            return None;
                        },
                    }
                },
                ProofStep::Contract { bias, span } => {
                    match cur.first_contraction(*bias) {
                        Some((h, c)) => {
                            let lv = Level { action: Move::Contract { height: h, bias: *bias, expand: false }, target: c.copy() };
                            proof {
                                lemma_lviews_push(levels@, lv);
                            }
                            levels.push(lv);
                            cur = c;
                        },
                        None => {
                            self.error_text("could not contract the proof target", *span);
                            assert(self.diags() =~= cd + err("could not contract the proof target"@, *span));
                            return None;
                        },
                    }
                },
            }
            i = i + 1;
        }
        assert(self.diags() + seq![] =~= self.diags());
        Some((levels, cur))
    }
}


impl Compiler {
    /// The diagram a proof declaration constructs (see `proof_diagram`).
    #[verifier::rlimit(60)]
    pub fn construct_proof(&mut self, decl: &ProofDecl, scope: &Scope) -> (r: Option<Diagram>)
        ensures
            ({
                let p = proof_diagram(old(self).env(scope), decl@);
                &&& final(self).diags() == old(self).diags() + p.1
                &&& match r {
                    Some(d) => p.0 == Some(d@),
                    None => p.0 is None,
                }
            }),
            final(self).only_diags_changed(old(self)),
    {
        let ghost env = self.env(scope);
        let ghost d0 = self.diags();
        let a = match self.compile_expr(&decl.source, scope) {
            Some(v) => v,
            None => {
                return None;
            },
        };
        let ghost rs = eval(env, decl.source@);
        let b = match self.compile_expr(&decl.target, scope) {
            Some(v) => v,
            None => {
                assert(self.diags() =~= d0 + (rs.1 + eval(env, decl.target@).1));
                return None;
            },
        };
        let ghost rt = eval(env, decl.target@);
        let ghost d = rs.1 + rt.1;
        assert(self.diags() =~= d0 + d);
        let da = a.diagram.dimension();
        let db = b.diagram.dimension();
        if da != db {
            let m1 = String::from_str("dimension mismatch: proof source dimension ");
            let m2 = m1.concat(usize_to_string(da).as_str());
            let m3 = m2.concat(" does not match target dimension ");
            let m4 = m3.concat(usize_to_string(db).as_str());
            self.error(m4, decl.span);
            assert(self.diags() =~= d0 + (d + err(msg_proof_dimension(da as nat, db as nat), decl.span)));
            return None;
        }
        if da == 0 {
            self.error_text("only positive-dimensional proofs can be constructed", decl.span);
            assert(self.diags() =~= d0 + (d + err("only positive-dimensional proofs can be constructed"@, decl.span)));
            return None;
        }
        if da == usize::MAX {
            self.error_text("the proof would exceed the largest dimension", decl.span);
            assert(self.diags() =~= d0 + (d + err("the proof would exceed the largest dimension"@, decl.span)));
            return None;
        }
        match &decl.body {
            None => match a.diagram.contraction_to(&b.diagram) {
                Some(h) => Some(a.diagram.contraction(h, Bias::Same, b.diagram)),
                None => {
                    self.error_text("could not construct proof using the built-in contraction rules", decl.span);
                    assert(self.diags() =~= d0 + (d + err(
                        "could not construct proof using the built-in contraction rules"@,
                        decl.span,
                    )));
                    None
                },
            },
            Some(steps) => {
                let source = a.diagram.copy();
                let (levels, top) = match self.run_steps(steps, a.diagram, scope) {
                    Some(x) => x,
                    None => {
                        assert(self.diags() =~= d0 + (d + run_steps(env, source@, seq![], crate::ast::steps_view(steps@), 0).1));
                        return None;
                    },
                };
                let ghost r = run_steps(env, source@, seq![], crate::ast::steps_view(steps@), 0);
                assert(self.diags() =~= d0 + (d + r.1));
                if !top.same(&b.diagram) {
                    self.error_text(
                        "could not construct proof: the proof body ends at a different diagram than its declared target",
                        decl.span,
                    );
                    assert(self.diags() =~= d0 + (d + r.1 + err(
                        "could not construct proof: the proof body ends at a different diagram than its declared target"@,
                        decl.span,
                    )));
                    return None;
                }
                Some(Diagram::Cell { dimension: da + 1, source: Box::new(source), levels })
            },
        }
    }

    /// Compiles `prove name: source -> target ...`: the constructed diagram
    /// becomes a symbol; the signature is left as it is.
    pub fn compile_proof(&mut self, decl: &ProofDecl, scope: &mut Scope)
        requires
            sorted_syms(syms_view(old(self).symbols@)),
        ensures
            final(self).selected_diagram == old(self).selected_diagram,
            final(self).workspace == old(self).workspace,
            final(self).boundary == old(self).boundary,
            proof_effect(*final(self), *old(self), *final(scope), *old(scope), decl@),
            final(self).signature@ == old(self).signature@,
            final(self).next_generator_id == old(self).next_generator_id,
            final(scope).prefix == old(scope).prefix,
            sorted_syms(syms_view(final(self).symbols@)),
            final(self).folder@ == old(self).folder@,
            final(self).decls@ == old(self).decls@,
            final(self).expansion_stack@ == old(self).expansion_stack@,
    {
        let ghost d0 = self.diags();
        let public = declared_name(decl.name.as_str(), scope);
        if sym_index(&self.symbols, public.as_slice()).is_some() {
            let text = string_from_bytes(public.as_slice());
            self.error(concat3("duplicate symbol `", text.as_str(), "`"), decl.span);
            assert(self.diags() =~= d0 + err(msg_duplicate(public@), decl.span));
            return;
        }
        let diagram = match self.construct_proof(decl, scope) {
            Some(d) => d,
            None => {
                return;
            },
        };
        if !diagram.is_wf() {
            self.error_text("constructed proof failed validation: Malformed", decl.span);
            proof {
                let built = proof_diagram(old(self).env(old(scope)), decl@);
                assert(self.diags() =~= old(self).diags() + built.1 + err("constructed proof failed validation: Malformed"@, decl.span));
            }
            return;
        }
        if scope.prefix.is_some() {
            let key = copy_bytes(decl.name.as_str().as_bytes());
            let value = copy_bytes(public.as_slice());
            scope.aliases.push((key, value));
            assert(pairs_view(scope.aliases@) =~= scope_aliases_after(old(scope), utf8(decl.name@), public@));
        }
        let inv = match decl.invertibility {
            Invertibility::Invertible => true,
            Invertibility::Directed => false,
        };
        proof {
            lemma_sorted_insert(syms_view(self.symbols@), SSym { name: public@, diagram: diagram@, invertible: inv });
        }
        self.insert_symbol(public, diagram, inv);
    }
}


// ---------------------------------------------------------------------------
// Showing a diagram.

pub open spec fn bias_text(b: Bias) -> Seq<char> {
    match b {
        Bias::Lower => "lower"@,
        Bias::Higher => "higher"@,
        Bias::Same => "same"@,
    }
}

/// The text of an expression with its names resolved, as UTF-8 bytes:
/// `id(e)`, `inv(e)`, `contract(e, bias)`, and terms joined by ` * ` with
/// composite terms in parentheses.
pub open spec fn fmt(aliases: Seq<(Seq<u8>, Seq<u8>)>, insts: Seq<crate::names::SInstance>, e: SExpr) -> Seq<u8>
    decreases e, 0nat, 0nat,
{
    match e {
        SExpr::Name(n, _) => resolve(aliases, insts, utf8(n)),
        SExpr::Identity(x, _) => utf8("id("@) + fmt(aliases, insts, *x) + utf8(")"@),
        SExpr::Inverse(x, _) => utf8("inv("@) + fmt(aliases, insts, *x) + utf8(")"@),
        SExpr::Contract(x, b, _) => utf8("contract("@) + fmt(aliases, insts, *x) + utf8(", "@) + utf8(bias_text(b))
            + utf8(")"@),
        SExpr::Compose(terms, _) => fmt_terms(aliases, insts, terms, 0),
    }
}

pub open spec fn fmt_term(aliases: Seq<(Seq<u8>, Seq<u8>)>, insts: Seq<crate::names::SInstance>, e: SExpr) -> Seq<u8>
    decreases e, 1nat, 0nat,
{
    match e {
        SExpr::Compose(_, _) => utf8("("@) + fmt(aliases, insts, e) + utf8(")"@),
        _ => fmt(aliases, insts, e),
    }
}

pub open spec fn fmt_terms(aliases: Seq<(Seq<u8>, Seq<u8>)>, insts: Seq<crate::names::SInstance>, terms: Seq<SExpr>, i: int) -> Seq<u8>
    decreases terms, 0nat, terms.len() - i,
{
    if i < 0 || i >= terms.len() {
        seq![]
    } else if i == 0 {
        fmt_term(aliases, insts, terms[0]) + fmt_terms(aliases, insts, terms, 1)
    } else {
        utf8(" * "@) + fmt_term(aliases, insts, terms[i]) + fmt_terms(aliases, insts, terms, i + 1)
    }
}

fn push_str(v: &mut Vec<u8>, s: &str)
    ensures
        final(v)@ == old(v)@ + utf8(s@),
{
    append_bytes(v, s.as_bytes());
}

fn bias_str(b: Bias) -> (r: &'static str)
    ensures
        r@ == bias_text(b),
{
    match b {
        Bias::Lower => "lower",
        Bias::Higher => "higher",
        Bias::Same => "same",
    }
}

impl Compiler {
    /// Appends the text of an expression (see `fmt`).
    #[verifier::loop_isolation(false)]
    pub fn format_expr(&self, out: &mut Vec<u8>, expr: &Expr, scope: &Scope)
        ensures
            final(out)@ == old(out)@ + fmt(pairs_view(scope.aliases@), insts_view(self.instances@), expr@),
        decreases expr, 0nat,
    {
        let ghost a = pairs_view(scope.aliases@);
        let ghost ins = insts_view(self.instances@);
        match expr {
            Expr::Name { name, .. } => {
                let r = resolve_name(&scope.aliases, &self.instances, name.as_str().as_bytes());
                append_bytes(out, r.as_slice());
            },
            Expr::Identity { expr: x, .. } => {
                push_str(out, "id(");
                self.format_expr(out, x, scope);
                push_str(out, ")");
                assert(out@ =~= old(out)@ + fmt(a, ins, expr@));
            },
            Expr::Inverse { expr: x, .. } => {
                push_str(out, "inv(");
                self.format_expr(out, x, scope);
                push_str(out, ")");
                assert(out@ =~= old(out)@ + fmt(a, ins, expr@));
            },
            Expr::Contract { expr: x, bias, .. } => {
                push_str(out, "contract(");
                self.format_expr(out, x, scope);
                push_str(out, ", ");
                push_str(out, bias_str(*bias));
                push_str(out, ")");
                assert(out@ =~= old(out)@ + fmt(a, ins, expr@));
            },
            Expr::Compose { terms, .. } => {
                let ghost tv = crate::ast::exprs_view(terms@);
                proof {
                    crate::ast::lemma_exprs_view(terms@);
                }
                let mut i: usize = 0;
                assert(old(out)@ + fmt(a, ins, expr@) =~= out@ + fmt_terms(a, ins, tv, 0));
                while i < terms.len()
                    invariant
                        i <= terms@.len(),
                        tv == crate::ast::exprs_view(terms@),
                        tv.len() == terms@.len(),
                        forall|j: int| 0 <= j < terms@.len() ==> #[trigger] tv[j] == terms@[j]@,
                        old(out)@ + fmt(a, ins, expr@) == out@ + fmt_terms(a, ins, tv, i as int),
                        a == pairs_view(scope.aliases@),
                        ins == insts_view(self.instances@),
                    decreases terms@.len() - i,
                {
                    let ghost before = out@;
                    if i > 0 {
                        push_str(out, " * ");
                    }
                    self.format_term(out, &terms[i], scope);
                    proof {
                        if i > 0 {
                            assert(before + fmt_terms(a, ins, tv, i as int) =~= out@ + fmt_terms(a, ins, tv, i + 1));
                        } else {
                            assert(before + fmt_terms(a, ins, tv, i as int) =~= out@ + fmt_terms(a, ins, tv, i + 1));
                        }
                    }
                    i = i + 1;
                }
                assert(out@ + fmt_terms(a, ins, tv, i as int) =~= out@);
            },
        }
    }

    /// Appends the text of a composite's term (see `fmt_term`).
    pub fn format_term(&self, out: &mut Vec<u8>, expr: &Expr, scope: &Scope)
        ensures
            final(out)@ == old(out)@ + fmt_term(pairs_view(scope.aliases@), insts_view(self.instances@), expr@),
        decreases expr, 1nat,
    {
        match expr {
            Expr::Compose { .. } => {
                push_str(out, "(");
                self.format_expr(out, expr, scope);
                push_str(out, ")");
                assert(out@ =~= old(out)@ + fmt_term(pairs_view(scope.aliases@), insts_view(self.instances@), expr@));
            },
            _ => {
                self.format_expr(out, expr, scope);
            },
        }
    }

    /// Compiles `show expr;`: selects the diagram of `expr` and its text.
    pub fn compile_show(&mut self, expr: &Expr, span: Span, scope: &Scope)
        ensures
            final(self).workspace == old(self).workspace,
            final(self).boundary == old(self).boundary,
            show_effect(*final(self), *old(self), *scope, expr@, span),
    {
        let ghost e = eval(self.env(scope), expr@);
        let v = match self.compile_expr(expr, scope) {
            Some(v) => v,
            None => {
                return;
            },
        };
        if !v.diagram.is_wf() {
            self.error_text("shown diagram failed validation: Malformed", span);
            assert(self.diags() =~= old(self).diags() + e.1 + err("shown diagram failed validation: Malformed"@, span));
            return;
        }
        let mut text: Vec<u8> = Vec::new();
        self.format_expr(&mut text, expr, scope);
        assert(text@ =~= fmt(pairs_view(scope.aliases@), insts_view(self.instances@), expr@));
        self.selected = Some(string_from_bytes(text.as_slice()));
        self.selected_diagram = Some(v.diagram);
    }
}


// ---------------------------------------------------------------------------
// Declarations and their instances.

/// The position, among the declarations, of the declaration named `name`.
pub open spec fn find_decl(stmts: Seq<SStmt>, decls: Seq<usize>, name: Seq<u8>, k: int) -> Option<int>
    decreases decls.len() - k,
{
    if k < 0 || k >= decls.len() {
        None
    } else if 0 <= decls[k] < stmts.len() && (stmts[decls[k] as int] matches SStmt::Schema(d) && utf8(d.name) == name) {
        Some(k)
    } else {
        find_decl(stmts, decls, name, k + 1)
    }
}

pub proof fn lemma_find_decl(stmts: Seq<SStmt>, decls: Seq<usize>, name: Seq<u8>, k: int)
    ensures
        match find_decl(stmts, decls, name, k) {
            Some(j) => k <= j < decls.len() && 0 <= decls[j] < stmts.len() && (stmts[decls[j] as int] matches SStmt::Schema(
                d,
            ) && utf8(d.name) == name),
            None => true,
        },
    decreases decls.len() - k,
{
    if !(k < 0 || k >= decls.len()) && !(0 <= decls[k] < stmts.len() && (stmts[decls[k] as int] matches SStmt::Schema(
        d,
    ) && utf8(d.name) == name)) {
        lemma_find_decl(stmts, decls, name, k + 1);
    }
}

pub open spec fn msg_unknown_schema(name: Seq<char>) -> Seq<char> {
    "unknown schema `"@ + name + "`"@
}

pub open spec fn msg_recursive(name: Seq<char>) -> Seq<char> {
    "recursive declaration: recursive schema expansion involving `"@ + name + "`"@
}

/// The stack of declarations being expanded holds distinct declaration positions.
pub open spec fn stack_ok(stack: Seq<usize>, decls: Seq<usize>) -> bool {
    stack.no_duplicates() && forall|i: int| 0 <= i < stack.len() ==> stack[i] < decls.len()
}

pub proof fn lemma_stack_bound(s: Seq<usize>, n: nat)
    requires
        s.no_duplicates(),
        forall|i: int| 0 <= i < s.len() ==> s[i] < n,
    ensures
        s.len() <= n,
{
    let t = s.map_values(|x: usize| x as int);
    assert(t.no_duplicates()) by {
        assert forall|i: int, j: int| 0 <= i < t.len() && 0 <= j < t.len() && i != j implies t[i] != t[j] by {
            assert(s[i] != s[j]);
        }
    }
    t.unique_seq_to_set();
    vstd::set_lib::lemma_int_range(0, n as int);
    assert(t.to_set().subset_of(vstd::set_lib::set_int_range(0, n as int)));
    vstd::set_lib::lemma_len_subset(t.to_set(), vstd::set_lib::set_int_range(0, n as int));
}

/// Whether two argument lists are equal.
pub fn names_equal(a: &Vec<Vec<u8>>, b: &Vec<Vec<u8>>) -> (r: bool)
    ensures
        r == (names_view(a@) == names_view(b@)),
{
    if a.len() != b.len() {
        assert(names_view(a@).len() != names_view(b@).len());
        return false;
    }
    let mut i: usize = 0;
    while i < a.len()
        invariant
            i <= a@.len(),
            a@.len() == b@.len(),
            forall|j: int| 0 <= j < i ==> a@[j]@ == b@[j]@,
        decreases a@.len() - i,
    {
        if bytes_order(a[i].as_slice(), b[i].as_slice()) != 0 {
            assert(names_view(a@)[i as int] != names_view(b@)[i as int]);
            return false;
        }
        i = i + 1;
    }
    assert(names_view(a@) =~= names_view(b@));
    true
}

/// A copy of a list of name pairs.
pub fn copy_pairs(v: &Pairs) -> (r: Pairs)
    ensures
        pairs_view(r@) == pairs_view(v@),
{
    let mut out: Pairs = Vec::new();
    let mut i: usize = 0;
    while i < v.len()
        invariant
            i <= v@.len(),
            out@.len() == i,
            pairs_view(out@) == pairs_view(v@).subrange(0, i as int),
        decreases v@.len() - i,
    {
        let p = (copy_bytes(v[i].0.as_slice()), copy_bytes(v[i].1.as_slice()));
        let ghost before = out@;
        out.push(p);
        assert forall|j: int| 0 <= j < i implies #[trigger] pairs_view(out@)[j] == pairs_view(v@)[j] by {
            assert(out@[j] == before[j]);
            assert(pairs_view(before)[j] == pairs_view(v@).subrange(0, i as int)[j]);
        }
        assert(pairs_view(out@) =~= pairs_view(v@).subrange(0, i + 1));
        i = i + 1;
    }
    assert(pairs_view(v@).subrange(0, i as int) =~= pairs_view(v@));
    out
}

/// The applicative instance of declaration `k` with arguments `args`, if any.
pub open spec fn canonical(insts: Seq<SInstance>, k: usize, args: Seq<Seq<u8>>, i: int) -> Option<SInstance>
    decreases insts.len() - i,
{
    if i < 0 || i >= insts.len() {
        None
    } else if insts[i].applicative && insts[i].decl == k && insts[i].args == args {
        Some(insts[i])
    } else {
        canonical(insts, k, args, i + 1)
    }
}

impl Compiler {
    /// The position of the declaration named `name`.
    pub fn find_decl(&self, ast: &Ast, name: &[u8]) -> (r: Option<usize>)
        ensures
            match r {
                Some(k) => find_decl(ast@, self.decls@, name@, 0) == Some(k as int),
                None => find_decl(ast@, self.decls@, name@, 0) is None,
            },
    {
        proof {
            crate::ast::lemma_stmts_view(ast.statements@);
        }
        let mut k: usize = 0;
        while k < self.decls.len()
            invariant
                k <= self.decls@.len(),
                find_decl(ast@, self.decls@, name@, k as int) == find_decl(ast@, self.decls@, name@, 0),
                ast@.len() == ast.statements@.len(),
                forall|j: int| 0 <= j < ast.statements@.len() ==> #[trigger] ast@[j] == ast.statements@[j]@,
            decreases self.decls@.len() - k,
        {
            let idx = self.decls[k];
            if idx < ast.statements.len() {
                match &ast.statements[idx] {
                    Stmt::Schema(d) => {
                        if bytes_order(d.name.as_str().as_bytes(), name) == 0 {
                            return Some(k);
                        }
                    },
                    _ => {},
                }
            }
            k = k + 1;
        }
        None
    }

    /// The applicative instance of declaration `k` with arguments `args`.
    pub fn find_canonical(&self, k: usize, args: &Vec<Vec<u8>>) -> (r: Option<usize>)
        ensures
            match r {
                Some(i) => i < self.instances@.len() && canonical(insts_view(self.instances@), k, names_view(args@), 0)
                    == Some(self.instances@[i as int]@),
                None => canonical(insts_view(self.instances@), k, names_view(args@), 0) is None,
            },
    {
        let mut i: usize = 0;
        while i < self.instances.len()
            invariant
                i <= self.instances@.len(),
                canonical(insts_view(self.instances@), k, names_view(args@), i as int) == canonical(
                    insts_view(self.instances@),
                    k,
                    names_view(args@),
                    0,
                ),
            decreases self.instances@.len() - i,
        {
            if self.instances[i].applicative && self.instances[i].decl == k && names_equal(&self.instances[i].args, args) {
                return Some(i);
            }
            i = i + 1;
        }
        None
    }

    /// Whether declaration position `k` is being expanded.
    pub fn expanding(&self, k: usize) -> (r: bool)
        ensures
            r == self.expansion_stack@.contains(k),
    {
        let mut i: usize = 0;
        while i < self.expansion_stack.len()
            invariant
                i <= self.expansion_stack@.len(),
                forall|j: int| 0 <= j < i ==> self.expansion_stack@[j] != k,
            decreases self.expansion_stack@.len() - i,
        {
            if self.expansion_stack[i] == k {
                return true;
            }
            i = i + 1;
        }
        false
    }
}


/// What compiling a cell declaration does (see `Compiler::compile_cell`).
pub open spec fn cell_effect(c: Compiler, o: Compiler, cs: Scope, os: Scope, decl: SCellDecl) -> bool {
    let public = declared(prefix_view(os.prefix), utf8(decl.name));
    let env = o.env(&os);
    let id = o.next_generator_id;
    let built = cell_diagram(env, decl, id);
    if find_sym(env.syms, public) is Some {
        &&& c.diags() == o.diags() + err(msg_duplicate(public), decl.span)
        &&& c.only_diags_changed(&o)
        &&& cs.aliases@ == os.aliases@
    } else if id == usize::MAX {
        &&& c.diags() == o.diags() + err("too many generators"@, decl.span)
        &&& c.only_diags_changed(&o)
        &&& cs.aliases@ == os.aliases@
    } else {
        match built.0 {
            None => {
                &&& c.diags() == o.diags() + built.1
                &&& c.only_diags_changed(&o)
                &&& cs.aliases@ == os.aliases@
            },
            Some(d) => if !wf(d) {
                &&& c.diags() == o.diags() + built.1 + err(
                    "compiled diagram failed validation: Malformed"@,
                    decl.span,
                )
                &&& c.only_diags_changed(&o)
                &&& cs.aliases@ == os.aliases@
            } else {
                let inv = decl.invertibility == Invertibility::Invertible;
                &&& c.diags() == o.diags() + built.1
                &&& sig_view(c.signature@) == sig_view(o.signature@).push(
                    info_of(new_generator(d), public, decl.invertibility, d, strings_view(o.folder@)),
                )
                &&& syms_view(c.symbols@) == env.syms.insert(
                    insert_pos(env.syms, public, 0),
                    SSym { name: public, diagram: d, invertible: inv },
                )
                &&& c.next_generator_id == id + 1
                &&& c.instances@ == o.instances@
                &&& keeps_frame(c, o)
                &&& pairs_view(cs.aliases@) == scope_aliases_after(&os,
                    utf8(decl.name),
                    public,
                )
            },
        }
    }
}

/// The fields a declaration leaves as they were: the collected
/// declarations, the expansion stack, the folder path, the shown text and
/// diagram, the metadata, the workspace and the boundary.
pub open spec fn keeps_frame(c: Compiler, o: Compiler) -> bool {
    &&& c.decls@ == o.decls@
    &&& c.expansion_stack@ == o.expansion_stack@
    &&& c.folder@ == o.folder@
    &&& c.selected == o.selected
    &&& c.selected_diagram == o.selected_diagram
    &&& c.metadata == o.metadata
    &&& c.workspace == o.workspace
    &&& c.boundary == o.boundary
}

/// What compiling a constructed proof does (see `Compiler::compile_proof`).
pub open spec fn proof_effect(c: Compiler, o: Compiler, cs: Scope, os: Scope, decl: SProofDecl) -> bool {
    let public = declared(prefix_view(os.prefix), utf8(decl.name));
    let env = o.env(&os);
    let built = proof_diagram(env, decl);
    if find_sym(env.syms, public) is Some {
        &&& c.diags() == o.diags() + err(msg_duplicate(public), decl.span)
        &&& c.only_diags_changed(&o)
        &&& cs.aliases@ == os.aliases@
    } else {
        match built.0 {
            None => {
                &&& c.diags() == o.diags() + built.1
                &&& c.only_diags_changed(&o)
                &&& cs.aliases@ == os.aliases@
            },
            Some(d) => if !wf(d) {
                &&& c.diags() == o.diags() + built.1 + err(
                    "constructed proof failed validation: Malformed"@,
                    decl.span,
                )
                &&& c.only_diags_changed(&o)
                &&& cs.aliases@ == os.aliases@
            } else {
                &&& c.diags() == o.diags() + built.1
                &&& syms_view(c.symbols@) == env.syms.insert(
                    insert_pos(env.syms, public, 0),
                    SSym {
                        name: public,
                        diagram: d,
                        invertible: decl.invertibility == Invertibility::Invertible,
                    },
                )
                &&& c.instances@ == o.instances@
                &&& c.signature@ == o.signature@
                &&& c.next_generator_id == o.next_generator_id
                &&& keeps_frame(c, o)
                &&& pairs_view(cs.aliases@) == scope_aliases_after(&os,
                    utf8(decl.name),
                    public,
                )
            },
        }
    }
}

/// What showing an expression does (see `Compiler::compile_show`).
pub open spec fn show_effect(c: Compiler, o: Compiler, scope: Scope, expr: SExpr, span: Span) -> bool {
    let e = eval(o.env(&scope), expr);
    match e.0 {
        None => c.diags() == o.diags() + e.1 && c.only_diags_changed(&o),
        Some(v) => if !wf(v.diagram) {
            &&& c.diags() == o.diags() + e.1 + err("shown diagram failed validation: Malformed"@, span)
            &&& c.only_diags_changed(&o)
        } else {
            &&& c.diags() == o.diags() + e.1
            &&& c.selected matches Some(t) && t@ == bytes_as_chars(
                fmt(pairs_view(scope.aliases@), insts_view(o.instances@), expr),
            )
            &&& c.selected_diagram matches Some(d) && d@ == v.diagram
            &&& c.signature@ == o.signature@
            &&& c.symbols@ == o.symbols@
            &&& c.instances@ == o.instances@
            &&& c.next_generator_id == o.next_generator_id
            &&& c.expansion_stack@ == o.expansion_stack@
            &&& c.decls@ == o.decls@
            &&& c.folder@ == o.folder@
            &&& c.metadata == o.metadata
            &&& c.workspace == o.workspace
            &&& c.boundary == o.boundary
        },
    }
}


/// Every diagram of the signature is well formed.
pub open spec fn sig_wf(sig: Seq<SInfo>) -> bool {
    forall|i: int| 0 <= i < sig.len() ==> wf(#[trigger] sig[i].diagram)
}

/// Every diagram the compiler holds is well formed: the signature's, the
/// shown one, and those the actions selected or set aside.
pub open spec fn valid_state(c: Compiler) -> bool {
    &&& sig_wf(sig_view(c.signature@))
    &&& (c.selected_diagram matches Some(d) ==> wf(d@))
    &&& (c.workspace matches Some(d) ==> wf(d@))
    &&& (c.boundary matches Some(b) ==> wf(b.1@))
}


pub proof fn lemma_sig_wf_push(sig: Seq<SInfo>, x: SInfo)
    requires
        sig_wf(sig),
        wf(x.diagram),
    ensures
        sig_wf(sig.push(x)),
{
    assert forall|i: int| 0 <= i < sig.push(x).len() implies wf(#[trigger] sig.push(x)[i].diagram) by {
        if i < sig.len() {
            assert(sig.push(x)[i] == sig[i]);
        }
    }
}

} // verus!
