//! Declarations and their uses: instantiating properties, structs and macros,
//! filling fields with `with`, and the frame every statement keeps.
use vstd::prelude::*;
use vstd::string::StringExecFns;

use crate::ast::{
    MetadataKey, bindings_view, is_applicative, params_view, stmts_view, strings_view, Ast, Binding, CellDecl,
    Expr, Invertibility, Param, SBinding, SCellDecl, SExpr, SParam, SSchemaDecl, SStmt, Stmt,
    UseDecl,
};
use crate::compiler::{
    canonical, declared, declared_name, eval, err, find_decl, find_sym, insert_pos,
    lemma_find_sym, lemma_insert_pos, lemma_sorted_insert, msg_recursive, msg_unknown_schema,
    msg_unknown_symbol, prefix_view, scope_aliases_after, sig_view, sorted_syms, stack_ok, valid_state,
    sym_index, syms_view, Compiler, Env, SSym, Scope,
};
use crate::diagnostics::{error_diag, SDiagnostic, Span};
use crate::diagram::{sdim, src_of, tgt_of};
use crate::names::{
    find_instance, insts_view, instance_index, lookup, lookup_pair, names_view,
    pairs_view, resolve, resolve_name, Instance, Pairs, SInstance,
};
use crate::text::{concat3, copy_bytes, decimal, str_eq, usize_to_string, utf8};

verus! {

// ---------------------------------------------------------------------------
// The frame of a statement.

/// Every symbol of `old` is still there, unchanged.
pub open spec fn keeps_symbols(new: Seq<SSym>, old: Seq<SSym>) -> bool {
    forall|n: Seq<u8>| #[trigger] find_sym(old, n) is Some ==> find_sym(new, n) == find_sym(old, n)
}

/// What every statement keeps: diagnostics, signature entries and instances
/// are only appended, symbols are only added, generator identifiers only
/// grow, and the declarations, the expansion stack and the folder path are
/// as before.
pub open spec fn grows(c: Compiler, o: Compiler) -> bool {
    &&& o.diags().is_prefix_of(c.diags())
    &&& sig_view(o.signature@).is_prefix_of(sig_view(c.signature@))
    &&& insts_view(o.instances@).is_prefix_of(insts_view(c.instances@))
    &&& keeps_symbols(syms_view(c.symbols@), syms_view(o.symbols@))
    &&& o.next_generator_id <= c.next_generator_id
    &&& c.decls@ == o.decls@
    &&& c.expansion_stack@ == o.expansion_stack@
    &&& c.folder@ == o.folder@
}

pub proof fn lemma_grows_refl(c: Compiler)
    ensures
        grows(c, c),
{
    assert(c.diags() =~= c.diags().subrange(0, c.diags().len() as int));
    assert(sig_view(c.signature@) =~= sig_view(c.signature@).subrange(0, sig_view(c.signature@).len() as int));
    assert(insts_view(c.instances@) =~= insts_view(c.instances@).subrange(0, insts_view(c.instances@).len() as int));
}

pub proof fn lemma_prefix_trans<A>(a: Seq<A>, b: Seq<A>, c: Seq<A>)
    requires
        a.is_prefix_of(b),
        b.is_prefix_of(c),
    ensures
        a.is_prefix_of(c),
{
    assert forall|i: int| 0 <= i < a.len() implies a[i] == c.subrange(0, a.len() as int)[i] by {
        assert(a[i] == b.subrange(0, a.len() as int)[i]);
        assert(b[i] == c.subrange(0, b.len() as int)[i]);
    }
    assert(a =~= c.subrange(0, a.len() as int));
}

pub proof fn lemma_grows_trans(a: Compiler, b: Compiler, c: Compiler)
    requires
        grows(b, a),
        grows(c, b),
    ensures
        grows(c, a),
{
    lemma_prefix_trans(a.diags(), b.diags(), c.diags());
    lemma_prefix_trans(sig_view(a.signature@), sig_view(b.signature@), sig_view(c.signature@));
    lemma_prefix_trans(insts_view(a.instances@), insts_view(b.instances@), insts_view(c.instances@));
    assert forall|n: Seq<u8>| #[trigger] find_sym(syms_view(a.symbols@), n) is Some implies find_sym(
        syms_view(c.symbols@),
        n,
    ) == find_sym(syms_view(a.symbols@), n) by {
        assert(find_sym(syms_view(b.symbols@), n) == find_sym(syms_view(a.symbols@), n));
    }
}

/// A prefix stays a prefix when more is appended.
pub broadcast proof fn lemma_prefix_append<A>(a: Seq<A>, b: Seq<A>)
    ensures
        #[trigger] a.is_prefix_of(a + b),
{
    assert(a =~= (a + b).subrange(0, a.len() as int));
}

/// A sequence is a prefix of itself with one more element.
pub broadcast proof fn lemma_prefix_push<A>(a: Seq<A>, x: A)
    ensures
        #[trigger] a.is_prefix_of(a.push(x)),
{
    assert(a =~= a.push(x).subrange(0, a.len() as int));
}

/// In a sorted table the symbol with a name is the one at its position.
pub proof fn lemma_find_sym_sorted(s: Seq<SSym>, i: int)
    requires
        sorted_syms(s),
        0 <= i < s.len(),
    ensures
        find_sym(s, s[i].name) == Some(s[i]),
{
    lemma_find_sym(s, s[i].name);
    match find_sym(s, s[i].name) {
        Some(x) => {
            let j = choose|j: int| 0 <= j < s.len() && s[j] == x && x.name == s[i].name;
            if j < i {
                assert(crate::text::bytes_lt(s[j].name, s[i].name));
                crate::text::lemma_bytes_lt_irreflexive(s[i].name);
            } else if j > i {
                assert(crate::text::bytes_lt(s[i].name, s[j].name));
                crate::text::lemma_bytes_lt_irreflexive(s[i].name);
            }
        },
        None => {},
    }
}

/// Inserting a symbol under a new name keeps the others.
pub proof fn lemma_insert_keeps(s: Seq<SSym>, x: SSym)
    requires
        sorted_syms(s),
        find_sym(s, x.name) is None,
    ensures
        sorted_syms(s.insert(insert_pos(s, x.name, 0), x)),
        keeps_symbols(s.insert(insert_pos(s, x.name, 0), x), s),
{
    lemma_sorted_insert(s, x);
    lemma_insert_pos(s, x.name, 0);
    let p = insert_pos(s, x.name, 0);
    let t = s.insert(p, x);
    assert forall|n: Seq<u8>| #[trigger] find_sym(s, n) is Some implies find_sym(t, n) == find_sym(s, n) by {
        lemma_find_sym(s, n);
        let j = choose|j: int| 0 <= j < s.len() && s[j] == find_sym(s, n).unwrap() && find_sym(s, n).unwrap().name == n;
        let tj = if j < p {
            j
        } else {
            j + 1
        };
        assert(t[tj] == s[j]);
        lemma_find_sym_sorted(t, tj);
    }
}

// ---------------------------------------------------------------------------
// Uses of declarations.

/// The declaration at position `k` among the declarations.
pub open spec fn decl_of(ast: Seq<SStmt>, decls: Seq<usize>, k: int) -> SSchemaDecl {
    match ast[decls[k] as int] {
        SStmt::Schema(d) => d,
        _ => arbitrary(),
    }
}

/// The name of the declaration an instance was made from.
pub open spec fn instance_decl_name(ast: Seq<SStmt>, decls: Seq<usize>, inst: SInstance) -> Option<Seq<char>> {
    if inst.decl < decls.len() && decls[inst.decl as int] < ast.len() {
        match ast[decls[inst.decl as int] as int] {
            SStmt::Schema(d) => Some(d.name),
            _ => None,
        }
    } else {
        None
    }
}

pub open spec fn msg_arity(name: Seq<char>, expected: nat, got: nat) -> Seq<char> {
    "schema `"@ + name + "` expects "@ + decimal(expected) + " arguments but received "@ + decimal(got)
}

pub open spec fn msg_unknown_argument(arg: Seq<char>) -> Seq<char> {
    "unknown argument `"@ + arg + "`"@
}

pub open spec fn msg_argument_dimension(arg: Seq<char>, found: nat, expected: nat) -> Seq<char> {
    "dimension mismatch: argument `"@ + arg + "` has dimension "@ + decimal(found) + ", expected "@ + decimal(
        expected,
    )
}

pub open spec fn msg_unknown_structure(arg: Seq<char>) -> Seq<char> {
    "unknown structure argument `"@ + arg + "`"@
}

pub open spec fn msg_structure_mismatch(arg: Seq<char>, structure: Seq<char>) -> Seq<char> {
    "structure mismatch: argument `"@ + arg + "` is not a `"@ + structure + "`"@
}

/// What is wrong with argument `arg`, resolved to `a`, for parameter `p`:
/// a cell parameter takes a symbol of its dimension, a structure parameter an
/// instance of the named declaration.
pub open spec fn arg_error(
    ast: Seq<SStmt>,
    decls: Seq<usize>,
    syms: Seq<SSym>,
    insts: Seq<SInstance>,
    p: SParam,
    arg: Seq<char>,
    a: Seq<u8>,
) -> Option<Seq<char>> {
    match p.structure {
        None => match find_sym(syms, a) {
            None => Some(msg_unknown_argument(arg)),
            Some(s) => if sdim(s.diagram) != p.dimension {
                Some(msg_argument_dimension(arg, sdim(s.diagram), p.dimension as nat))
            } else {
                None
            },
        },
        Some(sn) => match find_instance(insts, a) {
            None => Some(msg_unknown_structure(arg)),
            Some(inst) => if instance_decl_name(ast, decls, inst) == Some(sn) {
                None
            } else {
                Some(msg_structure_mismatch(arg, sn))
            },
        },
    }
}

/// The first argument, from `i` on, that does not fit its parameter.
pub open spec fn first_arg_error(
    ast: Seq<SStmt>,
    decls: Seq<usize>,
    env: Env,
    params: Seq<SParam>,
    args: Seq<Seq<char>>,
    i: int,
) -> Option<(Seq<char>, Span)>
    decreases params.len() - i,
{
    if i < 0 || i >= params.len() || i >= args.len() {
        None
    } else {
        match arg_error(ast, decls, env.syms, env.insts, params[i], args[i], resolve(env.aliases, env.insts, utf8(args[i]))) {
            Some(m) => Some((m, params[i].span)),
            None => first_arg_error(ast, decls, env, params, args, i + 1),
        }
    }
}

/// The arguments of a use, resolved in its scope.
pub open spec fn resolved_args(env: Env, args: Seq<Seq<char>>) -> Seq<Seq<u8>> {
    Seq::new(args.len(), |i: int| resolve(env.aliases, env.insts, utf8(args[i])))
}

/// Whether the body declares a cell named `f` directly, from statement `i` on.
pub open spec fn has_cell(body: Seq<SStmt>, f: Seq<char>, i: int) -> bool
    decreases body.len() - i,
{
    if i < 0 || i >= body.len() {
        false
    } else if (body[i] matches SStmt::Cell(c) && c.name == f) {
        true
    } else {
        has_cell(body, f, i + 1)
    }
}

pub open spec fn msg_binding_not_name(f: Seq<char>) -> Seq<char> {
    "invalid with: the binding for `"@ + f + "` must be a name"@
}

pub open spec fn msg_unknown_field(f: Seq<char>) -> Seq<char> {
    "invalid with: unknown provided field `"@ + f + "`"@
}

/// What is wrong with a `with` binding: its value must name an existing
/// symbol, and its field must be a cell the body declares directly.
pub open spec fn binding_error(env: Env, body: Seq<SStmt>, b: SBinding) -> Option<Seq<char>> {
    match b.value {
        SExpr::Name(n, _) => if !has_cell(body, b.field, 0) {
            Some(msg_unknown_field(b.field))
        } else if find_sym(env.syms, resolve(env.aliases, env.insts, utf8(n))) is None {
            Some(msg_unknown_symbol(n))
        } else {
            None
        },
        _ => Some(msg_binding_not_name(b.field)),
    }
}

/// The first faulty binding from `i` on.
pub open spec fn first_binding_error(env: Env, body: Seq<SStmt>, bs: Seq<SBinding>, i: int) -> Option<(Seq<char>, Span)>
    decreases bs.len() - i,
{
    if i < 0 || i >= bs.len() {
        None
    } else {
        match binding_error(env, body, bs[i]) {
            Some(m) => Some((m, bs[i].span)),
            None => first_binding_error(env, body, bs, i + 1),
        }
    }
}

/// A statement that was refused with one error: nothing else changed.
pub open spec fn rejected(c: Compiler, o: Compiler, ca: Pairs, oa: Pairs, m: Seq<char>, s: Span) -> bool {
    &&& c.diags() == o.diags().push(error_diag(m, s))
    &&& c.only_diags_changed(&o)
    &&& ca@ == oa@
}

pub open spec fn opt_text(r: Option<String>) -> Option<Seq<char>> {
    match r {
        Some(s) => Some(s@),
        None => None,
    }
}

/// Whether the body declares a cell named `f` directly.
pub fn body_has_cell(body: &Vec<Stmt>, f: &str) -> (r: bool)
    ensures
        r == has_cell(stmts_view(body@), f@, 0),
{
    proof {
        crate::ast::lemma_stmts_view(body@);
    }
    let ghost b = stmts_view(body@);
    let mut i: usize = 0;
    while i < body.len()
        invariant
            i <= body@.len(),
            b == stmts_view(body@),
            b.len() == body@.len(),
            forall|j: int| 0 <= j < body@.len() ==> #[trigger] b[j] == body@[j]@,
            has_cell(b, f@, i as int) == has_cell(b, f@, 0),
        decreases body@.len() - i,
    {
        match &body[i] {
            Stmt::Cell(c) => {
                if str_eq(c.name.as_str(), f) {
                    return true;
                }
            },
            _ => {},
        }
        i = i + 1;
    }
    false
}

impl Compiler {
    /// What is wrong with an argument (see `arg_error`).
    pub fn arg_message(&self, ast: &Ast, p: &Param, arg: &str, a: &[u8]) -> (r: Option<String>)
        ensures
            opt_text(r) == arg_error(ast@, self.decls@, syms_view(self.symbols@), insts_view(self.instances@), p@, arg@, a@),
    {
        match &p.structure {
            None => match sym_index(&self.symbols, a) {
                None => Some(concat3("unknown argument `", arg, "`")),
                Some(i) => {
                    let d = self.symbols[i].diagram.dimension();
                    if d != p.dimension {
                        let m = concat3("dimension mismatch: argument `", arg, "` has dimension ");
                        let m = m.concat(usize_to_string(d).as_str());
                        let m = m.concat(", expected ");
                        let m = m.concat(usize_to_string(p.dimension).as_str());
                        Some(m)
                    } else {
                        None
                    }
                },
            },
            Some(sn) => match instance_index(&self.instances, a) {
                None => Some(concat3("unknown structure argument `", arg, "`")),
                Some(j) => {
                    proof {
                        crate::ast::lemma_stmts_view(ast.statements@);
                    }
                    let dk = self.instances[j].decl;
                    let fits = if dk < self.decls.len() && self.decls[dk] < ast.statements.len() {
                        match &ast.statements[self.decls[dk]] {
                            Stmt::Schema(d) => str_eq(d.name.as_str(), sn.as_str()),
                            _ => false,
                        }
                    } else {
                        false
                    };
                    if fits {
                        None
                    } else {
                        let m = concat3("structure mismatch: argument `", arg, "` is not a `");
                        let m = m.concat(sn.as_str());
                        let m = m.concat("`");
                        Some(m)
                    }
                },
            },
        }
    }
}


// ---------------------------------------------------------------------------
// Fields filled with `with`.

pub open spec fn msg_not_point(f: Seq<char>) -> Seq<char> {
    "invalid with: `"@ + f + "` must be a 0-cell"@
}

pub open spec fn msg_boundary(f: Seq<char>) -> Seq<char> {
    "invalid with: `"@ + f + "` does not match its declared boundary"@
}

pub open spec fn msg_not_invertible(f: Seq<char>) -> Seq<char> {
    "invalid with: `"@ + f + "` must be invertible"@
}

/// Whether the symbol `p` may fill the declared cell, and the diagnostics
/// reported while checking: its boundary must be the declared one, and an
/// invertible field takes invertible data.
pub open spec fn provided_check(env: Env, decl: SCellDecl, p: SSym) -> (bool, Seq<SDiagnostic>) {
    match (decl.source, decl.target) {
        (None, None) => if sdim(p.diagram) == 0 {
            (true, seq![])
        } else {
            (false, err(msg_not_point(decl.name), decl.span))
        },
        (Some(s), Some(t)) => {
            let rs = eval(env, s);
            match rs.0 {
                None => (false, rs.1),
                Some(a) => {
                    let rt = eval(env, t);
                    match rt.0 {
                        None => (false, rs.1 + rt.1),
                        Some(b) => if sdim(p.diagram) == 0 || src_of(p.diagram) != a.diagram || tgt_of(p.diagram)
                            != b.diagram {
                            (false, rs.1 + rt.1 + err(msg_boundary(decl.name), decl.span))
                        } else if decl.invertibility == Invertibility::Invertible && !p.invertible {
                            (false, rs.1 + rt.1 + err(msg_not_invertible(decl.name), decl.span))
                        } else {
                            (true, rs.1 + rt.1)
                        },
                    }
                },
            }
        },
        _ => (false, err("cell declaration must have both source and target"@, decl.span)),
    }
}

/// Every provided value names a symbol.
pub open spec fn provided_ok(p: Seq<(Seq<u8>, Seq<u8>)>, syms: Seq<SSym>) -> bool {
    forall|q: int| 0 <= q < p.len() ==> find_sym(syms, (#[trigger] p[q]).1) is Some
}

pub proof fn lemma_lookup_in(p: Seq<(Seq<u8>, Seq<u8>)>, key: Seq<u8>)
    ensures
        lookup(p, key) matches Some(v) ==> exists|q: int| 0 <= q < p.len() && (#[trigger] p[q]).1 == v,
    decreases p.len(),
{
    if p.len() > 0 {
        if p.last().0 == key {
            assert(p[p.len() - 1].1 == p.last().1);
        } else {
            lemma_lookup_in(p.drop_last(), key);
            if let Some(v) = lookup(p.drop_last(), key) {
                let q = choose|q: int| 0 <= q < p.drop_last().len() && (#[trigger] p.drop_last()[q]).1 == v;
                assert(p[q] == p.drop_last()[q]);
            }
        }
    }
}

/// Only diagnostics were appended: the frame holds.
pub proof fn lemma_grows_diags(c: Compiler, o: Compiler)
    requires
        c.only_diags_changed(&o),
        o.diags().is_prefix_of(c.diags()),
    ensures
        grows(c, o),
{
    lemma_grows_refl(o);
}

/// A symbol was inserted under a new name: the frame holds.
pub proof fn lemma_grows_insert(c: Compiler, o: Compiler, x: SSym)
    requires
        sorted_syms(syms_view(o.symbols@)),
        find_sym(syms_view(o.symbols@), x.name) is None,
        syms_view(c.symbols@) == syms_view(o.symbols@).insert(insert_pos(syms_view(o.symbols@), x.name, 0), x),
        o.diags().is_prefix_of(c.diags()),
        sig_view(o.signature@).is_prefix_of(sig_view(c.signature@)),
        c.instances@ == o.instances@,
        o.next_generator_id <= c.next_generator_id,
        c.decls@ == o.decls@,
        c.expansion_stack@ == o.expansion_stack@,
        c.folder@ == o.folder@,
    ensures
        grows(c, o),
        sorted_syms(syms_view(c.symbols@)),
{
    lemma_insert_keeps(syms_view(o.symbols@), x);
    assert(insts_view(o.instances@) =~= insts_view(c.instances@).subrange(0, insts_view(o.instances@).len() as int));
}

impl Compiler {
    /// Fills a declared cell with the existing symbol `pname` (see
    /// `provided_check`): on success the field names that symbol.
    pub fn compile_provided_cell(&mut self, decl: &CellDecl, pname: &Vec<u8>, scope: &mut Scope)
        requires
            find_sym(syms_view(old(self).symbols@), pname@) is Some,
        ensures
            provided_effect(*final(self), *old(self), *final(scope), *old(scope), decl@, pname@),
            final(scope).prefix == old(scope).prefix,
    {
        let ghost d0 = self.diags();
        let ghost env = self.env(scope);
        let i = match sym_index(&self.symbols, pname.as_slice()) {
            Some(i) => i,
            None => {
                return;
            },
        };
        let pd = self.symbols[i].diagram.copy();
        let pinv = self.symbols[i].invertible;
        let ok = match (&decl.source, &decl.target) {
            (None, None) => {
                if pd.dimension() == 0 {
                    assert(d0 + seq![] =~= d0);
                    true
                } else {
                    self.error(concat3("invalid with: `", decl.name.as_str(), "` must be a 0-cell"), decl.span);
                    assert(self.diags() =~= d0 + err(msg_not_point(decl.name@), decl.span));
                    false
                }
            },
            (Some(s), Some(t)) => {
                let a = match self.compile_expr(s, scope) {
                    Some(v) => v,
                    None => {
                        return;
                    },
                };
                let ghost rs = eval(env, s@);
                let b = match self.compile_expr(t, scope) {
                    Some(v) => v,
                    None => {
                        assert(self.diags() =~= d0 + (rs.1 + eval(env, t@).1));
                        return;
                    },
                };
                let ghost rt = eval(env, t@);
                assert(self.diags() =~= d0 + (rs.1 + rt.1));
                if pd.dimension() == 0 || !pd.source().same(&a.diagram) || !pd.target().same(&b.diagram) {
                    self.error(
                        concat3("invalid with: `", decl.name.as_str(), "` does not match its declared boundary"),
                        decl.span,
                    );
                    assert(self.diags() =~= d0 + (rs.1 + rt.1 + err(msg_boundary(decl.name@), decl.span)));
                    false
                } else if decl.invertibility == Invertibility::Invertible && !pinv {
                    self.error(concat3("invalid with: `", decl.name.as_str(), "` must be invertible"), decl.span);
                    assert(self.diags() =~= d0 + (rs.1 + rt.1 + err(msg_not_invertible(decl.name@), decl.span)));
                    false
                } else {
                    true
                }
            },
            _ => {
                self.error_text("cell declaration must have both source and target", decl.span);
                assert(self.diags() =~= d0 + err("cell declaration must have both source and target"@, decl.span));
                false
            },
        };
        if ok {
            let key = copy_bytes(decl.name.as_str().as_bytes());
            let value = copy_bytes(pname.as_slice());
            scope.aliases.push((key, value));
            assert(pairs_view(scope.aliases@) =~= pairs_view(old(scope).aliases@).push((utf8(decl.name@), pname@)));
        }
    }
}


// ---------------------------------------------------------------------------
// `unique first, second as same;`

pub open spec fn msg_unknown_instance(n: Seq<char>) -> Seq<char> {
    "unknown instance `"@ + n + "`"@
}

pub open spec fn msg_unique_mismatch(a: Seq<char>, b: Seq<char>) -> Seq<char> {
    "unique mismatch: `"@ + a + "` and `"@ + b + "` are different property instances"@
}

/// Whether `s` is the witness for field `q` of instance `a`: the identity on
/// the symbol the field names, invertible, under `public.field`.
pub open spec fn is_witness(o: Seq<SSym>, a: SInstance, public: Seq<u8>, n: Seq<u8>, s: SSym) -> bool {
    &&& s.invertible
    &&& s.name == n
    &&& exists|q: int|
        0 <= q < a.fields.len() && n == crate::names::dotted(public, (#[trigger] a.fields[q]).0) && (find_sym(
            o,
            a.fields[q].1,
        ) matches Some(t) && s.diagram == crate::diagram::s_identity(t.diagram))
}

/// Whether field `q` of `a` gets a witness: it names a symbol whose identity
/// exists.
pub open spec fn witnessed(o: Seq<SSym>, a: SInstance, q: int) -> bool {
    find_sym(o, a.fields[q].1) matches Some(t) && sdim(t.diagram) < usize::MAX
}

/// The symbols and the new diagnostics after the witnesses of the first `q`
/// fields of `a`, in order, starting from the symbols `s0`: a field naming a
/// symbol of `s0` whose identity exists gets that identity as
/// `public.field`, or, when that name is taken, a duplicate-symbol error.
pub open spec fn unique_run(s0: Seq<SSym>, a: SInstance, public: Seq<u8>, span: Span, q: nat) -> (Seq<SSym>, Seq<SDiagnostic>)
    decreases q,
{
    if q == 0 {
        (s0, seq![])
    } else {
        let prev = unique_run(s0, a, public, span, (q - 1) as nat);
        let j = q - 1;
        let n = crate::names::dotted(public, a.fields[j].0);
        if witnessed(s0, a, j) {
            if find_sym(prev.0, n) is Some {
                (prev.0, prev.1.push(error_diag(crate::compiler::msg_duplicate(n), span)))
            } else {
                let t = find_sym(s0, a.fields[j].1).unwrap();
                (
                    prev.0.insert(
                        insert_pos(prev.0, n, 0),
                        SSym { name: n, diagram: crate::diagram::s_identity(t.diagram), invertible: true },
                    ),
                    prev.1,
                )
            }
        } else {
            prev
        }
    }
}

/// Inserting a symbol leaves the other names' lookups as they were.
pub proof fn lemma_insert_other(s: Seq<SSym>, x: SSym, n: Seq<u8>)
    requires
        sorted_syms(s),
        find_sym(s, x.name) is None,
        n != x.name,
    ensures
        find_sym(s.insert(insert_pos(s, x.name, 0), x), n) == find_sym(s, n),
{
    lemma_insert_keeps(s, x);
    lemma_insert_pos(s, x.name, 0);
    let p = insert_pos(s, x.name, 0);
    let t = s.insert(p, x);
    lemma_find_sym(s, n);
    lemma_find_sym(t, n);
    if find_sym(s, n) is None {
        if let Some(y) = find_sym(t, n) {
            let j = choose|j: int| 0 <= j < t.len() && t[j] == y && y.name == n;
            if j < p {
                assert(s[j] == t[j]);
            } else if j > p {
                assert(s[j - 1] == t[j]);
            }
        }
    }
}

impl Compiler {
    /// Compiles `unique first, second as alias;`: both must name the same
    /// canonical property instance; each field that names a symbol gets the
    /// identity on that symbol as `alias.field`, an invertible symbol and no
    /// signature entry.
    #[verifier::rlimit(60)]
    pub fn compile_unique(&mut self, first: &str, second: &str, alias: &str, span: Span, scope: &mut Scope)
        requires
            sorted_syms(syms_view(old(self).symbols@)),
        ensures
            final(self).selected == old(self).selected,
            final(self).metadata == old(self).metadata,
            final(self).selected_diagram == old(self).selected_diagram,
            final(self).workspace == old(self).workspace,
            final(self).boundary == old(self).boundary,
            sorted_syms(syms_view(final(self).symbols@)),
            grows(*final(self), *old(self)),
            final(self).signature@ == old(self).signature@,
            final(self).next_generator_id == old(self).next_generator_id,
            final(self).instances@ == old(self).instances@,
            final(scope).prefix == old(scope).prefix,
            final(scope).aliases@ == old(scope).aliases@,
            unique_effect(*final(self), *old(self), *final(scope), *old(scope), first@, second@, alias@, span),
    {
        let ghost o = *self;
        let ghost env = self.env(scope);
        let ra = resolve_name(&scope.aliases, &self.instances, first.as_bytes());
        let ia = match instance_index(&self.instances, ra.as_slice()) {
            Some(i) => i,
            None => {
                self.error(concat3("unknown instance `", first, "`"), span);
                proof {
                    lemma_prefix_append(o.diags(), seq![error_diag(msg_unknown_instance(first@), span)]);
                    lemma_grows_diags(*self, o);
                }
                return;
            },
        };
        let rb = resolve_name(&scope.aliases, &self.instances, second.as_bytes());
        let ib = match instance_index(&self.instances, rb.as_slice()) {
            Some(i) => i,
            None => {
                self.error(concat3("unknown instance `", second, "`"), span);
                proof {
                    lemma_prefix_append(o.diags(), seq![error_diag(msg_unknown_instance(second@), span)]);
                    lemma_grows_diags(*self, o);
                }
                return;
            },
        };
        if !self.instances[ia].applicative || !self.instances[ib].applicative {
            self.error_text("unique on struct: `unique` requires property instances", span);
            proof {
                lemma_prefix_append(o.diags(), seq![error_diag("unique on struct: `unique` requires property instances"@, span)]);
                lemma_grows_diags(*self, o);
            }
            return;
        }
        if self.instances[ia].decl != self.instances[ib].decl || !crate::compiler::names_equal(&self.instances[ia].args, &self.instances[ib].args) {
            let m = concat3("unique mismatch: `", first, "` and `");
            let m = m.concat(second);
            let m = m.concat("` are different property instances");
            self.error(m, span);
            proof {
                lemma_prefix_append(o.diags(), seq![error_diag(msg_unique_mismatch(first@, second@), span)]);
                lemma_grows_diags(*self, o);
            }
            return;
        }
        let public = declared_name(alias, scope);
        let fields = crate::compiler::copy_pairs(&self.instances[ia].fields);
        let ghost a = self.instances@[ia as int]@;
        assert(pairs_view(fields@) == a.fields);
        let mut targets: Vec<Option<crate::diagram::Diagram>> = Vec::new();
        let mut q: usize = 0;
        while q < fields.len()
            invariant
                q <= fields@.len(),
                pairs_view(fields@) == a.fields,
                a.fields.len() == fields@.len(),
                *self == o,
                env == o.env(old(scope)),
                targets@.len() == q,
                forall|j: int| 0 <= j < q ==> match #[trigger] targets@[j] {
                    Some(d) => find_sym(env.syms, a.fields[j].1) matches Some(t) && d@ == t.diagram,
                    None => find_sym(env.syms, a.fields[j].1) is None,
                },
            decreases fields@.len() - q,
        {
            assert(a.fields[q as int].1 == fields@[q as int].1@);
            let t = match sym_index(&self.symbols, fields[q].1.as_slice()) {
                Some(si) => Some(self.symbols[si].diagram.copy()),
                None => None,
            };
            targets.push(t);
            q = q + 1;
        }
        let mut q: usize = 0;
        proof {
            lemma_grows_refl(o);
        }
        while q < fields.len()
            invariant
                q <= fields@.len(),
                pairs_view(fields@) == a.fields,
                a.fields.len() == fields@.len(),
                targets@.len() == fields@.len(),
                forall|j: int| 0 <= j < fields@.len() ==> match #[trigger] targets@[j] {
                    Some(d) => find_sym(env.syms, a.fields[j].1) matches Some(t) && d@ == t.diagram,
                    None => find_sym(env.syms, a.fields[j].1) is None,
                },
                o == *old(self),
                env == o.env(old(scope)),
                *scope == *old(scope),
                public@ == declared(prefix_view(old(scope).prefix), utf8(alias@)),
                sorted_syms(syms_view(self.symbols@)),
                grows(*self, o),
                self.signature@ == o.signature@,
                self.next_generator_id == o.next_generator_id,
                self.instances@ == o.instances@,
                self.selected == o.selected,
                self.metadata == o.metadata,
                self.selected_diagram == o.selected_diagram,
                self.workspace == o.workspace,
                self.boundary == o.boundary,
                syms_view(self.symbols@) == unique_run(env.syms, a, public@, span, q as nat).0,
                self.diags() == o.diags() + unique_run(env.syms, a, public@, span, q as nat).1,
                forall|j: int| 0 <= j < q && witnessed(env.syms, a, j) ==> find_sym(
                    syms_view(self.symbols@),
                    #[trigger] crate::names::dotted(public@, a.fields[j].0),
                ) is Some,
                forall|n: Seq<u8>| find_sym(env.syms, n) is None && (#[trigger] find_sym(syms_view(self.symbols@), n)) is Some
                    ==> is_witness(env.syms, a, public@, n, find_sym(syms_view(self.symbols@), n).unwrap()),
            decreases fields@.len() - q,
        {
            let ghost before = *self;
            let ghost fq = a.fields[q as int];
            assert(fq == (fields@[q as int].0@, fields@[q as int].1@));
            match &targets[q] {
                Some(td) => {
                    if td.dimension() < usize::MAX {
                        let name = crate::names::join_dotted(public.as_slice(), fields[q].0.as_slice());
                        if sym_index(&self.symbols, name.as_slice()).is_some() {
                            let text = crate::text::string_from_bytes(name.as_slice());
                            self.error(concat3("duplicate symbol `", text.as_str(), "`"), span);
                            proof {
                                lemma_prefix_append(before.diags(), seq![error_diag(crate::compiler::msg_duplicate(name@), span)]);
                                lemma_grows_diags(*self, before);
                                lemma_grows_trans(o, before, *self);
                            }
                        } else {
                            let w = td.identity();
                            let ghost x = SSym { name: name@, diagram: w@, invertible: true };
                            proof {
                                lemma_insert_keeps(syms_view(self.symbols@), x);
                                lemma_insert_pos(syms_view(self.symbols@), x.name, 0);
                            }
                            self.insert_symbol(name, w, true);
                            proof {
                                lemma_grows_insert(*self, before, x);
                                lemma_grows_trans(o, before, *self);
                                lemma_find_sym_sorted(
                                    syms_view(self.symbols@),
                                    insert_pos(syms_view(before.symbols@), x.name, 0),
                                );
                                assert forall|n: Seq<u8>| find_sym(env.syms, n) is None && (#[trigger] find_sym(
                                    syms_view(self.symbols@),
                                    n,
                                )) is Some implies is_witness(
                                    env.syms,
                                    a,
                                    public@,
                                    n,
                                    find_sym(syms_view(self.symbols@), n).unwrap(),
                                ) by {
                                    if n == x.name {
                                        assert(n == crate::names::dotted(public@, a.fields[q as int].0));
                                    } else {
                                        lemma_insert_other(syms_view(before.symbols@), x, n);
                                    }
                                }
                            }
                        }
                    }
                },
                None => {},
            }
            q = q + 1;
        }
    }
}


// ---------------------------------------------------------------------------
// `use Declaration(args) as alias [with { ... }]`

/// What a use of a declaration does, as far as it is stated here: the
/// refusals, each with its one error and nothing else changed; on success the
/// new instance, with its alias, declaration and resolved arguments, and, for
/// an applicative declaration used without `with` whose canonical instance
/// exists, the reuse of that instance's fields with nothing generated.
pub open spec fn use_spec(ast: Seq<SStmt>, c: Compiler, o: Compiler, cs: Scope, os: Scope, d: crate::ast::SUseDecl) -> bool {
    let env = o.env(&os);
    let public = declared(prefix_view(os.prefix), utf8(d.alias));
    match find_decl(ast, o.decls@, resolve(env.aliases, env.insts, utf8(d.schema)), 0) {
        None => rejected(c, o, cs.aliases, os.aliases, msg_unknown_schema(d.schema), d.span),
        Some(k) => {
            let sd = decl_of(ast, o.decls@, k);
            if o.expansion_stack@.contains(k as usize) {
                rejected(c, o, cs.aliases, os.aliases, msg_recursive(sd.name), d.span)
            } else if sd.params.len() != d.args.len() {
                rejected(c, o, cs.aliases, os.aliases, msg_arity(sd.name, sd.params.len(), d.args.len()), d.span)
            } else {
                match first_arg_error(ast, o.decls@, env, sd.params, d.args, 0) {
                    Some((m, s)) => rejected(c, o, cs.aliases, os.aliases, m, s),
                    None => match first_binding_error(env, sd.body, d.bindings, 0) {
                        Some((m, s)) => rejected(c, o, cs.aliases, os.aliases, m, s),
                        None => {
                            let args = resolved_args(env, d.args);
                            let insts = insts_view(c.instances@);
                            &&& pairs_view(cs.aliases@) == scope_aliases_after(&os, utf8(d.alias), public)
                            &&& insts.len() > 0
                            &&& insts.last().alias == public
                            &&& insts.last().decl == k as usize
                            &&& insts.last().args == args
                            &&& insts.last().applicative == is_applicative(sd.kind)
                            &&& (is_applicative(sd.kind) && d.bindings.len() == 0 && canonical(
                                env.insts,
                                k as usize,
                                args,
                                0,
                            ) is Some) ==> {
                                &&& insts == env.insts.push(
                                    SInstance {
                                        alias: public,
                                        decl: k as usize,
                                        args,
                                        applicative: true,
                                        fields: canonical(env.insts, k as usize, args, 0).unwrap().fields,
                                    },
                                )
                                &&& c.diags() == o.diags()
                                &&& c.symbols@ == o.symbols@
                                &&& c.signature@ == o.signature@
                                &&& c.next_generator_id == o.next_generator_id
                                &&& crate::compiler::keeps_frame(c, o)
                            }
                        },
                    },
                }
            }
        },
    }
}


/// The parameters of a declaration standing for the resolved arguments.
pub open spec fn param_aliases(env: Env, params: Seq<SParam>, args: Seq<Seq<char>>) -> Seq<(Seq<u8>, Seq<u8>)> {
    Seq::new(params.len(), |i: int| (utf8(params[i].name), resolve(env.aliases, env.insts, utf8(args[i]))))
}

/// The fields a `with` block provides, each with the symbol it names.
pub open spec fn provided_of(env: Env, bs: Seq<SBinding>) -> Seq<(Seq<u8>, Seq<u8>)> {
    Seq::new(
        bs.len(),
        |i: int|
            (
                utf8(bs[i].field),
                match bs[i].value {
                    SExpr::Name(n, _) => resolve(env.aliases, env.insts, utf8(n)),
                    _ => Seq::empty(),
                },
            ),
    )
}

/// The state an expansion of declaration `k` starts from: `o` with `k`
/// pushed on the expansion stack.
pub open spec fn enters_expansion(m: Compiler, o: Compiler, k: usize) -> bool {
    &&& m == (Compiler { expansion_stack: m.expansion_stack, ..o })
    &&& m.expansion_stack@ == o.expansion_stack@.push(k)
}

/// The scope a declaration's body starts in: names prefixed with the
/// alias, and the parameters standing for the arguments.
pub open spec fn body_scope(s: Scope, public: Seq<u8>, env: Env, sd: SSchemaDecl, d: crate::ast::SUseDecl) -> bool {
    &&& s.prefix matches Some(p) && p@ == public
    &&& pairs_view(s.aliases@) == param_aliases(env, sd.params, d.args)
}

/// The state after an expansion whose body ended in `(m, s)`: the stack
/// restored, and the instance registered with the body scope's names as
/// its fields.
pub open spec fn leaves_expansion(
    c: Compiler,
    m: Compiler,
    s: Scope,
    o: Compiler,
    env: Env,
    k: usize,
    sd: SSchemaDecl,
    d: crate::ast::SUseDecl,
    public: Seq<u8>,
) -> bool {
    &&& c == (Compiler { expansion_stack: c.expansion_stack, instances: c.instances, ..m })
    &&& c.expansion_stack@ == o.expansion_stack@
    &&& insts_view(c.instances@) == insts_view(m.instances@).push(
        SInstance {
            alias: public,
            decl: k,
            args: resolved_args(env, d.args),
            applicative: is_applicative(sd.kind),
            fields: pairs_view(s.aliases@),
        },
    )
}

/// How a generative use (or an applicative one without a canonical
/// instance) expands: declaration `k` is pushed on the expansion stack, its
/// body runs (see `stmts_effect`) in a scope whose names are prefixed with
/// the alias, whose parameters stand for the arguments and whose `with`
/// fields are provided; then the stack is popped and the instance, with the
/// body scope's names as its fields, is registered. `room` is the number of
/// declarations not on the expansion stack (see `room`); one of them is
/// taken by this expansion.
pub open spec fn expanded(
    ast: Seq<SStmt>,
    c: Compiler,
    o: Compiler,
    env: Env,
    k: usize,
    sd: SSchemaDecl,
    d: crate::ast::SUseDecl,
    public: Seq<u8>,
    room: nat,
) -> bool
    decreases room, 0nat, d, 0nat,
{
    room > 0 && exists|m1: Compiler, m2: Compiler, s1: Scope, s2: Scope|
        #![trigger enters_expansion(m1, o, k), body_scope(s1, public, env, sd, d), leaves_expansion(c, m2, s2, o, env, k, sd, d, public)]
        {
            &&& enters_expansion(m1, o, k)
            &&& body_scope(s1, public, env, sd, d)
            &&& stmts_effect(ast, m2, m1, s2, s1, sd.body, provided_of(env, d.bindings), (room - 1) as nat)
            &&& leaves_expansion(c, m2, s2, o, env, k, sd, d, public)
        }
}

/// The expansion a use performs when none of its refusals applies and no
/// canonical instance is reused (see `expanded`).
pub open spec fn use_expansion(ast: Seq<SStmt>, c: Compiler, o: Compiler, os: Scope, d: crate::ast::SUseDecl, room: nat) -> bool
    decreases room, 0nat, d, 1nat,
{
    let env = o.env(&os);
    let public = declared(prefix_view(os.prefix), utf8(d.alias));
    match find_decl(ast, o.decls@, resolve(env.aliases, env.insts, utf8(d.schema)), 0) {
        None => true,
        Some(k) => {
            let sd = decl_of(ast, o.decls@, k);
            let args = resolved_args(env, d.args);
            (!o.expansion_stack@.contains(k as usize) && sd.params.len() == d.args.len() && first_arg_error(
                ast,
                o.decls@,
                env,
                sd.params,
                d.args,
                0,
            ) is None && first_binding_error(env, sd.body, d.bindings, 0) is None && !(is_applicative(sd.kind)
                && d.bindings.len() == 0 && canonical(env.insts, k as usize, args, 0) is Some)) ==> expanded(
                ast,
                c,
                o,
                env,
                k as usize,
                sd,
                d,
                public,
                room,
            )
        },
    }
}

/// Once a property has been used with some arguments, its canonical
/// instance for those arguments exists: the instance a use registers
/// (`use_spec`) is found by `canonical`, so a later use of the same property
/// with the same arguments and no `with` reuses an instance instead of
/// generating cells.
pub proof fn lemma_property_reuse(insts: Seq<SInstance>, k: usize, args: Seq<Seq<u8>>)
    requires
        insts.len() > 0,
        insts.last().applicative,
        insts.last().decl == k,
        insts.last().args == args,
    ensures
        canonical(insts, k, args, 0) is Some,
{
    lemma_canonical_from(insts, k, args, 0);
}

/// The canonical instance of a property for some arguments is the first
/// applicative instance of that declaration whose resolved arguments are
/// exactly those arguments; there is none when no instance has them.
pub proof fn lemma_canonical_exact(insts: Seq<SInstance>, k: usize, args: Seq<Seq<u8>>)
    ensures
        match canonical(insts, k, args, 0) {
            Some(x) => x.applicative && x.decl == k && x.args == args && exists|i: int|
                0 <= i < insts.len() && insts[i] == x && forall|j: int|
                    0 <= j < i ==> !(insts[j].applicative && insts[j].decl == k && insts[j].args == args),
            None => forall|i: int|
                0 <= i < insts.len() ==> !(insts[i].applicative && insts[i].decl == k && insts[i].args == args),
        },
{
    lemma_canonical_exact_from(insts, k, args, 0);
}

proof fn lemma_canonical_exact_from(insts: Seq<SInstance>, k: usize, args: Seq<Seq<u8>>, s: int)
    requires
        0 <= s,
    ensures
        match canonical(insts, k, args, s) {
            Some(x) => x.applicative && x.decl == k && x.args == args && exists|i: int|
                s <= i < insts.len() && insts[i] == x && forall|j: int|
                    s <= j < i ==> !(insts[j].applicative && insts[j].decl == k && insts[j].args == args),
            None => forall|i: int|
                s <= i < insts.len() ==> !(insts[i].applicative && insts[i].decl == k && insts[i].args == args),
        },
    decreases insts.len() - s,
{
    if s < insts.len() {
        if insts[s].applicative && insts[s].decl == k && insts[s].args == args {
            assert(insts[s] == insts[s]);
        } else {
            lemma_canonical_exact_from(insts, k, args, s + 1);
        }
    }
}

proof fn lemma_canonical_from(insts: Seq<SInstance>, k: usize, args: Seq<Seq<u8>>, i: int)
    requires
        insts.len() > 0,
        0 <= i < insts.len(),
        insts.last().applicative,
        insts.last().decl == k,
        insts.last().args == args,
    ensures
        canonical(insts, k, args, i) is Some,
    decreases insts.len() - i,
{
    if !(insts[i].applicative && insts[i].decl == k && insts[i].args == args) {
        lemma_canonical_from(insts, k, args, i + 1);
    }
}

impl Compiler {
    /// Compiles `use Declaration(args) as alias [with { ... }]` (see
    /// `use_spec`): the body of the declaration is compiled in a scope whose
    /// names are prefixed with the alias, its parameters standing for the
    /// arguments and its `with` fields for the provided symbols; a declaration
    /// being expanded cannot be used again.
    #[verifier::rlimit(100)]
    #[verifier::loop_isolation(false)]
    pub fn compile_use(&mut self, ast: &Ast, decl: &UseDecl, scope: &mut Scope)
        requires
            valid_state(*old(self)),
            sorted_syms(syms_view(old(self).symbols@)),
            stack_ok(old(self).expansion_stack@, old(self).decls@),
        ensures
            valid_state(*final(self)),
            sorted_syms(syms_view(final(self).symbols@)),
            grows(*final(self), *old(self)),
            final(scope).prefix == old(scope).prefix,
            use_spec(ast@, *final(self), *old(self), *final(scope), *old(scope), decl@),
            use_expansion(ast@, *final(self), *old(self), *old(scope), decl@, room(*old(self))),
        decreases old(self).decls@.len() - old(self).expansion_stack@.len(), 0nat, decl,
    {
        let ghost o = *self;
        let ghost os = *scope;
        let ghost env = self.env(scope);
        proof {
            crate::ast::lemma_stmts_view(ast.statements@);
        }
        let name = resolve_name(&scope.aliases, &self.instances, decl.schema.as_str().as_bytes());
        let k = match self.find_decl(ast, name.as_slice()) {
            Some(k) => k,
            None => {
                self.error(concat3("unknown schema `", decl.schema.as_str(), "`"), decl.span);
                proof {
                    lemma_prefix_append(o.diags(), seq![error_diag(msg_unknown_schema(decl.schema@), decl.span)]);
                    lemma_grows_diags(*self, o);
                }
                return;
            },
        };
        proof {
            crate::compiler::lemma_find_decl(ast@, self.decls@, name@, 0);
        }
        let idx = self.decls[k];
        let sd = match &ast.statements[idx] {
            Stmt::Schema(d) => d,
            _ => {
                assert(false);
                return;
            },
        };
        let ghost sdv = decl_of(ast@, o.decls@, k as int);
        assert(sdv.name == sd.name@ && sdv.params == params_view(sd.params@) && sdv.body == stmts_view(sd.body@)
            && sdv.kind == sd.kind);
        if self.expanding(k) {
            self.error(
                concat3("recursive declaration: recursive schema expansion involving `", sd.name.as_str(), "`"),
                decl.span,
            );
            proof {
                lemma_prefix_append(o.diags(), seq![error_diag(msg_recursive(sd.name@), decl.span)]);
                lemma_grows_diags(*self, o);
            }
            return;
        }
        if sd.params.len() != decl.args.len() {
            let m = concat3("schema `", sd.name.as_str(), "` expects ");
            let m = m.concat(usize_to_string(sd.params.len()).as_str());
            let m = m.concat(" arguments but received ");
            let m = m.concat(usize_to_string(decl.args.len()).as_str());
            self.error(m, decl.span);
            proof {
                assert(m@ == msg_arity(sdv.name, sdv.params.len(), decl@.args.len()));
                lemma_prefix_append(o.diags(), seq![error_diag(m@, decl.span)]);
                lemma_grows_diags(*self, o);
            }
            return;
        }
        let public = declared_name(decl.alias.as_str(), scope);
        let mut args: Vec<Vec<u8>> = Vec::new();
        let mut child = Scope { aliases: Vec::new(), prefix: Some(copy_bytes(public.as_slice())) };
        let mut i: usize = 0;
        while i < sd.params.len()
            invariant
                i <= sd.params@.len(),
                sd.params@.len() == decl.args@.len(),
                *self == o,
                *scope == os,
                o == *old(self),
                os == *old(scope),
                env == o.env(&os),
                sdv.params == params_view(sd.params@),
                names_view(args@) == resolved_args(env, strings_view(decl.args@)).subrange(0, i as int),
                pairs_view(child.aliases@) == param_aliases(env, sdv.params, strings_view(decl.args@)).subrange(0, i as int),
                child.prefix matches Some(p) && p@ == public@,
                first_arg_error(ast@, o.decls@, env, sdv.params, strings_view(decl.args@), i as int) == first_arg_error(
                    ast@,
                    o.decls@,
                    env,
                    sdv.params,
                    strings_view(decl.args@),
                    0,
                ),
            decreases sd.params@.len() - i,
        {
            let resolved = resolve_name(&scope.aliases, &self.instances, decl.args[i].as_str().as_bytes());
            match self.arg_message(ast, &sd.params[i], decl.args[i].as_str(), resolved.as_slice()) {
                Some(m) => {
                    self.error(m, sd.params[i].span);
                    proof {
                        lemma_prefix_append(o.diags(), seq![error_diag(m@, sd.params[i as int].span)]);
                        lemma_grows_diags(*self, o);
                    }
                    return;
                },
                None => {},
            }
            let key = copy_bytes(sd.params[i].name.as_str().as_bytes());
            let value = copy_bytes(resolved.as_slice());
            let ghost ca = pairs_view(child.aliases@);
            child.aliases.push((key, value));
            assert(pairs_view(child.aliases@) =~= ca.push((utf8(sd.params@[i as int].name@), resolved@)));
            assert(pairs_view(child.aliases@) =~= param_aliases(env, sdv.params, strings_view(decl.args@)).subrange(0, i + 1));
            let ghost before = args@;
            let ghost rv = resolved@;
            args.push(resolved);
            assert(names_view(args@) =~= names_view(before).push(rv));
            assert(names_view(args@) =~= resolved_args(env, strings_view(decl.args@)).subrange(0, i + 1));
            i = i + 1;
        }
        assert(names_view(args@) =~= resolved_args(env, strings_view(decl.args@)));
        assert(pairs_view(child.aliases@) =~= param_aliases(env, sdv.params, strings_view(decl.args@)));
        let mut provided: Pairs = Vec::new();
        let mut j: usize = 0;
        while j < decl.bindings.len()
            invariant
                j <= decl.bindings@.len(),
                *self == o,
                *scope == os,
                o == *old(self),
                os == *old(scope),
                env == o.env(&os),
                sdv.body == stmts_view(sd.body@),
                first_binding_error(env, sdv.body, bindings_view(decl.bindings@), j as int) == first_binding_error(
                    env,
                    sdv.body,
                    bindings_view(decl.bindings@),
                    0,
                ),
                provided_ok(pairs_view(provided@), env.syms),
                pairs_view(provided@) == provided_of(env, bindings_view(decl.bindings@)).subrange(0, j as int),
            decreases decl.bindings@.len() - j,
        {
            let b = &decl.bindings[j];
            match &b.value {
                Expr::Name { name, .. } => {
                    if !body_has_cell(&sd.body, b.field.as_str()) {
                        self.error(concat3("invalid with: unknown provided field `", b.field.as_str(), "`"), b.span);
                        proof {
                            lemma_prefix_append(o.diags(), seq![error_diag(msg_unknown_field(b.field@), b.span)]);
                            lemma_grows_diags(*self, o);
                        }
                        return;
                    }
                    let resolved = resolve_name(&scope.aliases, &self.instances, name.as_str().as_bytes());
                    if sym_index(&self.symbols, resolved.as_slice()).is_none() {
                        self.error(concat3("unknown symbol `", name.as_str(), "`"), b.span);
                        proof {
                            lemma_prefix_append(o.diags(), seq![error_diag(msg_unknown_symbol(name@), b.span)]);
                            lemma_grows_diags(*self, o);
                        }
                        return;
                    }
                    let key = copy_bytes(b.field.as_str().as_bytes());
                    let ghost pb = pairs_view(provided@);
                    provided.push((key, resolved));
                    assert(pairs_view(provided@) =~= pb.push((utf8(b.field@), resolved@)));
                    assert(pairs_view(provided@) =~= provided_of(env, bindings_view(decl.bindings@)).subrange(0, j + 1));
                },
                _ => {
                    self.error(concat3("invalid with: the binding for `", b.field.as_str(), "` must be a name"), b.span);
                    proof {
                        lemma_prefix_append(o.diags(), seq![error_diag(msg_binding_not_name(b.field@), b.span)]);
                        lemma_grows_diags(*self, o);
                    }
                    return;
                },
            }
            j = j + 1;
        }
        let applicative = match sd.kind {
            crate::ast::DeclKind::Schema => true,
            crate::ast::DeclKind::Property => true,
            _ => false,
        };
        if applicative && decl.bindings.len() == 0 {
            match self.find_canonical(k, &args) {
                Some(c) => {
                    let fields = crate::compiler::copy_pairs(&self.instances[c].fields);
                    let inst = Instance { alias: copy_bytes(public.as_slice()), decl: k, args, applicative: true, fields };
                    let ghost iv = inst@;
                    self.instances.push(inst);
                    assert(insts_view(self.instances@) =~= insts_view(o.instances@).push(iv));
                    if scope.prefix.is_some() {
                        let key = copy_bytes(decl.alias.as_str().as_bytes());
                        scope.aliases.push((key, public));
                        assert(pairs_view(scope.aliases@) =~= scope_aliases_after(&os, utf8(decl.alias@), public@));
                    }
                    proof {
                        lemma_grows_refl(o);
                        lemma_prefix_append(insts_view(o.instances@), seq![iv]);
                        assert(insts_view(o.instances@).push(iv) =~= insts_view(o.instances@) + seq![iv]);
                    }
                    return;
                },
                None => {},
            }
        }
        let ghost args_v = names_view(args@);
        proof {
            crate::compiler::lemma_stack_bound(self.expansion_stack@, self.decls@.len());
        }
        self.expansion_stack.push(k);
        proof {
            assert(self.expansion_stack@ == o.expansion_stack@.push(k));
            assert(stack_ok(self.expansion_stack@, self.decls@)) by {
                assert forall|a: int, b: int| 0 <= a < b < self.expansion_stack@.len() implies self.expansion_stack@[a]
                    != self.expansion_stack@[b] by {
                    if b == self.expansion_stack@.len() - 1 {
                        assert(o.expansion_stack@[a] == self.expansion_stack@[a]);
                    }
                }
            }
            crate::compiler::lemma_stack_bound(self.expansion_stack@, self.decls@.len());
        }
        let ghost mid = *self;
        let ghost child_before = child;
        assert(pairs_view(provided@) =~= provided_of(env, bindings_view(decl.bindings@)));
        self.compile_stmts(ast, &sd.body, &mut child, &provided);
        let ghost after = *self;
        let ghost child_after = child;
        let _ = self.expansion_stack.pop();
        assert(self.expansion_stack@ =~= o.expansion_stack@);
        let alias_copy = copy_bytes(public.as_slice());
        let inst = Instance { alias: alias_copy, decl: k, args, applicative, fields: child.aliases };
        let ghost iv = inst@;
        let ghost ai = insts_view(self.instances@);
        self.instances.push(inst);
        assert(insts_view(self.instances@) =~= ai.push(iv));
        if scope.prefix.is_some() {
            let key = copy_bytes(decl.alias.as_str().as_bytes());
            scope.aliases.push((key, public));
            assert(pairs_view(scope.aliases@) =~= scope_aliases_after(&os, utf8(decl.alias@), public@));
        }
        proof {
            lemma_prefix_append(ai, seq![iv]);
            assert(ai.push(iv) =~= ai + seq![iv]);
            lemma_prefix_trans(insts_view(o.instances@), ai, insts_view(self.instances@));
            assert(mid.diags() == o.diags());
            assert(insts_view(mid.instances@) == insts_view(o.instances@));
            assert(room(mid) == room(o) - 1);
            assert(enters_expansion(mid, o, k));
            assert(body_scope(child_before, public@, env, sdv, decl@));
            assert(leaves_expansion(*self, after, child_after, o, env, k, sdv, decl@, public@));
            assert(stmts_effect(
                ast@,
                after,
                mid,
                child_after,
                child_before,
                sdv.body,
                provided_of(env, bindings_view(decl.bindings@)),
                (room(o) - 1) as nat,
            ));
        }
    }
}


/// What filling a declared cell with the symbol `pname` does (see
/// `Compiler::compile_provided_cell`).
pub open spec fn provided_effect(c: Compiler, o: Compiler, cs: Scope, os: Scope, decl: SCellDecl, pname: Seq<u8>) -> bool {
    let env = o.env(&os);
    let chk = provided_check(env, decl, find_sym(env.syms, pname).unwrap());
    &&& c.diags() == o.diags() + chk.1
    &&& c.only_diags_changed(&o)
    &&& pairs_view(cs.aliases@) == if chk.0 {
        pairs_view(os.aliases@).push((utf8(decl.name), pname))
    } else {
        pairs_view(os.aliases@)
    }
}

/// What `unique first, second as alias;` does (see `Compiler::compile_unique`).
pub open spec fn unique_effect(
    c: Compiler,
    o: Compiler,
    cs: Scope,
    os: Scope,
    first: Seq<char>,
    second: Seq<char>,
    alias: Seq<char>,
    span: Span,
) -> bool {
    let env = o.env(&os);
    let public = declared(prefix_view(os.prefix), utf8(alias));
    match find_instance(env.insts, resolve(env.aliases, env.insts, utf8(first))) {
        None => rejected(c, o, cs.aliases, os.aliases, msg_unknown_instance(first), span),
        Some(a) => match find_instance(env.insts, resolve(env.aliases, env.insts, utf8(second))) {
            None => rejected(c, o, cs.aliases, os.aliases, msg_unknown_instance(second), span),
            Some(b) => if !a.applicative || !b.applicative {
                rejected(
                    c,
                    o,
                    cs.aliases,
                    os.aliases,
                    "unique on struct: `unique` requires property instances"@,
                    span,
                )
            } else if a.decl != b.decl || a.args != b.args {
                rejected(c, o, cs.aliases, os.aliases, msg_unique_mismatch(first, second), span)
            } else {
                &&& syms_view(c.symbols@) == unique_run(env.syms, a, public, span, a.fields.len()).0
                &&& c.diags() == o.diags() + unique_run(env.syms, a, public, span, a.fields.len()).1
                &&& forall|q: int| 0 <= q < a.fields.len() && witnessed(env.syms, a, q) ==> find_sym(
                    syms_view(c.symbols@),
                    #[trigger] crate::names::dotted(public, a.fields[q].0),
                ) is Some
                &&& forall|n: Seq<u8>| find_sym(env.syms, n) is None && (#[trigger] find_sym(syms_view(c.symbols@), n)) is Some
                    ==> is_witness(env.syms, a, public, n, find_sym(syms_view(c.symbols@), n).unwrap())
            },
        },
    }
}


/// What setting a metadata field does: that field holds the value, and
/// nothing else changes.
pub open spec fn metadata_effect(c: Compiler, o: Compiler, key: MetadataKey, value: Seq<char>) -> bool {
    &&& c.diags() == o.diags()
    &&& c.signature@ == o.signature@
    &&& c.symbols@ == o.symbols@
    &&& c.instances@ == o.instances@
    &&& c.next_generator_id == o.next_generator_id
    &&& c.selected == o.selected
    &&& c.selected_diagram == o.selected_diagram
    &&& c.decls@ == o.decls@
    &&& c.expansion_stack@ == o.expansion_stack@
    &&& c.folder@ == o.folder@
    &&& c.workspace == o.workspace
    &&& c.boundary == o.boundary
    &&& match key {
        MetadataKey::Title => c.metadata.title matches Some(t) && t@ == value && c.metadata.author == o.metadata.author
            && c.metadata.abstr == o.metadata.abstr,
        MetadataKey::Author => c.metadata.author matches Some(t) && t@ == value && c.metadata.title == o.metadata.title
            && c.metadata.abstr == o.metadata.abstr,
        MetadataKey::Abstract => c.metadata.abstr matches Some(t) && t@ == value && c.metadata.title
            == o.metadata.title && c.metadata.author == o.metadata.author,
    }
}

pub open spec fn msg_nested(name: Seq<char>) -> Seq<char> {
    "nested schema `"@ + name + "` is not supported in V1"@
}

/// What a statement does, by kind: a cell is declared (or, when the
/// enclosing `with` provides it, filled with the provided symbol), a proof
/// constructed, a declaration used, `unique` witnesses made (with no
/// signature entry), actions replayed, an expression shown, a metadata field
/// set; a declaration inside a body is refused. (A folder's run is stated by
/// `stmt_effect`.)
pub open spec fn stmt_effect_flat(
    ast: Seq<SStmt>,
    c: Compiler,
    o: Compiler,
    cs: Scope,
    os: Scope,
    s: SStmt,
    provided: Seq<(Seq<u8>, Seq<u8>)>,
) -> bool {
    match s {
        SStmt::Metadata(key, value, _) => metadata_effect(c, o, key, value) && cs.aliases@ == os.aliases@,
        SStmt::Cell(d) => match lookup(provided, utf8(d.name)) {
            Some(p) => provided_effect(c, o, cs, os, d, p),
            None => crate::compiler::cell_effect(c, o, cs, os, d),
        },
        SStmt::Proof(d) => crate::compiler::proof_effect(c, o, cs, os, d),
        SStmt::Schema(d) => rejected(c, o, cs.aliases, os.aliases, msg_nested(d.name), d.span),
        SStmt::Use(d) => use_spec(ast, c, o, cs, os, d),
        SStmt::Unique(first, second, alias, span) => {
            &&& unique_effect(c, o, cs, os, first, second, alias, span)
            &&& c.signature@ == o.signature@
            &&& c.next_generator_id == o.next_generator_id
            &&& c.instances@ == o.instances@
            &&& crate::compiler::keeps_frame(c, o)
        },
        SStmt::Folder(_, _, _) => true,
        SStmt::Actions(acts, span) => crate::actions::actions_effect(c, o, acts, span) && cs.aliases@ == os.aliases@,
        SStmt::Show(e, span) => crate::compiler::show_effect(c, o, os, e, span) && cs.aliases@ == os.aliases@,
    }
}

/// The number of declarations that are not being expanded: how many more
/// expansions can nest inside the current one.
pub open spec fn room(c: Compiler) -> nat {
    (c.decls@.len() - c.expansion_stack@.len()) as nat
}

/// The state a folder's body starts from: `o` with the folder's name added
/// to the folder path.
pub open spec fn enters_folder(m: Compiler, o: Compiler, name: Seq<char>) -> bool {
    &&& m == (Compiler { folder: m.folder, ..o })
    &&& crate::compiler::strings_view(m.folder@) == crate::compiler::strings_view(o.folder@).push(name)
}

/// The state after a folder whose body ended in `m`: the folder path restored.
pub open spec fn leaves_folder(c: Compiler, m: Compiler, o: Compiler) -> bool {
    &&& c == (Compiler { folder: c.folder, ..m })
    &&& c.folder@ == o.folder@
}

/// What a statement does (see `stmt_effect_flat`); a folder runs its body,
/// statement by statement, with its name added to the folder path, which is
/// then restored; a use that expands a declaration runs its body (see
/// `use_expansion`), so a statement nested in folders and expansions at any
/// depth has its effect. Every statement keeps the frame `grows`: nothing
/// is removed, and the declarations, the expansion stack and the folder path
/// are as before. `room` is that of the state before (see `room`).
pub open spec fn stmt_effect(
    ast: Seq<SStmt>,
    c: Compiler,
    o: Compiler,
    cs: Scope,
    os: Scope,
    s: SStmt,
    provided: Seq<(Seq<u8>, Seq<u8>)>,
    room: nat,
) -> bool
    decreases room, 1nat, s, 0nat,
{
    &&& grows(c, o)
    &&& match s {
        SStmt::Folder(name, body, _) => exists|m1: Compiler, m2: Compiler|
            #![trigger enters_folder(m1, o, name), leaves_folder(c, m2, o)]
            {
                &&& enters_folder(m1, o, name)
                &&& stmts_effect(ast, m2, m1, cs, os, body, seq![], room)
                &&& leaves_folder(c, m2, o)
            },
        SStmt::Use(d) => use_spec(ast, c, o, cs, os, d) && use_expansion(ast, c, o, os, d, room),
        _ => stmt_effect_flat(ast, c, o, cs, os, s, provided),
    }
}


/// A folder's run, given the states around its body.
pub proof fn lemma_folder_effect(
    ast: Seq<SStmt>,
    c: Compiler,
    o: Compiler,
    cs: Scope,
    os: Scope,
    name: Seq<char>,
    body: Seq<SStmt>,
    span: Span,
    provided: Seq<(Seq<u8>, Seq<u8>)>,
    m1: Compiler,
    m2: Compiler,
    room: nat,
)
    requires
        enters_folder(m1, o, name),
        stmts_effect(ast, m2, m1, cs, os, body, seq![], room),
        leaves_folder(c, m2, o),
        grows(c, o),
    ensures
        stmt_effect(ast, c, o, cs, os, SStmt::Folder(name, body, span), provided, room),
{
    let s = SStmt::Folder(name, body, span);
    match s {
        SStmt::Folder(n, b, _) => {
            assert(n == name && b == body);
        },
        _ => {},
    }
}

// ---------------------------------------------------------------------------
// Statements.

/// A run of statements: the states before and after each statement, each
/// statement taking the state before it to the state after it (see
/// `stmt_effect`).
pub open spec fn is_run(
    ast: Seq<SStmt>,
    chain: Seq<(Compiler, Scope)>,
    stmts: Seq<SStmt>,
    provided: Seq<(Seq<u8>, Seq<u8>)>,
    room: nat,
) -> bool
    decreases room, 1nat, stmts, 1nat,
{
    &&& chain.len() == stmts.len() + 1
    &&& forall|j: int|
        0 <= j < stmts.len() ==> stmt_effect(
            ast,
            chain[j + 1].0,
            chain[j].0,
            chain[j + 1].1,
            chain[j].1,
            #[trigger] stmts[j],
            provided,
            room,
        )
}

/// Statements compiled in order take `(o, os)` to `(c, cs)`.
pub open spec fn stmts_effect(
    ast: Seq<SStmt>,
    c: Compiler,
    o: Compiler,
    cs: Scope,
    os: Scope,
    stmts: Seq<SStmt>,
    provided: Seq<(Seq<u8>, Seq<u8>)>,
    room: nat,
) -> bool
    decreases room, 1nat, stmts, 2nat,
{
    exists|chain: Seq<(Compiler, Scope)>|
        is_run(ast, chain, stmts, provided, room) && chain[0] == (o, os) && #[trigger] chain[stmts.len() as int] == (c, cs)
}

impl Compiler {
    /// Compiles statements in order (see `stmts_effect`).
    pub fn compile_stmts(&mut self, ast: &Ast, stmts: &Vec<Stmt>, scope: &mut Scope, provided: &Pairs)
        requires
            valid_state(*old(self)),
            sorted_syms(syms_view(old(self).symbols@)),
            stack_ok(old(self).expansion_stack@, old(self).decls@),
            provided_ok(pairs_view(provided@), syms_view(old(self).symbols@)),
        ensures
            valid_state(*final(self)),
            sorted_syms(syms_view(final(self).symbols@)),
            grows(*final(self), *old(self)),
            final(scope).prefix == old(scope).prefix,
            stmts_effect(
                ast@,
                *final(self),
                *old(self),
                *final(scope),
                *old(scope),
                crate::ast::stmts_view(stmts@),
                pairs_view(provided@),
                room(*old(self)),
            ),
        decreases old(self).decls@.len() - old(self).expansion_stack@.len(), 1nat, stmts,
    {
        proof {
            lemma_grows_refl(*self);
            crate::ast::lemma_stmts_view(stmts@);
        }
        let ghost sv = crate::ast::stmts_view(stmts@);
        let ghost pv = pairs_view(provided@);
        let ghost mut chain: Seq<(Compiler, Scope)> = seq![(*self, *scope)];
        let mut i: usize = 0;
        while i < stmts.len()
            invariant
                i <= stmts@.len(),
                sv == crate::ast::stmts_view(stmts@),
                sv.len() == stmts@.len(),
                forall|j: int| 0 <= j < stmts@.len() ==> #[trigger] sv[j] == stmts@[j]@,
                pv == pairs_view(provided@),
                sorted_syms(syms_view(self.symbols@)),
                stack_ok(self.expansion_stack@, self.decls@),
                provided_ok(pairs_view(provided@), syms_view(self.symbols@)),
                grows(*self, *old(self)),
                scope.prefix == old(scope).prefix,
                valid_state(*self),
                is_run(ast@, chain, sv.subrange(0, i as int), pv, room(*old(self))),
                chain[0] == (*old(self), *old(scope)),
                chain[i as int] == (*self, *scope),
            decreases stmts@.len() - i,
        {
            let ghost before = *self;
            proof {
                broadcast use vstd::std_specs::vec::axiom_vec_decreases_to_view;

                assert(decreases_to!(stmts => stmts@[i as int]));
            }
            self.compile_stmt(ast, &stmts[i], scope, provided);
            proof {
                lemma_grows_trans(*old(self), before, *self);
                let next = chain.push((*self, *scope));
                assert forall|j: int| 0 <= j < i + 1 implies stmt_effect(
                    ast@,
                    next[j + 1].0,
                    next[j].0,
                    next[j + 1].1,
                    next[j].1,
                    #[trigger] sv.subrange(0, i + 1)[j],
                    pv,
                    room(*old(self)),
                ) by {
                    if j < i {
                        assert(sv.subrange(0, i + 1)[j] == sv.subrange(0, i as int)[j]);
                    }
                }
                chain = next;
            }
            i = i + 1;
        }
        assert(sv.subrange(0, i as int) =~= sv);
    }

    /// Compiles one statement (see `stmt_effect`). Every statement keeps the
    /// frame `grows`; a folder compiles its body with its name added to the
    /// folder path.
    #[verifier::rlimit(100)]
    pub fn compile_stmt(&mut self, ast: &Ast, stmt: &Stmt, scope: &mut Scope, provided: &Pairs)
        requires
            valid_state(*old(self)),
            sorted_syms(syms_view(old(self).symbols@)),
            stack_ok(old(self).expansion_stack@, old(self).decls@),
            provided_ok(pairs_view(provided@), syms_view(old(self).symbols@)),
        ensures
            valid_state(*final(self)),
            sorted_syms(syms_view(final(self).symbols@)),
            grows(*final(self), *old(self)),
            final(scope).prefix == old(scope).prefix,
            stmt_effect(
                ast@,
                *final(self),
                *old(self),
                *final(scope),
                *old(scope),
                stmt@,
                pairs_view(provided@),
                room(*old(self)),
            ),
        decreases old(self).decls@.len() - old(self).expansion_stack@.len(), 1nat, stmt,
    {
        broadcast use lemma_prefix_append, lemma_prefix_push;

        let ghost o = *self;
        let ghost os = *scope;
        proof {
            lemma_grows_refl(o);
        }
        match stmt {
            Stmt::Metadata { key, value, .. } => {
                match key {
                    crate::ast::MetadataKey::Title => {
                        self.metadata.title = Some(value.clone());
                    },
                    crate::ast::MetadataKey::Author => {
                        self.metadata.author = Some(value.clone());
                    },
                    crate::ast::MetadataKey::Abstract => {
                        self.metadata.abstr = Some(value.clone());
                    },
                }
            },
            Stmt::Cell(c) => {
                match lookup_pair(provided, c.name.as_str().as_bytes()) {
                    Some(pn) => {
                        proof {
                            lemma_lookup_in(pairs_view(provided@), utf8(c.name@));
                        }
                        self.compile_provided_cell(c, &pn, scope);
                        proof {
                            lemma_grows_diags(*self, o);
                        }
                    },
                    None => {
                        let ghost env = o.env(&os);
                        let ghost public = declared(prefix_view(os.prefix), utf8(c.name@));
                        let ghost built = crate::compiler::cell_diagram(env, c@, o.next_generator_id);
                        self.compile_cell(c, scope);
                        proof {
                            if find_sym(env.syms, public) is None {
                                if let Some(d) = built.0 {
                                    lemma_insert_keeps(
                                        env.syms,
                                        SSym { name: public, diagram: d, invertible: c.invertibility == Invertibility::Invertible },
                                    );
                                }
                            }
                        }
                    },
                }
            },
            Stmt::Proof(p) => {
                let ghost env = o.env(&os);
                let ghost public = declared(prefix_view(os.prefix), utf8(p.name@));
                let ghost built = crate::compiler::proof_diagram(env, p@);
                self.compile_proof(p, scope);
                proof {
                    if find_sym(env.syms, public) is None {
                        if let Some(d) = built.0 {
                            lemma_insert_keeps(
                                env.syms,
                                SSym { name: public, diagram: d, invertible: p.invertibility == Invertibility::Invertible },
                            );
                        }
                    }
                }
            },
            Stmt::Schema(d) => {
                self.error(concat3("nested schema `", d.name.as_str(), "` is not supported in V1"), d.span);
            },
            Stmt::Use(u) => {
                self.compile_use(ast, u, scope);
            },
            Stmt::Unique { first, second, alias, span } => {
                self.compile_unique(first.as_str(), second.as_str(), alias.as_str(), *span, scope);
            },
            Stmt::Folder { name, body, span: sp } => {
                let fname = name.clone();
                let ghost fv = self.folder@;
                self.folder.push(fname);
                assert(crate::compiler::strings_view(self.folder@) =~= crate::compiler::strings_view(fv).push(name@));
                let ghost mid = *self;
                let ghost scope_before = *scope;
                let empty: Pairs = Vec::new();
                assert(pairs_view(empty@) =~= Seq::<(Seq<u8>, Seq<u8>)>::empty());
                assert(provided_ok(pairs_view(empty@), syms_view(self.symbols@)));
                self.compile_stmts(ast, body, scope, &empty);
                let ghost after = *self;
                let _ = self.folder.pop();
                assert(self.folder@ =~= o.folder@);
                assert(scope_before == os);
                assert(stmts_effect(ast@, after, mid, *scope, os, crate::ast::stmts_view(body@), seq![], room(o)));
                proof {
                    lemma_folder_effect(
                        ast@,
                        *self,
                        o,
                        *scope,
                        os,
                        name@,
                        crate::ast::stmts_view(body@),
                        *sp,
                        pairs_view(provided@),
                        mid,
                        after,
                        room(o),
                    );
                }
                proof {
                    assert(mid.diags() == o.diags());
                    assert(sig_view(mid.signature@) == sig_view(o.signature@));
                    assert(insts_view(mid.instances@) == insts_view(o.instances@));
                }
            },
            Stmt::Actions { actions, span } => {
                self.compile_actions(actions, *span);
            },
            Stmt::Show { expr, span } => {
                self.compile_show(expr, *span, scope);
            },
        }
    }
}

} // verus!
