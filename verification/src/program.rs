//! Compiling a whole program: collecting its declarations, compiling its
//! statements in order, and reporting the result.
use vstd::prelude::*;
use vstd::string::StringSliceAdditionalSpecFns;

use crate::ast::{Ast, SStmt, Stmt};
use crate::compiler::{
    err, find_decl, sig_view, sorted_syms, stack_ok, syms_view, valid_state, Compiler, Metadata, ProofState,
    SSym, Scope, Workspace,
};
use crate::declarations::{grows, lemma_grows_refl, lemma_grows_trans, provided_ok, room, stmt_effect};
use crate::diagnostics::{any_error, diags_view, has_error, Diagnostic, SDiagnostic};
use crate::diagram::{sdim, top_generator, wf, Generator};
use crate::names::{pairs_view, Pairs};
use crate::parser::{parse, spec_parse};
use crate::text::{bytes_as_chars, concat3, string_from_bytes, utf8};

verus! {

/// Metadata that a program's own `title`, `author` and `abstract` override.
#[derive(Debug, Default)]
pub struct CompileOptions {
    pub title: Option<String>,
    pub author: Option<String>,
    pub abstr: Option<String>,
}

/// A symbol of a compiled program: its name, dimension and greatest generator.
#[derive(Debug)]
pub struct SymbolInfo {
    pub name: String,
    pub dimension: usize,
    pub generator: Generator,
}

/// What compiling a program gives: its syntax tree if it parsed, the proof
/// state if nothing went wrong, the diagnostics, the symbols in name order
/// and the text of the shown expression.
#[derive(Debug)]
pub struct CompileResult {
    pub ast: Option<Ast>,
    pub proof: Option<ProofState>,
    pub diagnostics: Vec<Diagnostic>,
    pub symbols: Vec<SymbolInfo>,
    pub selected: Option<String>,
}

impl CompileResult {
    /// Whether the program compiled: no error and a proof state.
    pub fn is_ok(&self) -> (r: bool)
        ensures
            r == (!has_error(diags_view(self.diagnostics@)) && self.proof is Some),
    {
        !any_error(&self.diagnostics) && self.proof.is_some()
    }
}

pub open spec fn msg_duplicate_schema(name: Seq<char>) -> Seq<char> {
    "duplicate schema `"@ + name + "`"@
}

/// The declarations of a program from statement `i` on, added to `acc`: each
/// declaration statement is recorded by its position unless its name is
/// taken, which is reported.
pub open spec fn collect_decls(ast: Seq<SStmt>, i: int, acc: Seq<usize>) -> (Seq<usize>, Seq<SDiagnostic>)
    decreases ast.len() - i,
{
    if i < 0 || i >= ast.len() || i > usize::MAX {
        (acc, seq![])
    } else {
        match ast[i] {
            SStmt::Schema(d) => if find_decl(ast, acc, utf8(d.name), 0) is Some {
                let r = collect_decls(ast, i + 1, acc);
                (r.0, err(msg_duplicate_schema(d.name), d.span) + r.1)
            } else {
                collect_decls(ast, i + 1, acc.push(i as usize))
            },
            _ => collect_decls(ast, i + 1, acc),
        }
    }
}

/// Whether position `k` of `decls` records a declaration named `name`.
pub open spec fn records(ast: Seq<SStmt>, decls: Seq<usize>, name: Seq<u8>, k: int) -> bool {
    0 <= k < decls.len() && 0 <= decls[k] < ast.len() && (ast[decls[k] as int] matches SStmt::Schema(d) && utf8(
        d.name,
    ) == name)
}

proof fn lemma_find_decl_some(ast: Seq<SStmt>, a: Seq<usize>, name: Seq<u8>, k0: int, k: int)
    requires
        0 <= k0 <= k,
        records(ast, a, name, k),
    ensures
        find_decl(ast, a, name, k0) is Some,
    decreases k - k0,
{
    if !records(ast, a, name, k0) {
        lemma_find_decl_some(ast, a, name, k0 + 1, k);
    }
}

proof fn lemma_find_decl_extend(ast: Seq<SStmt>, a: Seq<usize>, b: Seq<usize>, name: Seq<u8>, k: int)
    requires
        0 <= k,
        find_decl(ast, a, name, k) is Some,
    ensures
        find_decl(ast, a + b, name, k) == find_decl(ast, a, name, k),
    decreases a.len() - k,
{
    if k < a.len() {
        assert((a + b)[k] == a[k]);
        if !records(ast, a, name, k) {
            lemma_find_decl_extend(ast, a, b, name, k + 1);
        }
    }
}

proof fn lemma_collect_from(ast: Seq<SStmt>, i: int, acc: Seq<usize>)
    requires
        0 <= i,
        ast.len() <= usize::MAX + 1,
    ensures
        acc.is_prefix_of(collect_decls(ast, i, acc).0),
        forall|j: int|
            i <= j < ast.len() ==> (#[trigger] ast[j] matches SStmt::Schema(d) ==> find_decl(
                ast,
                collect_decls(ast, i, acc).0,
                utf8(d.name),
                0,
            ) is Some),
    decreases ast.len() - i,
{
    if i < ast.len() {
        let r = collect_decls(ast, i, acc).0;
        match ast[i] {
            SStmt::Schema(d) => {
                let n = utf8(d.name);
                if find_decl(ast, acc, n, 0) is Some {
                    lemma_collect_from(ast, i + 1, acc);
                    assert(r =~= acc + r.subrange(acc.len() as int, r.len() as int));
                    lemma_find_decl_extend(ast, acc, r.subrange(acc.len() as int, r.len() as int), n, 0);
                } else {
                    let acc2 = acc.push(i as usize);
                    lemma_collect_from(ast, i + 1, acc2);
                    assert(records(ast, acc2, n, acc.len() as int));
                    lemma_find_decl_some(ast, acc2, n, 0, acc.len() as int);
                    assert(r =~= acc2 + r.subrange(acc2.len() as int, r.len() as int));
                    lemma_find_decl_extend(ast, acc2, r.subrange(acc2.len() as int, r.len() as int), n, 0);
                }
            },
            _ => {
                lemma_collect_from(ast, i + 1, acc);
            },
        }
    }
}

/// Declarations are collected before any statement runs: every declaration
/// of the program, wherever it stands, is found by its name, so a use may
/// come before the declaration it uses; what is found is a declaration of
/// that name.
pub proof fn lemma_declarations_found_anywhere(ast: Seq<SStmt>, j: int)
    requires
        0 <= j < ast.len() <= usize::MAX + 1,
        ast[j] is Schema,
    ensures
        ({
            let decls = collect_decls(ast, 0, seq![]).0;
            let name = utf8(ast[j]->Schema_0.name);
            find_decl(ast, decls, name, 0) matches Some(k) && records(ast, decls, name, k)
        }),
{
    lemma_collect_from(ast, 0, seq![]);
    let decls = collect_decls(ast, 0, seq![]).0;
    let name = utf8(ast[j]->Schema_0.name);
    assert(ast[j] matches SStmt::Schema(d));
    crate::compiler::lemma_find_decl(ast, decls, name, 0);
}

/// `infos` lists `syms` in order, each by its name, dimension and greatest
/// generator.
pub open spec fn lists_symbols(infos: Seq<SymbolInfo>, syms: Seq<SSym>) -> bool {
    &&& infos.len() == syms.len()
    &&& forall|i: int|
        0 <= i < syms.len() ==> {
            &&& (#[trigger] infos[i]).name@ == bytes_as_chars(syms[i].name)
            &&& infos[i].dimension == sdim(syms[i].diagram)
            &&& infos[i].generator == top_generator(syms[i].diagram)
        }
}


/// A compiler with nothing declared, whose metadata are the options.
pub open spec fn fresh(c: Compiler, options: CompileOptions) -> bool {
    &&& c.signature@.len() == 0
    &&& c.symbols@.len() == 0
    &&& c.decls@.len() == 0
    &&& c.instances@.len() == 0
    &&& c.diagnostics@.len() == 0
    &&& c.selected is None
    &&& c.selected_diagram is None
    &&& c.next_generator_id == 0
    &&& c.expansion_stack@.len() == 0
    &&& c.folder@.len() == 0
    &&& c.boundary is None
    &&& c.workspace is None
    &&& c.metadata.title == options.title
    &&& c.metadata.author == options.author
    &&& c.metadata.abstr == options.abstr
}

/// `s` is `o` with the declarations `decls` recorded and the diagnostics
/// `ds` reported, and nothing else changed.
pub open spec fn collected(s: Compiler, o: Compiler, decls: Seq<usize>, ds: Seq<SDiagnostic>) -> bool {
    &&& s.decls@ == decls
    &&& s.diags() == o.diags() + ds
    &&& s.signature@ == o.signature@
    &&& s.symbols@ == o.symbols@
    &&& s.instances@ == o.instances@
    &&& s.selected == o.selected
    &&& s.selected_diagram == o.selected_diagram
    &&& s.metadata == o.metadata
    &&& s.next_generator_id == o.next_generator_id
    &&& s.expansion_stack@ == o.expansion_stack@
    &&& s.folder@ == o.folder@
    &&& s.boundary == o.boundary
    &&& s.workspace == o.workspace
}

/// A top-level statement: a declaration was collected already and does
/// nothing here; any other statement has its effect (see `stmt_effect`).
pub open spec fn top_effect(ast: Seq<SStmt>, c: Compiler, o: Compiler, cs: Scope, os: Scope, s: SStmt) -> bool {
    if s is Schema {
        c == o && cs == os
    } else {
        stmt_effect(ast, c, o, cs, os, s, seq![], room(o))
    }
}

/// A run of the top-level statements: the states before and after each.
pub open spec fn is_top_run(ast: Seq<SStmt>, chain: Seq<(Compiler, Scope)>) -> bool {
    &&& chain.len() == ast.len() + 1
    &&& forall|j: int|
        0 <= j < ast.len() ==> top_effect(ast, chain[j + 1].0, chain[j].0, chain[j + 1].1, chain[j].1, #[trigger] ast[j])
}

/// What compiling a program does to the compiler `o`: its declarations are
/// collected (see `collect_decls`), then its statements take effect in
/// order, from an empty top-level scope, ending in `c`.
pub open spec fn program_effect(ast: Seq<SStmt>, c: Compiler, o: Compiler) -> bool {
    let cd = collect_decls(ast, 0, seq![]);
    exists|chain: Seq<(Compiler, Scope)>|
        {
            &&& is_top_run(ast, chain)
            &&& collected(chain[0].0, o, cd.0, cd.1)
            &&& chain[0].1.aliases@.len() == 0
            &&& chain[0].1.prefix is None
            &&& #[trigger] chain[ast.len() as int].0 == c
        }
}

/// What a compilation reports of its final compiler `c`: the proof state
/// exactly when no error was reported (see `Compiler::finish`), the
/// diagnostics, the symbols in order and the shown text.
pub open spec fn reports(r: CompileResult, c: Compiler) -> bool {
    &&& (r.proof is Some <==> !has_error(c.diags()))
    &&& (r.proof matches Some(p) ==> {
        &&& p.signature@ == c.signature@
        &&& p.metadata == c.metadata
        &&& p.workspace == match c.selected_diagram {
            Some(d) => Some(Workspace { diagram: d }),
            None => match c.workspace {
                Some(d) => Some(Workspace { diagram: d }),
                None => None,
            },
        }
    })
    &&& diags_view(r.diagnostics@) == c.diags()
    &&& sorted_syms(syms_view(c.symbols@))
    &&& lists_symbols(r.symbols@, syms_view(c.symbols@))
    &&& r.selected == c.selected
}

impl Compiler {
    /// A compiler with nothing declared, whose metadata are the options.
    pub fn new(options: CompileOptions) -> (r: Compiler)
        ensures
            r.signature@.len() == 0,
            r.symbols@.len() == 0,
            r.decls@.len() == 0,
            r.instances@.len() == 0,
            r.diagnostics@.len() == 0,
            r.selected is None,
            r.selected_diagram is None,
            r.next_generator_id == 0,
            r.expansion_stack@.len() == 0,
            r.folder@.len() == 0,
            r.boundary is None,
            r.workspace is None,
            r.metadata.title == options.title,
            r.metadata.author == options.author,
            r.metadata.abstr == options.abstr,
    {
        Compiler {
            signature: Vec::new(),
            symbols: Vec::new(),
            decls: Vec::new(),
            instances: Vec::new(),
            diagnostics: Vec::new(),
            selected: None,
            selected_diagram: None,
            metadata: Metadata { title: options.title, author: options.author, abstr: options.abstr },
            next_generator_id: 0,
            expansion_stack: Vec::new(),
            folder: Vec::new(),
            boundary: None,
            workspace: None,
        }
    }

    /// Compiles a program: its declarations are collected first (see
    /// `collect_decls`), then its other statements are compiled in order in
    /// the top-level scope.
    pub fn compile_ast(&mut self, ast: &Ast)
        requires
            sorted_syms(syms_view(old(self).symbols@)),
            old(self).decls@.len() == 0,
            old(self).expansion_stack@.len() == 0,
            valid_state(*old(self)),
        ensures
            valid_state(*final(self)),
            ({
                let c = collect_decls(ast@, 0, seq![]);
                &&& final(self).decls@ == c.0
                &&& (old(self).diags() + c.1).is_prefix_of(final(self).diags())
            }),
            sorted_syms(syms_view(final(self).symbols@)),
            final(self).expansion_stack@.len() == 0,
            program_effect(ast@, *final(self), *old(self)),
    {
        proof {
            crate::ast::lemma_stmts_view(ast.statements@);
        }
        let ghost d0 = self.diags();
        let ghost big = collect_decls(ast@, 0, seq![]);
        let mut i: usize = 0;
        assert(self.decls@ =~= Seq::<usize>::empty());
        assert(d0 + big.1 == self.diags() + big.1);
        while i < ast.statements.len()
            invariant
                i <= ast.statements@.len(),
                ast@.len() == ast.statements@.len(),
                forall|j: int| 0 <= j < ast.statements@.len() ==> #[trigger] ast@[j] == ast.statements@[j]@,
                big == collect_decls(ast@, 0, seq![]),
                big.0 == collect_decls(ast@, i as int, self.decls@).0,
                d0 + big.1 == self.diags() + collect_decls(ast@, i as int, self.decls@).1,
                d0 == old(self).diags(),
                sorted_syms(syms_view(self.symbols@)),
                self.expansion_stack@.len() == 0,
                self.symbols@ == old(self).symbols@,
                self.signature@ == old(self).signature@,
                self.instances@ == old(self).instances@,
                self.selected == old(self).selected,
                self.selected_diagram == old(self).selected_diagram,
                self.metadata == old(self).metadata,
                self.next_generator_id == old(self).next_generator_id,
                self.folder@ == old(self).folder@,
                self.boundary == old(self).boundary,
                self.workspace == old(self).workspace,
                self.expansion_stack@ == old(self).expansion_stack@,
            decreases ast.statements@.len() - i,
        {
            let ghost cur = self.diags();
            match &ast.statements[i] {
                Stmt::Schema(d) => {
                    if self.find_decl(ast, d.name.as_str().as_bytes()).is_some() {
                        self.error(concat3("duplicate schema `", d.name.as_str(), "`"), d.span);
                        proof {
                            let r = collect_decls(ast@, i + 1, self.decls@);
                            assert(cur + (err(msg_duplicate_schema(d.name@), d.span) + r.1) =~= self.diags() + r.1);
                        }
                    } else {
                        self.decls.push(i);
                    }
                },
                _ => {},
            }
            i = i + 1;
        }
        assert(self.diags() + seq![] =~= self.diags());
        assert(d0 + big.1 == self.diags());
        assert(self.decls@ == big.0);
        let ghost gathered = *self;
        let mut scope = Scope { aliases: Vec::new(), prefix: None };
        let empty: Pairs = Vec::new();
        assert(pairs_view(empty@) =~= Seq::<(Seq<u8>, Seq<u8>)>::empty());
        proof {
            lemma_grows_refl(*self);
        }
        let ghost mut chain: Seq<(Compiler, Scope)> = seq![(*self, scope)];
        let mut i: usize = 0;
        while i < ast.statements.len()
            invariant
                i <= ast.statements@.len(),
                ast@.len() == ast.statements@.len(),
                forall|j: int| 0 <= j < ast.statements@.len() ==> #[trigger] ast@[j] == ast.statements@[j]@,
                sorted_syms(syms_view(self.symbols@)),
                stack_ok(self.expansion_stack@, self.decls@),
                self.expansion_stack@.len() == 0,
                valid_state(*self),
                pairs_view(empty@) == Seq::<(Seq<u8>, Seq<u8>)>::empty(),
                grows(*self, gathered),
                gathered.decls@ == big.0,
                gathered.diags() == d0 + big.1,
                collected(gathered, *old(self), big.0, big.1),
                chain.len() == i + 1,
                chain[0].0 == gathered,
                chain[0].1.aliases@.len() == 0,
                chain[0].1.prefix is None,
                chain[i as int] == (*self, scope),
                forall|j: int|
                    0 <= j < i ==> top_effect(ast@, chain[j + 1].0, chain[j].0, chain[j + 1].1, chain[j].1, #[trigger] ast@[j]),
            decreases ast.statements@.len() - i,
        {
            match &ast.statements[i] {
                Stmt::Schema(_) => {},
                stmt => {
                    let ghost before = *self;
                    assert(provided_ok(pairs_view(empty@), syms_view(self.symbols@)));
                    self.compile_stmt(ast, stmt, &mut scope, &empty);
                    proof {
                        lemma_grows_trans(gathered, before, *self);
                    }
                },
            }
            proof {
                chain = chain.push((*self, scope));
            }
            i = i + 1;
        }
        assert(is_top_run(ast@, chain));
        assert(chain[ast@.len() as int].0 == *self);
    }
}

impl Compiler {
    /// Ends a compilation: the proof state exists exactly when no error was
    /// reported, with the signature, the metadata and, as its workspace, the
    /// shown diagram, or else the diagram the actions left selected. The
    /// diagnostics and the text of the shown expression are handed back too.
    pub fn finish(self) -> (r: (Option<ProofState>, Vec<Diagnostic>, Option<String>))
        ensures
            r.0 is Some <==> !has_error(self.diags()),
            r.0 matches Some(p) ==> {
                &&& p.signature@ == self.signature@
                &&& p.metadata == self.metadata
                &&& p.workspace == match self.selected_diagram {
                    Some(d) => Some(Workspace { diagram: d }),
                    None => match self.workspace {
                        Some(d) => Some(Workspace { diagram: d }),
                        None => None,
                    },
                }
            },
            diags_view(r.1@) == self.diags(),
            r.2 == self.selected,
    {
        let errors = any_error(&self.diagnostics);
        let proof_state = if errors {
            None
        } else {
            let workspace = match self.selected_diagram {
                Some(d) => Some(Workspace { diagram: d }),
                None => match self.workspace {
                    Some(d) => Some(Workspace { diagram: d }),
                    None => None,
                },
            };
            Some(ProofState { signature: self.signature, workspace, metadata: self.metadata })
        };
        (proof_state, self.diagnostics, self.selected)
    }
}

/// Every diagram of a proof state is well formed: its signature's and its
/// workspace's.
pub open spec fn valid_proof(p: ProofState) -> bool {
    &&& forall|i: int| 0 <= i < p.signature@.len() ==> wf(#[trigger] p.signature@[i].diagram@)
    &&& (p.workspace matches Some(w) ==> wf(w.diagram@))
}

/// Lists the symbols of a compiler in order.
pub fn symbol_infos(c: &Compiler) -> (r: Vec<SymbolInfo>)
    ensures
        lists_symbols(r@, syms_view(c.symbols@)),
{
    let mut out: Vec<SymbolInfo> = Vec::new();
    let mut i: usize = 0;
    while i < c.symbols.len()
        invariant
            i <= c.symbols@.len(),
            lists_symbols(out@, syms_view(c.symbols@).subrange(0, i as int)),
        decreases c.symbols@.len() - i,
    {
        let s = &c.symbols[i];
        let info = SymbolInfo {
            name: string_from_bytes(s.name.as_slice()),
            dimension: s.diagram.dimension(),
            generator: s.diagram.top_generator(),
        };
        let ghost before = out@;
        out.push(info);
        assert forall|j: int| 0 <= j < i + 1 implies (#[trigger] out@[j]).name@ == bytes_as_chars(
            syms_view(c.symbols@).subrange(0, i + 1)[j].name,
        ) && out@[j].dimension == sdim(syms_view(c.symbols@).subrange(0, i + 1)[j].diagram) && out@[j].generator
            == top_generator(syms_view(c.symbols@).subrange(0, i + 1)[j].diagram) by {
            if j < i {
                assert(out@[j] == before[j]);
                assert(syms_view(c.symbols@).subrange(0, i + 1)[j] == syms_view(c.symbols@).subrange(0, i as int)[j]);
            }
        }
        i = i + 1;
    }
    assert(syms_view(c.symbols@).subrange(0, i as int) =~= syms_view(c.symbols@));
    out
}

/// What compiling the text with bytes `text` gives (see `compile`).
pub open spec fn compiles_to(text: Seq<u8>, options: CompileOptions, r: CompileResult) -> bool {
    &&& match spec_parse(text) {
        Err(ds) => {
            &&& r.ast is None
            &&& r.proof is None
            &&& diags_view(r.diagnostics@) == ds
            &&& r.symbols@.len() == 0
            &&& r.selected is None
        },
        Ok(stmts) => {
            &&& r.ast matches Some(a) && a@ == stmts
            &&& (r.proof is Some <==> !has_error(diags_view(r.diagnostics@)))
            &&& collect_decls(stmts, 0, seq![]).1.is_prefix_of(diags_view(r.diagnostics@))
            &&& exists|syms: Seq<SSym>| sorted_syms(syms) && lists_symbols(r.symbols@, syms)
            &&& exists|o: Compiler, c: Compiler|
                #![trigger fresh(o, options), program_effect(stmts, c, o)]
                fresh(o, options) && program_effect(stmts, c, o) && reports(r, c)
        },
    }
    &&& (r.proof matches Some(p) ==> valid_proof(p))
}

/// Compiles a program. A text that does not parse gives only its
/// diagnostics. Otherwise the declarations are collected and the statements
/// compiled (see `Compiler::compile_ast`); the proof state is given exactly
/// when no error was reported, and the symbols are listed in name order,
/// each name once.
pub fn compile(source: &str, options: CompileOptions) -> (r: CompileResult)
    ensures
        compiles_to(source.spec_bytes(), options, r),
{
    let ast = match parse(source) {
        Ok(ast) => ast,
        Err(diagnostics) => {
            return CompileResult { ast: None, proof: None, diagnostics, symbols: Vec::new(), selected: None };
        },
    };
    let ghost given = options;
    let mut compiler = Compiler::new(options);
    let ghost start = compiler;
    assert(sorted_syms(syms_view(compiler.symbols@)));
    assert(valid_state(compiler));
    compiler.compile_ast(&ast);
    let ghost end = compiler;
    assert(Seq::<SDiagnostic>::empty() + collect_decls(ast@, 0, seq![]).1 =~= collect_decls(ast@, 0, seq![]).1);
    let symbols = symbol_infos(&compiler);
    let (state, diagnostics, selected) = compiler.finish();
    proof {
        if state is Some {
            let p = state->0;
            assert forall|i: int| 0 <= i < p.signature@.len() implies wf(#[trigger] p.signature@[i].diagram@) by {
                assert(sig_view(end.signature@)[i].diagram == p.signature@[i].diagram@);
            }
        }
    }
    let r = CompileResult { ast: Some(ast), proof: state, diagnostics, symbols, selected };
    assert(fresh(start, given) && program_effect(ast@, end, start) && reports(r, end));
    r
}

} // verus!
