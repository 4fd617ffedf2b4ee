use homotopy_dsl::compiler::ProofState;
use homotopy_dsl::diagram::Diagram;
use homotopy_dsl::{compile, CompileOptions, CompileResult};

fn run(source: &str) -> CompileResult {
    compile(source, CompileOptions::default())
}

fn messages(result: &CompileResult) -> Vec<String> {
    result.diagnostics.iter().map(|d| d.message.clone()).collect()
}

fn has_message(result: &CompileResult, text: &str) -> bool {
    result.diagnostics.iter().any(|d| d.message.contains(text))
}

fn symbol_names(result: &CompileResult) -> Vec<String> {
    result.symbols.iter().map(|s| s.name.clone()).collect()
}

fn signature_names(proof: &ProofState) -> Vec<String> {
    proof.signature.iter().map(|g| g.name.clone()).collect()
}

fn generator<'a>(proof: &'a ProofState, name: &str) -> &'a Diagram {
    &proof.signature.iter().find(|g| g.name == name).unwrap().diagram
}

#[test]
fn metadata_overrides_options() {
    let result = compile(
        "title \"T\"; author \"Ann\"; abstract \"About\"; cell A;",
        CompileOptions {
            title: Some("Old".to_string()),
            author: None,
            abstr: None,
        },
    );
    assert!(result.is_ok(), "{:?}", messages(&result));
    let proof = result.proof.unwrap();
    assert_eq!(proof.metadata.title.as_deref(), Some("T"));
    assert_eq!(proof.metadata.author.as_deref(), Some("Ann"));
    assert_eq!(proof.metadata.abstr.as_deref(), Some("About"));
}

#[test]
fn options_give_metadata_when_source_has_none() {
    let result = compile(
        "cell A;",
        CompileOptions {
            title: Some("Given".to_string()),
            author: None,
            abstr: None,
        },
    );
    assert_eq!(result.proof.unwrap().metadata.title.as_deref(), Some("Given"));
}

#[test]
fn parse_errors_give_no_ast_and_no_proof() {
    let result = run("cell ;");
    assert!(result.ast.is_none());
    assert!(result.proof.is_none());
    assert!(!result.diagnostics.is_empty());
    assert!(result.symbols.is_empty());
    assert!(!result.is_ok());
}

#[test]
fn symbols_are_listed_in_name_order() {
    let result = run("cell b; cell a; cell c; cell f: a -> b;");
    assert!(result.is_ok());
    assert_eq!(symbol_names(&result), vec!["a", "b", "c", "f"]);
    let f = result.symbols.iter().find(|s| s.name == "f").unwrap();
    assert_eq!(f.dimension, 1);
    assert_eq!(f.generator.id, 3);
    assert_eq!(f.generator.dimension, 1);
}

#[test]
fn generators_are_numbered_and_coloured_in_order() {
    let result = run("cell A; cell B; cell f: A -> B;");
    let proof = result.proof.unwrap();
    let ids: Vec<usize> = proof.signature.iter().map(|g| g.generator.id).collect();
    assert_eq!(ids, vec![0, 1, 2]);
    assert_eq!(proof.signature[0].color, "#2980b9");
    assert_eq!(proof.signature[1].color, "#c0392b");
    assert_eq!(proof.signature[2].color, "#f39c12");
}

#[test]
fn unknown_symbols_are_reported() {
    let result = run("cell A; show missing;");
    assert!(!result.is_ok());
    assert!(has_message(&result, "unknown symbol `missing`"));
}

#[test]
fn cells_need_both_boundaries_to_match() {
    let result = run("cell A; cell B; cell f: A -> B; cell g: f -> A;");
    assert!(has_message(&result, "dimension mismatch: source dimension 1 does not match target dimension 0"));
}

#[test]
fn non_parallel_boundaries_are_refused() {
    let result = run("cell A; cell B; cell C; cell f: A -> B; cell g: A -> C; cell h: f -> g;");
    assert!(has_message(&result, "could not create generator"));
}

#[test]
fn composition_needs_matching_boundaries() {
    let result = run("cell A; cell B; cell f: A -> B; show f * f;");
    assert!(has_message(&result, "target of one term must match source of the next term"));
}

#[test]
fn composition_needs_positive_dimension() {
    let result = run("cell A; show A * A;");
    assert!(has_message(&result, "only positive-dimensional diagrams can be composed"));
}

#[test]
fn inverse_needs_positive_dimension() {
    let result = run("cell A; show inv(A);");
    assert!(has_message(&result, "only invertible diagrams can be inverted"));
    let result = run("cell A; show inv(id(A));");
    assert!(result.is_ok(), "{:?}", messages(&result));
}

#[test]
fn identity_raises_dimension() {
    let result = run("cell A; cell B; cell f: A -> B; show id(f);");
    assert!(result.is_ok());
    assert_eq!(result.selected.as_deref(), Some("id(f)"));
    let workspace = result.proof.unwrap().workspace.unwrap();
    assert_eq!(workspace.diagram.dimension(), 2);
}

#[test]
fn contract_expression_merges_two_loops() {
    let result = run(
        "cell X; cell a: id(X) <-> id(X); cell b: id(X) <-> id(X); show contract(a * b, lower);",
    );
    assert!(result.is_ok(), "{:?}", messages(&result));
    assert_eq!(result.selected.as_deref(), Some("contract(a * b, lower)"));
    let workspace = result.proof.unwrap().workspace.unwrap();
    assert_eq!(workspace.diagram.dimension(), 2);
    assert_eq!(workspace.diagram.width(), 1);
}

#[test]
fn contract_of_a_single_cell_fails() {
    let result = run("cell A; cell B; cell f: A -> B; show contract(f);");
    assert!(has_message(&result, "could not contract the diagram"));
}

#[test]
fn proof_bodies_attach_and_must_end_at_the_target() {
    let result = run(
        "cell A; cell B; cell f: A <-> B; construct cancel: f * inv(f) <-> id(A); \
         construct undo: id(A) -> f * inv(f) { attach inv(cancel); } show undo;",
    );
    assert!(result.is_ok(), "{:?}", messages(&result));
    let bad = run(
        "cell A; cell B; cell f: A <-> B; construct cancel: f * inv(f) <-> id(A); \
         construct wrong: id(A) -> id(A) { attach inv(cancel); }",
    );
    assert!(has_message(&bad, "ends at a different diagram"));
}

#[test]
fn attach_needs_an_occurrence() {
    let result = run(
        "cell A; cell B; cell f: A -> B; cell g: B -> A; cell w: f * g -> id(A); \
         construct p: g * f -> g * f { attach w; }",
    );
    assert!(has_message(&result, "could not attach the diagram"));
}

#[test]
fn proof_dimensions_must_agree() {
    let result = run("cell A; cell B; cell f: A -> B; prove p: f -> A;");
    assert!(has_message(&result, "proof source dimension 1 does not match target dimension 0"));
}

#[test]
fn proofs_of_points_are_refused() {
    let result = run("cell A; prove p: A -> A;");
    assert!(has_message(&result, "only positive-dimensional proofs can be constructed"));
}

#[test]
fn constructed_proofs_stay_out_of_the_signature() {
    let result = run(
        "cell X; cell alpha: id(X) <-> id(X); cell beta: id(X) <-> id(X); \
         construct l: alpha * beta <-> contract(alpha * beta, lower) { contract lower; } \
         construct h: beta * alpha <-> contract(alpha * beta, lower) { contract higher; } \
         construct commute: alpha * beta -> beta * alpha { attach l; attach inv(h); }",
    );
    assert!(result.is_ok(), "{:?}", messages(&result));
    let names = symbol_names(&result);
    assert!(names.contains(&"commute".to_string()));
    let proof = result.proof.unwrap();
    assert_eq!(signature_names(&proof), vec!["X", "alpha", "beta"]);
}

#[test]
fn struct_uses_generate_fresh_cells() {
    let result = run(
        "cell A; struct Pointed(X: cell<0>) { cell loop: X -> X; } \
         use Pointed(A) as first; use Pointed(A) as second; show second.loop;",
    );
    assert!(result.is_ok(), "{:?}", messages(&result));
    let proof = result.proof.unwrap();
    assert_eq!(signature_names(&proof), vec!["A", "first.loop", "second.loop"]);
}

#[test]
fn property_uses_share_the_canonical_instance() {
    let result = run(
        "cell A; property Pointed(X: cell<0>) { cell loop: X -> X; } \
         use Pointed(A) as first; use Pointed(A) as second; show second.loop;",
    );
    assert!(result.is_ok(), "{:?}", messages(&result));
    assert_eq!(result.selected.as_deref(), Some("first.loop"));
    let proof = result.proof.unwrap();
    assert_eq!(signature_names(&proof), vec!["A", "first.loop"]);
}

#[test]
fn property_with_other_arguments_is_a_new_instance() {
    let result = run(
        "cell A; cell B; property Pointed(X: cell<0>) { cell loop: X -> X; } \
         use Pointed(A) as first; use Pointed(B) as second; show second.loop;",
    );
    assert!(result.is_ok());
    assert_eq!(result.selected.as_deref(), Some("second.loop"));
    assert_eq!(signature_names(&result.proof.unwrap()), vec!["A", "B", "first.loop", "second.loop"]);
}

#[test]
fn unique_makes_identity_witnesses() {
    let result = run(
        "cell A; property Pointed(X: cell<0>) { cell loop: X -> X; } \
         use Pointed(A) as first; use Pointed(A) as second; unique first, second as same; show same.loop;",
    );
    assert!(result.is_ok(), "{:?}", messages(&result));
    let same = result.symbols.iter().find(|s| s.name == "same.loop").unwrap();
    assert_eq!(same.dimension, 2);
    let proof = result.proof.unwrap();
    assert_eq!(signature_names(&proof), vec!["A", "first.loop"]);
    let looped = generator(&proof, "first.loop");
    let workspace = proof.workspace.as_ref().unwrap();
    assert!(workspace.diagram.same(&looped.identity()));
}

#[test]
fn unique_refuses_structs() {
    let result = run(
        "cell A; struct Pointed(X: cell<0>) { cell loop: X -> X; } \
         use Pointed(A) as first; use Pointed(A) as second; unique first, second as same;",
    );
    assert!(has_message(&result, "unique on struct"));
}

#[test]
fn unique_refuses_different_instances() {
    let result = run(
        "cell A; cell B; property Pointed(X: cell<0>) { cell loop: X -> X; } \
         use Pointed(A) as first; use Pointed(B) as second; unique first, second as same;",
    );
    assert!(has_message(&result, "unique mismatch: `first` and `second` are different property instances"));
}

#[test]
fn unique_needs_known_instances() {
    let result = run("cell A; unique first, second as same;");
    assert!(has_message(&result, "unknown instance `first`"));
}

#[test]
fn with_fills_fields_from_existing_cells() {
    let result = run(
        "cell A; cell existing: A -> A; struct Endomorphism(X: cell<0>) { cell map: X -> X; } \
         use Endomorphism(A) as endo with { map = existing; } show endo.map;",
    );
    assert!(result.is_ok(), "{:?}", messages(&result));
    assert_eq!(result.selected.as_deref(), Some("existing"));
    assert_eq!(signature_names(&result.proof.unwrap()), vec!["A", "existing"]);
}

#[test]
fn with_checks_the_declared_boundary() {
    let result = run(
        "cell A; cell existing: A -> A; struct Idempotent(X: cell<0>) { cell map: X -> X; \
         cell square: map * map <-> map; } use Idempotent(A) as bad with { map = existing; square = existing; }",
    );
    assert!(has_message(&result, "invalid with: `square` does not match its declared boundary"));
}

#[test]
fn with_checks_invertibility() {
    let result = run(
        "cell A; cell e: A -> A; cell sq: e * e -> e; struct Idempotent(X: cell<0>) { cell map: X -> X; \
         cell square: map * map <-> map; } use Idempotent(A) as bad with { map = e; square = sq; }",
    );
    assert!(has_message(&result, "invalid with: `square` must be invertible"));
}

#[test]
fn with_refuses_unknown_fields_and_expressions() {
    let result = run(
        "cell A; cell e: A -> A; struct S(X: cell<0>) { cell map: X -> X; } use S(A) as s with { other = e; }",
    );
    assert!(has_message(&result, "invalid with: unknown provided field `other`"));
    let result = run(
        "cell A; cell e: A -> A; struct S(X: cell<0>) { cell map: X -> X; } use S(A) as s with { map = id(A); }",
    );
    assert!(has_message(&result, "invalid with: the binding for `map` must be a name"));
}

#[test]
fn structure_parameters_take_instances() {
    let result = run(
        "cell A; struct P(X: cell<0>) { cell loop: X -> X; } struct Q(I: P) { cell again: I.X -> I.X; } \
         use P(A) as p; use Q(p) as q; show q.again;",
    );
    assert!(result.is_ok(), "{:?}", messages(&result));
    let wrong = run(
        "cell A; struct P(X: cell<0>) { cell loop: X -> X; } struct R(X: cell<0>) { cell l: X -> X; } \
         struct Q(I: P) { cell again: I.X -> I.X; } use R(A) as r; use Q(r) as q;",
    );
    assert!(has_message(&wrong, "structure mismatch: argument `r` is not a `P`"));
    let missing = run("cell A; struct P(X: cell<0>) { cell l: X -> X; } struct Q(I: P) { cell a: I.X -> I.X; } use Q(A) as q;");
    assert!(has_message(&missing, "unknown structure argument `A`"));
}

#[test]
fn uses_check_declarations_and_arguments() {
    let result = run("cell A; use Missing(A) as m;");
    assert!(has_message(&result, "unknown schema `Missing`"));
    let result = run("cell A; struct P(X: cell<0>) { cell l: X -> X; } use P(A, A) as p;");
    assert!(has_message(&result, "schema `P` expects 1 arguments but received 2"));
    let result = run("cell A; struct P(X: cell<0>) { cell l: X -> X; } use P(B) as p;");
    assert!(has_message(&result, "unknown argument `B`"));
    let result = run("cell A; cell f: A -> A; struct P(X: cell<0>) { cell l: X -> X; } use P(f) as p;");
    assert!(has_message(&result, "dimension mismatch: argument `f` has dimension 1, expected 0"));
}

#[test]
fn declarations_are_named_once() {
    let result = run("cell A; struct P(X: cell<0>) { cell l: X -> X; } macro P(X: cell<0>) { cell m: X -> X; }");
    assert!(has_message(&result, "duplicate schema `P`"));
}

#[test]
fn declarations_inside_bodies_are_refused() {
    let result = run("folder F { struct P(X: cell<0>) { cell l: X -> X; } }");
    assert!(has_message(&result, "nested schema `P` is not supported in V1"));
}

#[test]
fn folders_record_the_path_of_their_cells() {
    let result = run(
        "cell A; cell B; cell f: A <-> B; folder Equivalences { construct cancel: f * inv(f) <-> id(A); \
         cell witness: id(A) -> f * inv(f); } show cancel;",
    );
    assert!(result.is_ok(), "{:?}", messages(&result));
    let proof = result.proof.unwrap();
    let witness = proof.signature.iter().find(|g| g.name == "witness").unwrap();
    assert_eq!(witness.folder, vec!["Equivalences".to_string()]);
    let a = proof.signature.iter().find(|g| g.name == "A").unwrap();
    assert!(a.folder.is_empty());
    assert_eq!(signature_names(&proof), vec!["A", "B", "f", "witness"]);
}

#[test]
fn actions_replay_makes_a_generator_between_boundaries() {
    let result = run(
        "actions [\"CreateGeneratorZero\", {\"SelectGenerator\":{\"id\":0,\"dimension\":0}}, \
         {\"SetBoundary\":\"Source\"}, \"CreateGeneratorZero\", {\"SelectGenerator\":{\"id\":1,\"dimension\":0}}, \
         {\"SetBoundary\":\"Target\"}]",
    );
    assert!(result.is_ok(), "{:?}", messages(&result));
    let proof = result.proof.unwrap();
    assert_eq!(signature_names(&proof), vec!["Cell 0", "Cell 1", "Cell 2"]);
    assert_eq!(proof.signature[2].diagram.dimension(), 1);
    assert!(proof.signature[2].diagram.check(true).is_ok());
}

#[test]
fn actions_refuse_unknown_payloads() {
    let result = run("actions [{\"DefinitelyNotAnAction\":true}]");
    assert!(has_message(&result, "invalid actions payload: unsupported action"));
    let result = run("actions [{\"SelectGenerator\":{\"id\":5,\"dimension\":0}}]");
    assert!(has_message(&result, "invalid actions payload: unknown generator"));
    let result = run("actions [{\"SetBoundary\":\"Source\"}]");
    assert!(has_message(&result, "invalid actions payload: no diagram is selected"));
    let result = run("actions [{\"SetBoundary\":\"Sideways\"}]");
    assert!(has_message(&result, "invalid actions payload: malformed SetBoundary"));
}

#[test]
fn compiled_diagrams_obey_the_laws() {
    let result = run("cell A; cell B; cell C; cell f: A <-> B; cell g: B <-> C;");
    let proof = result.proof.unwrap();
    let f = generator(&proof, "f");
    let g = generator(&proof, "g");
    let fg = f.compose(g).unwrap();
    assert!(f.inverse().inverse().same(f));
    assert!(fg.inverse().same(&g.inverse().compose(&f.inverse()).unwrap()));
    assert!(fg.inverse().source().same(fg.target()));
    let id_a = f.source().identity();
    assert!(id_a.compose(f).unwrap().same(f));
    let id_b = f.target().identity();
    assert!(f.compose(&id_b).unwrap().same(f));
    let g_inv = g.inverse();
    let left = fg.compose(&g_inv).unwrap();
    let right = f.compose(&g.compose(&g_inv).unwrap()).unwrap();
    assert!(left.same(&right));
    assert!(f.compose(f).is_none());
}

#[test]
fn a_repeated_unique_reports_the_taken_witness_names() {
    let result = run(
        "cell A; property Pointed(X: cell<0>) { cell loop: X -> X; } \
         use Pointed(A) as first; use Pointed(A) as second; \
         unique first, second as same; unique first, second as same;",
    );
    assert_eq!(
        messages(&result),
        vec!["duplicate symbol `same.X`".to_string(), "duplicate symbol `same.loop`".to_string()]
    );
    assert!(!result.is_ok());
}

#[test]
fn nested_folders_and_uses_compile_their_bodies() {
    let result = run(
        "cell A; macro Twice(X: cell<0>) { cell a: X -> X; cell b: X -> X; } \
         folder Outer { folder Inner { use Twice(A) as t; } cell c: A -> A; } show t.b;",
    );
    assert!(result.is_ok(), "{:?}", messages(&result));
    let proof = result.proof.unwrap();
    assert_eq!(signature_names(&proof), vec!["A", "t.a", "t.b", "c"]);
    let inner = proof.signature.iter().find(|g| g.name == "t.a").unwrap();
    assert_eq!(inner.folder, vec!["Outer".to_string(), "Inner".to_string()]);
    let outer = proof.signature.iter().find(|g| g.name == "c").unwrap();
    assert_eq!(outer.folder, vec!["Outer".to_string()]);
}

fn cell_parts(stmt: &homotopy_dsl::Stmt) -> (String, String, String, homotopy_dsl::ast::Invertibility) {
    match stmt {
        homotopy_dsl::Stmt::Cell(c) => {
            let name_of = |e: &Option<homotopy_dsl::Expr>| match e {
                Some(homotopy_dsl::Expr::Name { name, .. }) => name.clone(),
                _ => String::new(),
            };
            (c.name.clone(), name_of(&c.source), name_of(&c.target), c.invertibility)
        },
        _ => panic!("not a cell"),
    }
}

#[test]
fn arrows_need_no_surrounding_whitespace() {
    let tight = homotopy_dsl::parse("cell A; cell B; cell f: A->B; cell g: B<->A;").unwrap();
    let spaced = homotopy_dsl::parse("cell A; cell B; cell f: A -> B; cell g: B <-> A;").unwrap();
    assert_eq!(tight.statements.len(), 4);
    assert_eq!(spaced.statements.len(), 4);
    for i in 0..4 {
        assert_eq!(cell_parts(&tight.statements[i]), cell_parts(&spaced.statements[i]));
    }
    assert_eq!(
        cell_parts(&tight.statements[2]),
        ("f".to_string(), "A".to_string(), "B".to_string(), homotopy_dsl::ast::Invertibility::Directed)
    );
    assert!(run("cell A; cell B; cell f: A->B; show f;").is_ok());
}

#[test]
fn dashes_inside_names_are_kept() {
    let ast = homotopy_dsl::parse("cell my-cell; cell x: my-cell->my-cell;").unwrap();
    assert_eq!(
        cell_parts(&ast.statements[1]),
        ("x".to_string(), "my-cell".to_string(), "my-cell".to_string(), homotopy_dsl::ast::Invertibility::Directed)
    );
}

fn shown(source: &str) -> Diagram {
    let result = run(source);
    assert!(result.is_ok(), "{:?}", messages(&result));
    result.proof.unwrap().workspace.unwrap().diagram
}

#[test]
fn bracketing_does_not_change_a_composite() {
    let p = "cell A; cell B; cell C; cell D; cell f: A -> B; cell g: B -> C; cell h: C -> D; ";
    let left = shown(&format!("{p}show (f * g) * h;"));
    let right = shown(&format!("{p}show f * (g * h);"));
    let flat = shown(&format!("{p}show f * g * h;"));
    assert!(left.same(&flat));
    assert!(right.same(&flat));
    assert_eq!(flat.dimension(), 1);
    let a = shown(&format!("{p}show A;"));
    let d = shown(&format!("{p}show D;"));
    assert!(flat.source().same(&a));
    assert!(flat.target().same(&d));
}

#[test]
fn identities_are_units_and_mismatches_are_refused() {
    let p = "cell A; cell B; cell f: A -> B; ";
    let f = shown(&format!("{p}show f;"));
    assert!(shown(&format!("{p}show f * id(B);")).same(&f));
    assert!(shown(&format!("{p}show id(A) * f;")).same(&f));
    let twice = run(&format!("{p}show f * f;"));
    assert!(!twice.is_ok());
    assert!(has_message(&twice, "target of one term must match source of the next term"));
    let point = run(&format!("{p}show f * A;"));
    assert!(!point.is_ok());
    assert!(has_message(&point, "only positive-dimensional diagrams can be composed"));
}

#[test]
fn inverses_swap_boundaries_and_undo_themselves() {
    let p = "cell A; cell B; cell f: A <-> B; ";
    let f = shown(&format!("{p}show f;"));
    let inv = shown(&format!("{p}show inv(f);"));
    assert!(inv.source().same(f.target()));
    assert!(inv.target().same(f.source()));
    assert!(shown(&format!("{p}show inv(inv(f));")).same(&f));
}

#[test]
fn tokens_lie_in_order_and_end_with_one_eof() {
    let source = "cell A; cell f: A->A; show \"x\" 12 @ f;";
    let mut lexer = homotopy_dsl::lexer::Lexer::new(source);
    let tokens = lexer.lex();
    let last = tokens.last().unwrap();
    assert!(matches!(last.kind, homotopy_dsl::lexer::TokenKind::Eof));
    assert_eq!((last.span.start, last.span.end), (source.len(), source.len()));
    for w in tokens.windows(2) {
        assert!(!matches!(w[0].kind, homotopy_dsl::lexer::TokenKind::Eof));
        assert!(w[0].span.start < w[0].span.end);
        assert!(w[0].span.end <= w[1].span.start);
    }
    assert_eq!(lexer.diagnostics.len(), 1);
    let d = &lexer.diagnostics[0];
    assert!(d.span.start < d.span.end && d.span.end <= source.len());
}

#[test]
fn symbol_names_are_strictly_increasing() {
    let result = run("cell b; cell a; cell c: a -> b; cell B; cell _x: b -> a;");
    assert!(result.is_ok(), "{:?}", messages(&result));
    let names = symbol_names(&result);
    assert!(names.windows(2).all(|w| w[0] < w[1]), "{:?}", names);
    assert_eq!(names.len(), 5);
}

fn diagnostic_triples(result: &CompileResult) -> Vec<(String, usize, usize)> {
    result.diagnostics.iter().map(|d| (d.message.clone(), d.span.start, d.span.end)).collect()
}

#[test]
fn an_arity_error_declares_nothing_of_the_body() {
    let r = run("cell A; schema S(X: cell<0>) { cell f: X -> X; } use S(A, A) as s;");
    assert_eq!(diagnostic_triples(&r), vec![("schema `S` expects 1 arguments but received 2".to_string(), 49, 66)]);
    assert!(r.diagnostics.iter().all(|d| d.severity == homotopy_dsl::Severity::Error));
    assert_eq!(symbol_names(&r), vec!["A"]);
    assert!(r.proof.is_none());
}

#[test]
fn a_schema_used_twice_with_the_same_arguments_is_reused() {
    let r = run(
        "cell A; schema Pointed(X: cell<0>) { cell loop: X -> X; } \
         use Pointed(A) as first; use Pointed(A) as second; show second.loop;",
    );
    assert!(r.is_ok(), "{:?}", messages(&r));
    assert_eq!(signature_names(&r.proof.unwrap()), vec!["A", "first.loop"]);
}

#[test]
fn an_unknown_shown_name_leaves_nothing_shown() {
    let r = run("cell A;\nshow missing;");
    assert!(!r.is_ok());
    assert_eq!(diagnostic_triples(&r), vec![("unknown symbol `missing`".to_string(), 13, 20)]);
    assert!(r.selected.is_none());
}

#[test]
fn a_use_may_come_before_its_schema_and_schemas_are_unique() {
    let r1 = run("cell A; use S(A) as s; schema S(X: cell<0>) { cell f: X -> X; }");
    assert!(r1.is_ok(), "{:?}", messages(&r1));
    assert_eq!(symbol_names(&r1), vec!["A", "s.f"]);
    let r2 = run("schema S() {} schema S() {}");
    assert_eq!(diagnostic_triples(&r2), vec![("duplicate schema `S`".to_string(), 14, 27)]);
}

#[test]
fn a_proof_adds_no_axiom() {
    let r = run("cell A; cell B; cell f: A <-> B; prove cancel: f * inv(f) -> id(A); show cancel;");
    assert!(r.is_ok(), "{:?}", messages(&r));
    assert_eq!(r.selected.as_deref(), Some("cancel"));
    assert_eq!(r.symbols.iter().find(|s| s.name == "cancel").unwrap().dimension, 2);
    let p = r.proof.unwrap();
    assert_eq!(signature_names(&p), vec!["A", "B", "f"]);
    assert!(p.workspace.unwrap().diagram.check(true).is_ok());
}

#[test]
fn a_cell_keeps_the_title_and_the_shown_text() {
    let r = run("title \"T\"; cell A; show A; cell B;");
    assert!(r.is_ok(), "{:?}", messages(&r));
    assert_eq!(r.selected.as_deref(), Some("A"));
    assert_eq!(r.proof.unwrap().metadata.title.as_deref(), Some("T"));
}

#[test]
fn a_failed_parse_reports_a_diagnostic() {
    let r = homotopy_dsl::parse("cell ;");
    assert!(matches!(r, Err(ds) if !ds.is_empty()));
}
