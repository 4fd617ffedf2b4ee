use homotopy_dsl::ast::Invertibility;
use homotopy_dsl::presets;
use homotopy_dsl::{compile, parse, CompileOptions};

const ADJUNCTION: &str = r#"
title "Adjunction";
cell A;
cell B;

schema Adjunction(A: cell<0>, B: cell<0>) {
  cell F: A -> B;
  cell G: B -> A;
  cell unit: id(A) -> F * G;
  cell counit: G * F -> id(B);
}

use Adjunction(A, B) as adj;
show adj.unit;
"#;

#[test]
fn parses_comments_and_schema_use() {
    let ast = parse(
        r#"
        // A small category-like shape.
        cell A;
        cell B;
        schema Pair(A: cell<0>, B: cell<0>) { cell f: A -> B; }
        use Pair(A, B) as pair;
        show pair.f;
        "#,
    )
    .unwrap();
    assert_eq!(ast.statements.len(), 5);
}

#[test]
fn compiles_adjunction_schema() {
    let result = compile(ADJUNCTION, CompileOptions::default());
    assert!(result.is_ok(), "{:?}", result.diagnostics);
    let names: Vec<_> = result.symbols.iter().map(|s| s.name.as_str()).collect();
    assert!(names.contains(&"adj.F"));
    assert!(names.contains(&"adj.G"));
    assert!(names.contains(&"adj.unit"));
    assert!(names.contains(&"adj.counit"));
    assert_eq!(result.selected.as_deref(), Some("adj.unit"));
}

#[test]
fn show_accepts_composed_macro_expressions() {
    for show in [
        "show (first.left * second.left);",
        "show first.left * second.left;",
    ] {
        let source = [
            r#"title "Macro Composition";
cell A;
cell B;
cell C;

macro Span(A: cell<0>, B: cell<0>) {
  cell left: A -> B;
  cell right: B -> A;
  cell witness: id(A) -> left * right;
}

use Span(A, B) as first;
use Span(B, C) as second;
"#,
            show,
            "\n",
        ]
        .concat();

        let result = compile(&source, CompileOptions::default());
        assert!(result.is_ok(), "{:?}", result.diagnostics);
        assert_eq!(result.selected.as_deref(), Some("first.left * second.left"));

        let workspace = result
            .proof
            .and_then(|proof| proof.workspace)
            .expect("composed show expression should create a workspace");
        workspace
            .diagram
            .check(true)
            .expect("shown composed diagram should validate");
        assert_eq!(workspace.diagram.dimension(), 1);
    }
}

#[test]
fn compiles_invertible_cells_and_inverse_expressions() {
    let result = compile(
        "cell A; cell B; cell f: A <-> B; show inv(f);",
        CompileOptions::default(),
    );
    assert!(result.is_ok(), "{:?}", result.diagnostics);
    assert_eq!(result.selected.as_deref(), Some("inv(f)"));

    let proof = result.proof.expect("invertible program should compile");
    let f = proof
        .signature
        .iter()
        .find(|info| info.name == "f")
        .expect("f should be in the signature");
    assert_eq!(f.invertibility, Invertibility::Invertible);

    let workspace = proof
        .workspace
        .expect("inverse show should select a workspace");
    workspace
        .diagram
        .check(true)
        .expect("inverse diagram should validate");
    assert_eq!(workspace.diagram.dimension(), 1);
}

#[test]
fn invertible_composites_are_invertible() {
    let result = compile(
        "cell A; cell B; cell C; cell f: A <-> B; cell g: B <-> C; show inv(f * g);",
        CompileOptions::default(),
    );
    assert!(result.is_ok(), "{:?}", result.diagnostics);
    assert_eq!(result.selected.as_deref(), Some("inv(f * g)"));
}

#[test]
fn rejects_inverse_of_directed_diagrams() {
    let result = compile(
        "cell A; cell B; cell C; cell f: A <-> B; cell g: B -> C; show inv(f * g);",
        CompileOptions::default(),
    );
    assert!(!result.is_ok());
    assert!(result
        .diagnostics
        .iter()
        .any(|d| d.message.contains("only invertible diagrams")));
}

#[test]
fn proves_inverse_cancellation_without_adding_axiom() {
    let result = compile(
        "cell A; cell B; cell f: A <-> B; prove cancel: f * inv(f) -> id(A); show cancel;",
        CompileOptions::default(),
    );
    assert!(result.is_ok(), "{:?}", result.diagnostics);
    assert_eq!(result.selected.as_deref(), Some("cancel"));

    let proof = result.proof.expect("cancellation proof should compile");
    let signature_names: Vec<_> = proof
        .signature
        .iter()
        .map(|info| info.name.as_str())
        .collect();
    assert_eq!(signature_names, vec!["A", "B", "f"]);

    let cancel = result
        .symbols
        .iter()
        .find(|symbol| symbol.name == "cancel")
        .expect("constructed proof should still be a DSL symbol");
    assert_eq!(cancel.dimension, 2);

    let workspace = proof
        .workspace
        .expect("constructed proof should be selectable");
    workspace
        .diagram
        .check(true)
        .expect("constructed proof diagram should validate");
}

#[test]
fn rejects_unsupported_constructed_proofs() {
    let result = compile(
        "cell A; cell B; cell f: A -> B; prove impossible: f -> id(A); show impossible;",
        CompileOptions::default(),
    );
    assert!(!result.is_ok());
    assert!(result
        .diagnostics
        .iter()
        .any(|d| d.message.contains("could not construct proof")));
}

#[test]
fn rejects_duplicate_names() {
    let result = compile("cell A; cell A;", CompileOptions::default());
    assert!(!result.is_ok());
    assert!(result
        .diagnostics
        .iter()
        .any(|d| d.message.contains("duplicate symbol")));
}

#[test]
fn rejects_dimension_mismatch() {
    let result = compile(
        "cell A; cell B; cell f: A -> B; cell bad: A -> f;",
        Default::default(),
    );
    assert!(!result.is_ok());
    assert!(result
        .diagnostics
        .iter()
        .any(|d| d.message.contains("source dimension")));
}

#[test]
fn rejects_recursive_schema() {
    let result = compile(
        "cell A; schema Loop(A: cell<0>) { use Loop(A) as next; } use Loop(A) as loop;",
        Default::default(),
    );
    assert!(!result.is_ok());
    assert!(result
        .diagnostics
        .iter()
        .any(|d| d.message.contains("recursive schema")));
}

#[test]
fn compiles_every_builtin_preset() {
    for preset in presets::all() {
        let result = compile(preset.source, CompileOptions::default());
        assert!(
            result.is_ok(),
            "preset `{}` failed: {:?}",
            preset.id,
            result.diagnostics
        );
        let proof = result.proof.expect("compiled preset should have a proof");
        for generator in proof.signature.iter() {
            generator
                .diagram
                .check(true)
                .expect("preset signature diagram should validate");
        }
        if let Some(workspace) = proof.workspace {
            workspace
                .diagram
                .check(true)
                .expect("preset workspace diagram should validate");
        }
    }
}
