//! A small language for homotopy.io proofs: a lexer and parser for the
//! source text, a compiler that turns cells, declarations and constructed
//! proofs into a signature of globular diagrams, and the built-in presets.
use vstd::prelude::*;

pub mod actions;
pub mod ast;
pub mod catalog;
pub mod community;
pub mod compiler;
pub mod declarations;
pub mod diagnostics;
pub mod diagram;
pub mod laws;
pub mod lexer;
pub mod library;
pub mod names;
pub mod parser;
pub mod presets;
pub mod program;
pub mod source_panel;
pub mod text;
pub mod workbench;

pub use diagram::collect_garbage;
pub use ast::{Ast, CellDecl, Expr, MetadataKey, Param, ProofDecl, SchemaDecl, Stmt, UseDecl};
pub use diagnostics::{Diagnostic, Severity, Span};
pub use parser::parse;
pub use program::{compile, CompileOptions, CompileResult, SymbolInfo};

verus! {
} // verus!
