//! The abstract syntax of programs, and its mathematical view.
use vstd::prelude::*;

use crate::diagnostics::Span;

verus! {

/// Whether a cell or proof is directed (`->`) or invertible (`<->`).
#[derive(Debug, Clone, Copy, PartialEq, Eq, Structural)]
pub enum Invertibility {
    Directed,
    Invertible,
}

/// Which of two independent cells is placed first when their heights are
/// contracted into one; `Same` contracts only a cell against its inverse.
#[derive(Debug, Clone, Copy, PartialEq, Eq, Structural)]
pub enum Bias {
    Lower,
    Higher,
    Same,
}

/// The metadata fields a program can set.
#[derive(Debug, Clone, Copy, PartialEq, Eq, Structural)]
pub enum MetadataKey {
    Title,
    Author,
    Abstract,
}

/// The four declaration keywords: `schema` and `property` are applicative
/// (one canonical instance per argument list), `struct` and `macro` generative.
#[derive(Debug, Clone, Copy, PartialEq, Eq, Structural)]
pub enum DeclKind {
    Schema,
    Property,
    Struct,
    Macro,
}

pub open spec fn is_applicative(k: DeclKind) -> bool {
    k == DeclKind::Schema || k == DeclKind::Property
}

/// A diagram expression.
#[derive(Debug)]
pub enum Expr {
    Name { name: String, span: Span },
    Identity { expr: Box<Expr>, span: Span },
    Inverse { expr: Box<Expr>, span: Span },
    Contract { expr: Box<Expr>, bias: Bias, span: Span },
    Compose { terms: Vec<Expr>, span: Span },
}

/// The mathematical content of an expression.
pub enum SExpr {
    Name(Seq<char>, Span),
    Identity(Box<SExpr>, Span),
    Inverse(Box<SExpr>, Span),
    Contract(Box<SExpr>, Bias, Span),
    Compose(Seq<SExpr>, Span),
}

pub open spec fn sexpr_span(e: SExpr) -> Span {
    match e {
        SExpr::Name(_, s) => s,
        SExpr::Identity(_, s) => s,
        SExpr::Inverse(_, s) => s,
        SExpr::Contract(_, _, s) => s,
        SExpr::Compose(_, s) => s,
    }
}

pub open spec fn expr_view(e: Expr) -> SExpr
    decreases e, 1nat,
{
    match e {
        Expr::Name { name, span } => SExpr::Name(name@, span),
        Expr::Identity { expr, span } => SExpr::Identity(Box::new(expr_view(*expr)), span),
        Expr::Inverse { expr, span } => SExpr::Inverse(Box::new(expr_view(*expr)), span),
        Expr::Contract { expr, bias, span } => SExpr::Contract(Box::new(expr_view(*expr)), bias, span),
        Expr::Compose { terms, span } => {
            proof {
                broadcast use vstd::std_specs::vec::axiom_vec_decreases_to_view;
            }
            SExpr::Compose(exprs_view(terms@), span)
        },
    }
}

pub open spec fn exprs_view(s: Seq<Expr>) -> Seq<SExpr>
    decreases s, 0nat,
{
    if s.len() == 0 {
        Seq::empty()
    } else {
        seq![expr_view(s[0])] + exprs_view(s.drop_first())
    }
}

impl View for Expr {
    type V = SExpr;

    open spec fn view(&self) -> SExpr {
        expr_view(*self)
    }
}

pub proof fn lemma_exprs_view(s: Seq<Expr>)
    ensures
        exprs_view(s).len() == s.len(),
        forall|i: int| 0 <= i < s.len() ==> #[trigger] exprs_view(s)[i] == expr_view(s[i]),
    decreases s.len(),
{
    if s.len() > 0 {
        lemma_exprs_view(s.drop_first());
        assert forall|i: int| 0 <= i < s.len() implies #[trigger] exprs_view(s)[i] == expr_view(s[i]) by {
            if i > 0 {
                assert(exprs_view(s)[i] == exprs_view(s.drop_first())[i - 1]);
            }
        }
    }
}

pub proof fn lemma_exprs_view_push(s: Seq<Expr>, e: Expr)
    ensures
        exprs_view(s.push(e)) == exprs_view(s).push(expr_view(e)),
{
    lemma_exprs_view(s);
    lemma_exprs_view(s.push(e));
    assert(exprs_view(s.push(e)) =~= exprs_view(s).push(expr_view(e)));
}

/// A `with` binding `field = value;`.
#[derive(Debug)]
pub struct Binding {
    pub field: String,
    pub value: Expr,
    pub span: Span,
}

pub struct SBinding {
    pub field: Seq<char>,
    pub value: SExpr,
    pub span: Span,
}

impl View for Binding {
    type V = SBinding;

    open spec fn view(&self) -> SBinding {
        SBinding { field: self.field@, value: self.value@, span: self.span }
    }
}

/// One step of a proof body.
#[derive(Debug)]
pub enum ProofStep {
    Attach { expr: Expr, span: Span },
    Contract { bias: Bias, span: Span },
}

pub enum SProofStep {
    Attach(SExpr, Span),
    Contract(Bias, Span),
}

impl View for ProofStep {
    type V = SProofStep;

    open spec fn view(&self) -> SProofStep {
        match self {
            ProofStep::Attach { expr, span } => SProofStep::Attach(expr@, *span),
            ProofStep::Contract { bias, span } => SProofStep::Contract(*bias, *span),
        }
    }
}

/// A cell declaration: a 0-cell, or a cell with a source and a target.
#[derive(Debug)]
pub struct CellDecl {
    pub name: String,
    pub source: Option<Expr>,
    pub target: Option<Expr>,
    pub invertibility: Invertibility,
    pub span: Span,
}

pub struct SCellDecl {
    pub name: Seq<char>,
    pub source: Option<SExpr>,
    pub target: Option<SExpr>,
    pub invertibility: Invertibility,
    pub span: Span,
}

pub open spec fn opt_expr_view(o: Option<Expr>) -> Option<SExpr> {
    match o {
        Some(e) => Some(e@),
        None => None,
    }
}

impl View for CellDecl {
    type V = SCellDecl;

    open spec fn view(&self) -> SCellDecl {
        SCellDecl {
            name: self.name@,
            source: opt_expr_view(self.source),
            target: opt_expr_view(self.target),
            invertibility: self.invertibility,
            span: self.span,
        }
    }
}

/// A constructed proof: `prove` or `construct`, with an optional body.
#[derive(Debug)]
pub struct ProofDecl {
    pub name: String,
    pub source: Expr,
    pub target: Expr,
    pub invertibility: Invertibility,
    pub body: Option<Vec<ProofStep>>,
    pub span: Span,
}

pub struct SProofDecl {
    pub name: Seq<char>,
    pub source: SExpr,
    pub target: SExpr,
    pub invertibility: Invertibility,
    pub body: Option<Seq<SProofStep>>,
    pub span: Span,
}

pub open spec fn steps_view(v: Seq<ProofStep>) -> Seq<SProofStep> {
    Seq::new(v.len(), |i: int| v[i]@)
}

impl View for ProofDecl {
    type V = SProofDecl;

    open spec fn view(&self) -> SProofDecl {
        SProofDecl {
            name: self.name@,
            source: self.source@,
            target: self.target@,
            invertibility: self.invertibility,
            body: match self.body {
                Some(v) => Some(steps_view(v@)),
                None => None,
            },
            span: self.span,
        }
    }
}

/// A declaration parameter: `name: cell<n>` or `name: Declaration`.
#[derive(Debug)]
pub struct Param {
    pub name: String,
    pub dimension: usize,
    pub structure: Option<String>,
    pub span: Span,
}

pub struct SParam {
    pub name: Seq<char>,
    pub dimension: usize,
    pub structure: Option<Seq<char>>,
    pub span: Span,
}

impl View for Param {
    type V = SParam;

    open spec fn view(&self) -> SParam {
        SParam {
            name: self.name@,
            dimension: self.dimension,
            structure: match self.structure {
                Some(s) => Some(s@),
                None => None,
            },
            span: self.span,
        }
    }
}

pub open spec fn params_view(v: Seq<Param>) -> Seq<SParam> {
    Seq::new(v.len(), |i: int| v[i]@)
}

pub open spec fn strings_view(v: Seq<String>) -> Seq<Seq<char>> {
    Seq::new(v.len(), |i: int| v[i]@)
}

pub open spec fn bindings_view(v: Seq<Binding>) -> Seq<SBinding> {
    Seq::new(v.len(), |i: int| v[i]@)
}

/// A `use Declaration(args) as alias [with { ... }];` statement.
#[derive(Debug)]
pub struct UseDecl {
    pub schema: String,
    pub args: Vec<String>,
    pub alias: String,
    pub bindings: Vec<Binding>,
    pub span: Span,
}

pub struct SUseDecl {
    pub schema: Seq<char>,
    pub args: Seq<Seq<char>>,
    pub alias: Seq<char>,
    pub bindings: Seq<SBinding>,
    pub span: Span,
}

impl View for UseDecl {
    type V = SUseDecl;

    open spec fn view(&self) -> SUseDecl {
        SUseDecl {
            schema: self.schema@,
            args: strings_view(self.args@),
            alias: self.alias@,
            bindings: bindings_view(self.bindings@),
            span: self.span,
        }
    }
}

/// A value in an `actions [...]` payload (a JSON-like literal).
#[derive(Debug)]
pub enum ActionValue {
    Str(String),
    Number(usize),
    Word(String),
    Object(Vec<Member>),
    List(Vec<ActionValue>),
}

/// A `"key": value` member of an object.
#[derive(Debug)]
pub struct Member {
    pub key: String,
    pub value: ActionValue,
}

pub enum SValue {
    Str(Seq<char>),
    Number(usize),
    Word(Seq<char>),
    Object(Seq<(Seq<char>, SValue)>),
    List(Seq<SValue>),
}

pub open spec fn value_view(v: ActionValue) -> SValue
    decreases v, 1nat,
{
    match v {
        ActionValue::Str(s) => SValue::Str(s@),
        ActionValue::Number(n) => SValue::Number(n),
        ActionValue::Word(s) => SValue::Word(s@),
        ActionValue::Object(ms) => {
            proof {
                broadcast use vstd::std_specs::vec::axiom_vec_decreases_to_view;
            }
            SValue::Object(members_view(ms@))
        },
        ActionValue::List(vs) => {
            proof {
                broadcast use vstd::std_specs::vec::axiom_vec_decreases_to_view;
            }
            SValue::List(values_view(vs@))
        },
    }
}

pub open spec fn values_view(s: Seq<ActionValue>) -> Seq<SValue>
    decreases s, 0nat,
{
    if s.len() == 0 {
        Seq::empty()
    } else {
        seq![value_view(s[0])] + values_view(s.drop_first())
    }
}

pub open spec fn members_view(s: Seq<Member>) -> Seq<(Seq<char>, SValue)>
    decreases s, 0nat,
{
    if s.len() == 0 {
        Seq::empty()
    } else {
        seq![(s[0].key@, value_view(s[0].value))] + members_view(s.drop_first())
    }
}

impl View for ActionValue {
    type V = SValue;

    open spec fn view(&self) -> SValue {
        value_view(*self)
    }
}

pub proof fn lemma_values_view(s: Seq<ActionValue>)
    ensures
        values_view(s).len() == s.len(),
        forall|i: int| 0 <= i < s.len() ==> #[trigger] values_view(s)[i] == value_view(s[i]),
    decreases s.len(),
{
    if s.len() > 0 {
        lemma_values_view(s.drop_first());
        assert forall|i: int| 0 <= i < s.len() implies #[trigger] values_view(s)[i] == value_view(s[i]) by {
            if i > 0 {
                assert(values_view(s)[i] == values_view(s.drop_first())[i - 1]);
            }
        }
    }
}

pub proof fn lemma_values_view_push(s: Seq<ActionValue>, e: ActionValue)
    ensures
        values_view(s.push(e)) == values_view(s).push(value_view(e)),
{
    lemma_values_view(s);
    lemma_values_view(s.push(e));
    assert(values_view(s.push(e)) =~= values_view(s).push(value_view(e)));
}

pub proof fn lemma_members_view(s: Seq<Member>)
    ensures
        members_view(s).len() == s.len(),
        forall|i: int| 0 <= i < s.len() ==> #[trigger] members_view(s)[i] == (s[i].key@, value_view(s[i].value)),
    decreases s.len(),
{
    if s.len() > 0 {
        lemma_members_view(s.drop_first());
        assert forall|i: int| 0 <= i < s.len() implies #[trigger] members_view(s)[i] == (s[i].key@, value_view(s[i].value)) by {
            if i > 0 {
                assert(members_view(s)[i] == members_view(s.drop_first())[i - 1]);
            }
        }
    }
}

pub proof fn lemma_members_view_push(s: Seq<Member>, m: Member)
    ensures
        members_view(s.push(m)) == members_view(s).push((m.key@, value_view(m.value))),
{
    lemma_members_view(s);
    lemma_members_view(s.push(m));
    assert(members_view(s.push(m)) =~= members_view(s).push((m.key@, value_view(m.value))));
}

/// A declaration of a schema, property, struct or macro.
#[derive(Debug)]
pub struct SchemaDecl {
    pub name: String,
    pub kind: DeclKind,
    pub params: Vec<Param>,
    pub body: Vec<Stmt>,
    pub span: Span,
}

/// A statement.
#[derive(Debug)]
pub enum Stmt {
    Metadata { key: MetadataKey, value: String, span: Span },
    Cell(CellDecl),
    Proof(ProofDecl),
    Schema(SchemaDecl),
    Use(UseDecl),
    Unique { first: String, second: String, alias: String, span: Span },
    Folder { name: String, body: Vec<Stmt>, span: Span },
    Actions { actions: Vec<ActionValue>, span: Span },
    Show { expr: Expr, span: Span },
}

pub struct SSchemaDecl {
    pub name: Seq<char>,
    pub kind: DeclKind,
    pub params: Seq<SParam>,
    pub body: Seq<SStmt>,
    pub span: Span,
}

pub enum SStmt {
    Metadata(MetadataKey, Seq<char>, Span),
    Cell(SCellDecl),
    Proof(SProofDecl),
    Schema(SSchemaDecl),
    Use(SUseDecl),
    Unique(Seq<char>, Seq<char>, Seq<char>, Span),
    Folder(Seq<char>, Seq<SStmt>, Span),
    Actions(Seq<SValue>, Span),
    Show(SExpr, Span),
}

pub open spec fn stmt_view(s: Stmt) -> SStmt
    decreases s, 1nat,
{
    proof {
        broadcast use vstd::std_specs::vec::axiom_vec_decreases_to_view;
    }
    match s {
        Stmt::Metadata { key, value, span } => SStmt::Metadata(key, value@, span),
        Stmt::Cell(d) => SStmt::Cell(d@),
        Stmt::Proof(d) => SStmt::Proof(d@),
        Stmt::Schema(d) => SStmt::Schema(
            SSchemaDecl {
                name: d.name@,
                kind: d.kind,
                params: params_view(d.params@),
                body: stmts_view(d.body@),
                span: d.span,
            },
        ),
        Stmt::Use(d) => SStmt::Use(d@),
        Stmt::Unique { first, second, alias, span } => SStmt::Unique(first@, second@, alias@, span),
        Stmt::Folder { name, body, span } => SStmt::Folder(name@, stmts_view(body@), span),
        Stmt::Actions { actions, span } => SStmt::Actions(values_view(actions@), span),
        Stmt::Show { expr, span } => SStmt::Show(expr@, span),
    }
}

pub open spec fn stmts_view(s: Seq<Stmt>) -> Seq<SStmt>
    decreases s, 0nat,
{
    if s.len() == 0 {
        Seq::empty()
    } else {
        seq![stmt_view(s[0])] + stmts_view(s.drop_first())
    }
}

impl View for Stmt {
    type V = SStmt;

    open spec fn view(&self) -> SStmt {
        stmt_view(*self)
    }
}

pub proof fn lemma_stmts_view(s: Seq<Stmt>)
    ensures
        stmts_view(s).len() == s.len(),
        forall|i: int| 0 <= i < s.len() ==> #[trigger] stmts_view(s)[i] == stmt_view(s[i]),
    decreases s.len(),
{
    if s.len() > 0 {
        lemma_stmts_view(s.drop_first());
        assert forall|i: int| 0 <= i < s.len() implies #[trigger] stmts_view(s)[i] == stmt_view(s[i]) by {
            if i > 0 {
                assert(stmts_view(s)[i] == stmts_view(s.drop_first())[i - 1]);
            }
        }
    }
}

pub proof fn lemma_stmts_view_push(s: Seq<Stmt>, e: Stmt)
    ensures
        stmts_view(s.push(e)) == stmts_view(s).push(stmt_view(e)),
{
    lemma_stmts_view(s);
    lemma_stmts_view(s.push(e));
    assert(stmts_view(s.push(e)) =~= stmts_view(s).push(stmt_view(e)));
}

/// A parsed program: its statements in order.
#[derive(Debug)]
pub struct Ast {
    pub statements: Vec<Stmt>,
}

impl View for Ast {
    type V = Seq<SStmt>;

    open spec fn view(&self) -> Seq<SStmt> {
        stmts_view(self.statements@)
    }
}

} // verus!
