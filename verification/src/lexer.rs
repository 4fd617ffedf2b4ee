//! The lexer: turns source bytes into tokens and lexical diagnostics.
//!
//! The lexical grammar is stated once as the spec function `lex_from`, a
//! small state machine over byte positions; `lex` is proved to produce
//! exactly its tokens and diagnostics.
use vstd::prelude::*;
use vstd::string::StringExecFns;
use vstd::string::StringSliceAdditionalSpecFns;

use crate::diagnostics::{diags_view, error_diag, lemma_diags_view_push, Diagnostic, SDiagnostic, Severity, Span};
use crate::text::{bytes_order, push_char};

verus! {

/// The reserved words of the language.
#[derive(Debug, Clone, Copy, PartialEq, Eq, Structural)]
pub enum Keyword {
    Cell,
    Prove,
    Construct,
    Schema,
    Property,
    Struct,
    Macro,
    Use,
    As,
    With,
    Unique,
    Show,
    Folder,
    Actions,
    Attach,
    Contract,
    Id,
    Inv,
    Title,
    Author,
    Abstract,
}

/// The spelling of a keyword, as ASCII bytes.
pub open spec fn keyword_spelling(k: Keyword) -> Seq<u8> {
    match k {
        Keyword::Cell => seq!['c' as u8, 'e' as u8, 'l' as u8, 'l' as u8],
        Keyword::Prove => seq!['p' as u8, 'r' as u8, 'o' as u8, 'v' as u8, 'e' as u8],
        Keyword::Construct => seq![
            'c' as u8, 'o' as u8, 'n' as u8, 's' as u8, 't' as u8, 'r' as u8, 'u' as u8, 'c' as u8, 't' as u8,
        ],
        Keyword::Schema => seq!['s' as u8, 'c' as u8, 'h' as u8, 'e' as u8, 'm' as u8, 'a' as u8],
        Keyword::Property => seq![
            'p' as u8, 'r' as u8, 'o' as u8, 'p' as u8, 'e' as u8, 'r' as u8, 't' as u8, 'y' as u8,
        ],
        Keyword::Struct => seq!['s' as u8, 't' as u8, 'r' as u8, 'u' as u8, 'c' as u8, 't' as u8],
        Keyword::Macro => seq!['m' as u8, 'a' as u8, 'c' as u8, 'r' as u8, 'o' as u8],
        Keyword::Use => seq!['u' as u8, 's' as u8, 'e' as u8],
        Keyword::As => seq!['a' as u8, 's' as u8],
        Keyword::With => seq!['w' as u8, 'i' as u8, 't' as u8, 'h' as u8],
        Keyword::Unique => seq!['u' as u8, 'n' as u8, 'i' as u8, 'q' as u8, 'u' as u8, 'e' as u8],
        Keyword::Show => seq!['s' as u8, 'h' as u8, 'o' as u8, 'w' as u8],
        Keyword::Folder => seq!['f' as u8, 'o' as u8, 'l' as u8, 'd' as u8, 'e' as u8, 'r' as u8],
        Keyword::Actions => seq![
            'a' as u8, 'c' as u8, 't' as u8, 'i' as u8, 'o' as u8, 'n' as u8, 's' as u8,
        ],
        Keyword::Attach => seq!['a' as u8, 't' as u8, 't' as u8, 'a' as u8, 'c' as u8, 'h' as u8],
        Keyword::Contract => seq![
            'c' as u8, 'o' as u8, 'n' as u8, 't' as u8, 'r' as u8, 'a' as u8, 'c' as u8, 't' as u8,
        ],
        Keyword::Id => seq!['i' as u8, 'd' as u8],
        Keyword::Inv => seq!['i' as u8, 'n' as u8, 'v' as u8],
        Keyword::Title => seq!['t' as u8, 'i' as u8, 't' as u8, 'l' as u8, 'e' as u8],
        Keyword::Author => seq!['a' as u8, 'u' as u8, 't' as u8, 'h' as u8, 'o' as u8, 'r' as u8],
        Keyword::Abstract => seq![
            'a' as u8, 'b' as u8, 's' as u8, 't' as u8, 'r' as u8, 'a' as u8, 'c' as u8, 't' as u8,
        ],
    }
}

/// The keyword spelled by `text`, if any.
pub open spec fn keyword_of(text: Seq<u8>) -> Option<Keyword> {
    if text == keyword_spelling(Keyword::Cell) {
        Some(Keyword::Cell)
    } else if text == keyword_spelling(Keyword::Prove) {
        Some(Keyword::Prove)
    } else if text == keyword_spelling(Keyword::Construct) {
        Some(Keyword::Construct)
    } else if text == keyword_spelling(Keyword::Schema) {
        Some(Keyword::Schema)
    } else if text == keyword_spelling(Keyword::Property) {
        Some(Keyword::Property)
    } else if text == keyword_spelling(Keyword::Struct) {
        Some(Keyword::Struct)
    } else if text == keyword_spelling(Keyword::Macro) {
        Some(Keyword::Macro)
    } else if text == keyword_spelling(Keyword::Use) {
        Some(Keyword::Use)
    } else if text == keyword_spelling(Keyword::As) {
        Some(Keyword::As)
    } else if text == keyword_spelling(Keyword::With) {
        Some(Keyword::With)
    } else if text == keyword_spelling(Keyword::Unique) {
        Some(Keyword::Unique)
    } else if text == keyword_spelling(Keyword::Show) {
        Some(Keyword::Show)
    } else if text == keyword_spelling(Keyword::Folder) {
        Some(Keyword::Folder)
    } else if text == keyword_spelling(Keyword::Actions) {
        Some(Keyword::Actions)
    } else if text == keyword_spelling(Keyword::Attach) {
        Some(Keyword::Attach)
    } else if text == keyword_spelling(Keyword::Contract) {
        Some(Keyword::Contract)
    } else if text == keyword_spelling(Keyword::Id) {
        Some(Keyword::Id)
    } else if text == keyword_spelling(Keyword::Inv) {
        Some(Keyword::Inv)
    } else if text == keyword_spelling(Keyword::Title) {
        Some(Keyword::Title)
    } else if text == keyword_spelling(Keyword::Author) {
        Some(Keyword::Author)
    } else if text == keyword_spelling(Keyword::Abstract) {
        Some(Keyword::Abstract)
    } else {
        None
    }
}

/// The spelling of a keyword.
pub fn keyword_bytes(k: Keyword) -> (r: Vec<u8>)
    ensures
        r@ == keyword_spelling(k),
{
    let v = match k {
        Keyword::Cell => vec!['c' as u8, 'e' as u8, 'l' as u8, 'l' as u8],
        Keyword::Prove => vec!['p' as u8, 'r' as u8, 'o' as u8, 'v' as u8, 'e' as u8],
        Keyword::Construct => vec![
            'c' as u8, 'o' as u8, 'n' as u8, 's' as u8, 't' as u8, 'r' as u8, 'u' as u8, 'c' as u8, 't' as u8,
        ],
        Keyword::Schema => vec!['s' as u8, 'c' as u8, 'h' as u8, 'e' as u8, 'm' as u8, 'a' as u8],
        Keyword::Property => vec![
            'p' as u8, 'r' as u8, 'o' as u8, 'p' as u8, 'e' as u8, 'r' as u8, 't' as u8, 'y' as u8,
        ],
        Keyword::Struct => vec!['s' as u8, 't' as u8, 'r' as u8, 'u' as u8, 'c' as u8, 't' as u8],
        Keyword::Macro => vec!['m' as u8, 'a' as u8, 'c' as u8, 'r' as u8, 'o' as u8],
        Keyword::Use => vec!['u' as u8, 's' as u8, 'e' as u8],
        Keyword::As => vec!['a' as u8, 's' as u8],
        Keyword::With => vec!['w' as u8, 'i' as u8, 't' as u8, 'h' as u8],
        Keyword::Unique => vec!['u' as u8, 'n' as u8, 'i' as u8, 'q' as u8, 'u' as u8, 'e' as u8],
        Keyword::Show => vec!['s' as u8, 'h' as u8, 'o' as u8, 'w' as u8],
        Keyword::Folder => vec!['f' as u8, 'o' as u8, 'l' as u8, 'd' as u8, 'e' as u8, 'r' as u8],
        Keyword::Actions => vec![
            'a' as u8, 'c' as u8, 't' as u8, 'i' as u8, 'o' as u8, 'n' as u8, 's' as u8,
        ],
        Keyword::Attach => vec!['a' as u8, 't' as u8, 't' as u8, 'a' as u8, 'c' as u8, 'h' as u8],
        Keyword::Contract => vec![
            'c' as u8, 'o' as u8, 'n' as u8, 't' as u8, 'r' as u8, 'a' as u8, 'c' as u8, 't' as u8,
        ],
        Keyword::Id => vec!['i' as u8, 'd' as u8],
        Keyword::Inv => vec!['i' as u8, 'n' as u8, 'v' as u8],
        Keyword::Title => vec!['t' as u8, 'i' as u8, 't' as u8, 'l' as u8, 'e' as u8],
        Keyword::Author => vec!['a' as u8, 'u' as u8, 't' as u8, 'h' as u8, 'o' as u8, 'r' as u8],
        Keyword::Abstract => vec![
            'a' as u8, 'b' as u8, 's' as u8, 't' as u8, 'r' as u8, 'a' as u8, 'c' as u8, 't' as u8,
        ],
    };
    assert(v@ =~= keyword_spelling(k));
    v
}

fn spells(text: &[u8], k: Keyword) -> (r: bool)
    ensures
        r == (text@ == keyword_spelling(k)),
{
    let w = keyword_bytes(k);
    bytes_order(text, w.as_slice()) == 0
}

/// The keyword spelled by `text`, if any.
pub fn lookup_keyword(text: &[u8]) -> (r: Option<Keyword>)
    ensures
        r == keyword_of(text@),
{
    if spells(text, Keyword::Cell) {
        Some(Keyword::Cell)
    } else if spells(text, Keyword::Prove) {
        Some(Keyword::Prove)
    } else if spells(text, Keyword::Construct) {
        Some(Keyword::Construct)
    } else if spells(text, Keyword::Schema) {
        Some(Keyword::Schema)
    } else if spells(text, Keyword::Property) {
        Some(Keyword::Property)
    } else if spells(text, Keyword::Struct) {
        Some(Keyword::Struct)
    } else if spells(text, Keyword::Macro) {
        Some(Keyword::Macro)
    } else if spells(text, Keyword::Use) {
        Some(Keyword::Use)
    } else if spells(text, Keyword::As) {
        Some(Keyword::As)
    } else if spells(text, Keyword::With) {
        Some(Keyword::With)
    } else if spells(text, Keyword::Unique) {
        Some(Keyword::Unique)
    } else if spells(text, Keyword::Show) {
        Some(Keyword::Show)
    } else if spells(text, Keyword::Folder) {
        Some(Keyword::Folder)
    } else if spells(text, Keyword::Actions) {
        Some(Keyword::Actions)
    } else if spells(text, Keyword::Attach) {
        Some(Keyword::Attach)
    } else if spells(text, Keyword::Contract) {
        Some(Keyword::Contract)
    } else if spells(text, Keyword::Id) {
        Some(Keyword::Id)
    } else if spells(text, Keyword::Inv) {
        Some(Keyword::Inv)
    } else if spells(text, Keyword::Title) {
        Some(Keyword::Title)
    } else if spells(text, Keyword::Author) {
        Some(Keyword::Author)
    } else if spells(text, Keyword::Abstract) {
        Some(Keyword::Abstract)
    } else {
        None
    }
}

/// What a token is.
#[derive(Debug)]
pub enum TokenKind {
    Ident(Vec<u8>),
    Str(Vec<u8>),
    Number(usize),
    Keyword(Keyword),
    Colon,
    Semicolon,
    Comma,
    Dot,
    LParen,
    RParen,
    LBrace,
    RBrace,
    LBracket,
    RBracket,
    Lt,
    Gt,
    Star,
    Equals,
    Arrow,
    DoubleArrow,
    Eof,
}

/// A token with its span.
#[derive(Debug)]
pub struct Token {
    pub kind: TokenKind,
    pub span: Span,
}

/// The mathematical content of a token kind.
pub enum Tk {
    Ident(Seq<u8>),
    Str(Seq<u8>),
    Number(usize),
    Keyword(Keyword),
    Colon,
    Semicolon,
    Comma,
    Dot,
    LParen,
    RParen,
    LBrace,
    RBrace,
    LBracket,
    RBracket,
    Lt,
    Gt,
    Star,
    Equals,
    Arrow,
    DoubleArrow,
    Eof,
}

pub struct Tok {
    pub kind: Tk,
    pub span: Span,
}

impl View for TokenKind {
    type V = Tk;

    open spec fn view(&self) -> Tk {
        match self {
            TokenKind::Ident(v) => Tk::Ident(v@),
            TokenKind::Str(v) => Tk::Str(v@),
            TokenKind::Number(n) => Tk::Number(*n),
            TokenKind::Keyword(k) => Tk::Keyword(*k),
            TokenKind::Colon => Tk::Colon,
            TokenKind::Semicolon => Tk::Semicolon,
            TokenKind::Comma => Tk::Comma,
            TokenKind::Dot => Tk::Dot,
            TokenKind::LParen => Tk::LParen,
            TokenKind::RParen => Tk::RParen,
            TokenKind::LBrace => Tk::LBrace,
            TokenKind::RBrace => Tk::RBrace,
            TokenKind::LBracket => Tk::LBracket,
            TokenKind::RBracket => Tk::RBracket,
            TokenKind::Lt => Tk::Lt,
            TokenKind::Gt => Tk::Gt,
            TokenKind::Star => Tk::Star,
            TokenKind::Equals => Tk::Equals,
            TokenKind::Arrow => Tk::Arrow,
            TokenKind::DoubleArrow => Tk::DoubleArrow,
            TokenKind::Eof => Tk::Eof,
        }
    }
}

impl View for Token {
    type V = Tok;

    open spec fn view(&self) -> Tok {
        Tok { kind: self.kind@, span: self.span }
    }
}

pub open spec fn toks_view(v: Seq<Token>) -> Seq<Tok> {
    Seq::new(v.len(), |i: int| v[i]@)
}

pub proof fn lemma_toks_view_push(v: Seq<Token>, t: Token)
    ensures
        toks_view(v.push(t)) == toks_view(v).push(t@),
{
    assert(toks_view(v.push(t)) =~= toks_view(v).push(t@));
}

// ---------------------------------------------------------------------------
// Character classes.

/// ASCII whitespace: space, tab, line feed, form feed, carriage return.
pub open spec fn is_ws(b: u8) -> bool {
    b == 32 || b == 9 || b == 10 || b == 12 || b == 13
}

pub open spec fn is_digit(b: u8) -> bool {
    48 <= b <= 57
}

pub open spec fn is_alpha(b: u8) -> bool {
    (65 <= b <= 90) || (97 <= b <= 122)
}

/// A byte that may begin a name: an ASCII letter or `_`.
pub open spec fn spec_is_ident_start(b: u8) -> bool {
    is_alpha(b) || b == 95
}

/// A byte that may continue a name: an ASCII letter or digit, `_` or `-`.
pub open spec fn spec_is_ident_continue(b: u8) -> bool {
    is_alpha(b) || is_digit(b) || b == 95 || b == 45
}

/// Whether the byte at `i` continues a name: a name byte, except a `-` that
/// begins an arrow `->`, so that `A->B` reads as `A -> B`.
pub open spec fn continues_name(b: Seq<u8>, i: int) -> bool {
    spec_is_ident_continue(b[i]) && !(b[i] == 45 && i + 1 < b.len() && b[i + 1] == 62)
}

pub fn is_ident_start(b: u8) -> (r: bool)
    ensures
        r == spec_is_ident_start(b),
{
    (65 <= b && b <= 90) || (97 <= b && b <= 122) || b == 95
}

pub fn is_ident_continue(b: u8) -> (r: bool)
    ensures
        r == spec_is_ident_continue(b),
{
    (65 <= b && b <= 90) || (97 <= b && b <= 122) || (48 <= b && b <= 57) || b == 95 || b == 45
}

// ---------------------------------------------------------------------------
// The lexical grammar.

/// The position reached by skipping whitespace and comments from `p`; `in_comment`
/// says that `p` lies inside a `//` or `#` comment, which runs to the end of its line.
pub open spec fn skip(b: Seq<u8>, p: nat, in_comment: bool) -> nat
    decreases b.len() - p,
{
    if p >= b.len() {
        p
    } else if in_comment {
        skip(b, p + 1, b[p as int] != 10)
    } else if is_ws(b[p as int]) {
        skip(b, p + 1, false)
    } else if b[p as int] == 47 && p + 1 < b.len() && b[p + 1int] == 47 {
        skip(b, p + 2, true)
    } else if b[p as int] == 35 {
        skip(b, p + 1, true)
    } else {
        p
    }
}

/// The end of the run of bytes that continue a name (see `continues_name`)
/// starting at `p`.
pub open spec fn ident_end(b: Seq<u8>, p: nat) -> nat
    decreases b.len() - p,
{
    if p < b.len() && continues_name(b, p as int) {
        ident_end(b, p + 1)
    } else {
        p
    }
}

/// The end of the run of digits starting at `p`.
pub open spec fn digits_end(b: Seq<u8>, p: nat) -> nat
    decreases b.len() - p,
{
    if p < b.len() && is_digit(b[p as int]) {
        digits_end(b, p + 1)
    } else {
        p
    }
}

/// The value of a string of decimal digits.
pub open spec fn digits_value(s: Seq<u8>) -> nat
    decreases s.len(),
{
    if s.len() == 0 {
        0
    } else {
        digits_value(s.drop_last()) * 10 + (s.last() - 48) as nat
    }
}

/// The body of a string literal from `q` (just after the opening quote): the
/// value read, the position after the closing quote (or the end of input),
/// and whether a closing quote was found. `\"` stands for a quote.
pub open spec fn str_scan(b: Seq<u8>, q: nat) -> (Seq<u8>, nat, bool)
    decreases b.len() - q,
{
    if q >= b.len() {
        (seq![], q, false)
    } else if b[q as int] == 34 {
        (seq![], q + 1, true)
    } else if b[q as int] == 92 && q + 1 < b.len() && b[q + 1int] == 34 {
        let r = str_scan(b, q + 2);
        (seq![34u8] + r.0, r.1, r.2)
    } else {
        let r = str_scan(b, q + 1);
        (seq![b[q as int]] + r.0, r.1, r.2)
    }
}

pub open spec fn msg_unexpected(c: u8) -> Seq<char> {
    "unexpected character `"@ + seq![c as char] + "`"@
}

pub open spec fn msg_unterminated() -> Seq<char> {
    "unterminated string literal"@
}

pub open spec fn tok(kind: Tk, start: nat, end: nat) -> Tok {
    Tok { kind, span: Span { start: start as usize, end: end as usize } }
}

/// One lexical step at position `p` (which holds a byte that starts no comment
/// or whitespace): the token produced, if any, the diagnostic reported, if any,
/// and the position after the step.
pub open spec fn step(b: Seq<u8>, p: nat) -> (Option<Tok>, Option<SDiagnostic>, nat)
    recommends
        p < b.len(),
{
    let c = b[p as int];
    if c == 58 {
        one(Tk::Colon, p)
    } else if c == 59 {
        one(Tk::Semicolon, p)
    } else if c == 44 {
        one(Tk::Comma, p)
    } else if c == 46 {
        one(Tk::Dot, p)
    } else if c == 40 {
        one(Tk::LParen, p)
    } else if c == 41 {
        one(Tk::RParen, p)
    } else if c == 123 {
        one(Tk::LBrace, p)
    } else if c == 125 {
        one(Tk::RBrace, p)
    } else if c == 91 {
        one(Tk::LBracket, p)
    } else if c == 93 {
        one(Tk::RBracket, p)
    } else if c == 60 && p + 2 < b.len() && b[p + 1int] == 45 && b[p + 2int] == 62 {
        (Some(tok(Tk::DoubleArrow, p, p + 3)), None, p + 3)
    } else if c == 60 {
        one(Tk::Lt, p)
    } else if c == 62 {
        one(Tk::Gt, p)
    } else if c == 42 {
        one(Tk::Star, p)
    } else if c == 61 {
        one(Tk::Equals, p)
    } else if c == 45 && p + 1 < b.len() && b[p + 1int] == 62 {
        (Some(tok(Tk::Arrow, p, p + 2)), None, p + 2)
    } else if c == 34 {
        let r = str_scan(b, p + 1);
        (
            Some(tok(Tk::Str(r.0), p, r.1)),
            if r.2 {
                None
            } else {
                Some(error_diag(msg_unterminated(), Span { start: p as usize, end: r.1 as usize }))
            },
            r.1,
        )
    } else if is_digit(c) {
        let e = digits_end(b, p);
        let v = digits_value(b.subrange(p as int, e as int));
        (Some(tok(Tk::Number(if v <= usize::MAX { v as usize } else { 0 }), p, e)), None, e)
    } else if spec_is_ident_start(c) {
        let e = ident_end(b, p + 1);
        let text = b.subrange(p as int, e as int);
        (
            Some(
                tok(
                    match keyword_of(text) {
                        Some(k) => Tk::Keyword(k),
                        None => Tk::Ident(text),
                    },
                    p,
                    e,
                ),
            ),
            None,
            e,
        )
    } else {
        (None, Some(error_diag(msg_unexpected(c), Span { start: p as usize, end: (p + 1) as usize })), p + 1)
    }
}

/// A one-byte token at `p`.
pub open spec fn one(k: Tk, p: nat) -> (Option<Tok>, Option<SDiagnostic>, nat) {
    (Some(tok(k, p, p + 1)), None, p + 1)
}

pub open spec fn opt_seq<A>(o: Option<A>) -> Seq<A> {
    match o {
        Some(a) => seq![a],
        None => seq![],
    }
}

/// The tokens and diagnostics of the input from position `p` on. The token
/// list always ends with `Eof`.
pub open spec fn lex_from(b: Seq<u8>, p: nat) -> (Seq<Tok>, Seq<SDiagnostic>)
    decreases b.len() - p,
{
    let q = skip(b, p, false);
    if q >= b.len() || q < p {
        (seq![tok(Tk::Eof, q, q)], seq![])
    } else {
        let s = step(b, q);
        if s.2 <= p || s.2 > b.len() {
            (seq![], seq![])
        } else {
            let r = lex_from(b, s.2);
            (opt_seq(s.0) + r.0, opt_seq(s.1) + r.1)
        }
    }
}

/// The tokens of a whole text.
pub open spec fn spec_tokens(b: Seq<u8>) -> Seq<Tok> {
    lex_from(b, 0).0
}

/// The lexical diagnostics of a whole text.
pub open spec fn spec_lex_diagnostics(b: Seq<u8>) -> Seq<SDiagnostic> {
    lex_from(b, 0).1
}

// ---------------------------------------------------------------------------
// Facts about the grammar.

pub proof fn lemma_skip_bounds(b: Seq<u8>, p: nat, c: bool)
    ensures
        skip(b, p, c) >= p,
        p <= b.len() ==> skip(b, p, c) <= b.len(),
        skip(b, p, c) < b.len() ==> {
            let q = skip(b, p, c);
            &&& !is_ws(b[q as int])
            &&& b[q as int] != 35
            &&& !(b[q as int] == 47 && q + 1 < b.len() && b[q + 1int] == 47)
        },
    decreases b.len() - p,
{
    if p < b.len() {
        if c {
            lemma_skip_bounds(b, p + 1, b[p as int] != 10);
        } else if is_ws(b[p as int]) {
            lemma_skip_bounds(b, p + 1, false);
        } else if b[p as int] == 47 && p + 1 < b.len() && b[p + 1int] == 47 {
            lemma_skip_bounds(b, p + 2, true);
        } else if b[p as int] == 35 {
            lemma_skip_bounds(b, p + 1, true);
        }
    }
}

pub proof fn lemma_skip_idempotent(b: Seq<u8>, p: nat)
    ensures
        skip(b, skip(b, p, false), false) == skip(b, p, false),
{
    lemma_skip_bounds(b, p, false);
}

pub proof fn lemma_ident_end_bounds(b: Seq<u8>, p: nat)
    ensures
        ident_end(b, p) >= p,
        p <= b.len() ==> ident_end(b, p) <= b.len(),
        forall|i: int| p <= i < ident_end(b, p) ==> #[trigger] continues_name(b, i),
        ident_end(b, p) < b.len() ==> !continues_name(b, ident_end(b, p) as int),
    decreases b.len() - p,
{
    if p < b.len() && continues_name(b, p as int) {
        lemma_ident_end_bounds(b, p + 1);
    }
}

pub proof fn lemma_digits_end_bounds(b: Seq<u8>, p: nat)
    ensures
        digits_end(b, p) >= p,
        p <= b.len() ==> digits_end(b, p) <= b.len(),
        forall|i: int| p <= i < digits_end(b, p) ==> is_digit(#[trigger] b[i]),
        digits_end(b, p) < b.len() ==> !is_digit(b[digits_end(b, p) as int]),
    decreases b.len() - p,
{
    if p < b.len() && is_digit(b[p as int]) {
        lemma_digits_end_bounds(b, p + 1);
    }
}

pub proof fn lemma_str_scan_bounds(b: Seq<u8>, q: nat)
    ensures
        str_scan(b, q).1 >= q,
        q <= b.len() ==> str_scan(b, q).1 <= b.len(),
        !str_scan(b, q).2 ==> str_scan(b, q).1 == (if q <= b.len() { b.len() } else { q }),
    decreases b.len() - q,
{
    if q < b.len() {
        if b[q as int] == 34 {
        } else if b[q as int] == 92 && q + 1 < b.len() && b[q + 1int] == 34 {
            lemma_str_scan_bounds(b, q + 2);
        } else {
            lemma_str_scan_bounds(b, q + 1);
        }
    }
}

pub proof fn lemma_step_progress(b: Seq<u8>, p: nat)
    requires
        p < b.len(),
    ensures
        p < step(b, p).2 <= b.len(),
{
    lemma_str_scan_bounds(b, p + 1);
    lemma_ident_end_bounds(b, p + 1);
    lemma_digits_end_bounds(b, p);
}

/// Unfolding `lex_from` at a position where no whitespace is left to skip.
pub proof fn lemma_lex_from_unfold(b: Seq<u8>, p: nat)
    requires
        p <= b.len(),
    ensures
        lex_from(b, p) == lex_from(b, skip(b, p, false)),
        skip(b, p, false) < b.len() ==> {
            let q = skip(b, p, false);
            let s = step(b, q);
            lex_from(b, p) == (opt_seq(s.0) + lex_from(b, s.2).0, opt_seq(s.1) + lex_from(b, s.2).1)
        },
        skip(b, p, false) >= b.len() ==> lex_from(b, p) == (
            seq![tok(Tk::Eof, skip(b, p, false), skip(b, p, false))],
            Seq::<SDiagnostic>::empty(),
        ),
{
    let q = skip(b, p, false);
    lemma_skip_bounds(b, p, false);
    lemma_skip_idempotent(b, p);
    if q < b.len() {
        lemma_step_progress(b, q);
    }
}

/// The token list of any text is non-empty and ends with `Eof`.
pub proof fn lemma_lex_from_ends_with_eof(b: Seq<u8>, p: nat)
    requires
        p <= b.len(),
    ensures
        lex_from(b, p).0.len() > 0,
        lex_from(b, p).0.last().kind == Tk::Eof,
    decreases b.len() - p,
{
    lemma_lex_from_unfold(b, p);
    lemma_skip_bounds(b, p, false);
    let q = skip(b, p, false);
    if q < b.len() {
        lemma_step_progress(b, q);
        let s = step(b, q);
        lemma_lex_from_ends_with_eof(b, s.2);
        let r = lex_from(b, s.2);
        assert((opt_seq(s.0) + r.0).last() == r.0.last());
    }
}

/// Whether tokens lie in order within `[p, n]`: each token but the last is
/// not `Eof` and covers a non-empty range, each token ends at or before any
/// later token starts, and the last token is `Eof`, the empty range at `n`.
pub open spec fn tokens_ordered(ts: Seq<Tok>, p: nat, n: nat) -> bool {
    &&& ts.len() >= 1
    &&& ts.last() == tok(Tk::Eof, n, n)
    &&& p <= n
    &&& forall|i: int|
        0 <= i < ts.len() - 1 ==> (#[trigger] ts[i]).kind != Tk::Eof && p <= ts[i].span.start < ts[i].span.end
    &&& forall|i: int, j: int| #![trigger ts[i], ts[j]] 0 <= i < j < ts.len() ==> ts[i].span.end <= ts[j].span.start
}

/// Whether every diagnostic is an error covering a non-empty range within
/// `[p, n]`.
pub open spec fn diagnostics_within(ds: Seq<SDiagnostic>, p: nat, n: nat) -> bool {
    forall|i: int|
        0 <= i < ds.len() ==> (#[trigger] ds[i]).severity == Severity::Error && p <= ds[i].span.start
            < ds[i].span.end <= n
}

/// The token a step produces covers the range it advances over, and its
/// diagnostic lies within that range.
pub proof fn lemma_step_spans(b: Seq<u8>, q: nat)
    requires
        q < b.len() <= usize::MAX,
    ensures
        q < step(b, q).2 <= b.len(),
        step(b, q).0 matches Some(t) ==> t.kind != Tk::Eof && t.span.start == q && t.span.end == step(b, q).2,
        step(b, q).1 matches Some(d) ==> d.severity == Severity::Error && q <= d.span.start < d.span.end <= step(
            b,
            q,
        ).2,
{
    lemma_step_progress(b, q);
    lemma_str_scan_bounds(b, q + 1);
    lemma_ident_end_bounds(b, q + 1);
    lemma_digits_end_bounds(b, q);
}

/// Putting the outcome of one step in front of ordered tokens and
/// diagnostics keeps them ordered.
pub proof fn lemma_ordered_cons(
    t: Option<Tok>,
    d: Option<SDiagnostic>,
    q: nat,
    e: nat,
    p: nat,
    n: nat,
    ts: Seq<Tok>,
    ds: Seq<SDiagnostic>,
)
    requires
        p <= q < e <= n <= usize::MAX,
        t matches Some(x) ==> x.kind != Tk::Eof && x.span.start == q && x.span.end == e,
        d matches Some(y) ==> y.severity == Severity::Error && q <= y.span.start < y.span.end <= e,
        tokens_ordered(ts, e, n),
        diagnostics_within(ds, e, n),
    ensures
        tokens_ordered(opt_seq(t) + ts, p, n),
        diagnostics_within(opt_seq(d) + ds, p, n),
{
    let all = opt_seq(t) + ts;
    let alld = opt_seq(d) + ds;
    assert forall|k: int| 0 <= k < ts.len() implies e <= #[trigger] ts[k].span.start by {
        if k < ts.len() - 1 {
            assert(ts[k] == ts[k]);
        } else {
            assert(ts[k] == ts.last());
        }
    }
    assert(all.last() == ts.last());
    assert forall|i: int| 0 <= i < all.len() - 1 implies (#[trigger] all[i]).kind != Tk::Eof && p <= all[i].span.start
        < all[i].span.end by {
        if t is Some && i > 0 {
            assert(all[i] == ts[i - 1]);
        } else if t is None {
            assert(all[i] == ts[i]);
        }
    }
    assert forall|i: int, j: int| #![trigger all[i], all[j]] 0 <= i < j < all.len() implies all[i].span.end
        <= all[j].span.start by {
        if t is Some {
            assert(all[j] == ts[j - 1]);
            if i > 0 {
                assert(all[i] == ts[i - 1]);
            }
        } else {
            assert(all[i] == ts[i] && all[j] == ts[j]);
        }
    }
    assert forall|i: int| 0 <= i < alld.len() implies (#[trigger] alld[i]).severity == Severity::Error && p
        <= alld[i].span.start < alld[i].span.end <= n by {
        if d is Some && i > 0 {
            assert(alld[i] == ds[i - 1]);
        } else if d is None {
            assert(alld[i] == ds[i]);
        }
    }
}

/// The tokens from `p` on lie in order, end with the one `Eof` at the end
/// of the text, and the diagnostics lie within the rest of the text.
pub proof fn lemma_lex_from_ordered(b: Seq<u8>, p: nat)
    requires
        p <= b.len() <= usize::MAX,
    ensures
        tokens_ordered(lex_from(b, p).0, p, b.len()),
        diagnostics_within(lex_from(b, p).1, p, b.len()),
    decreases b.len() - p,
{
    lemma_lex_from_unfold(b, p);
    lemma_skip_bounds(b, p, false);
    let q = skip(b, p, false);
    if q < b.len() {
        lemma_step_spans(b, q);
        let s = step(b, q);
        lemma_lex_from_ordered(b, s.2);
        lemma_ordered_cons(s.0, s.1, q, s.2, p, b.len(), lex_from(b, s.2).0, lex_from(b, s.2).1);
    } else {
        let ts = lex_from(b, p).0;
        assert(ts.len() == 1);
    }
}

/// Each keyword's spelling lexes as that keyword, a single token; and a
/// text is a keyword only when it is that keyword's spelling.
pub proof fn lemma_keywords_lex_as_themselves(k: Keyword, w: Seq<u8>)
    ensures
        keyword_of(keyword_spelling(k)) == Some(k),
        keyword_of(w) matches Some(j) ==> w == keyword_spelling(j),
        spec_tokens(keyword_spelling(k)).len() == 2,
        spec_tokens(keyword_spelling(k))[0] == tok(Tk::Keyword(k), 0, keyword_spelling(k).len()),
{
    let s = keyword_spelling(k);
    assert(keyword_of(s) == Some(k)) by {
        match k {
            Keyword::Cell => {},
            Keyword::Prove => {},
            Keyword::Construct => {},
            Keyword::Schema => {},
            Keyword::Property => {},
            Keyword::Struct => {},
            Keyword::Macro => {},
            Keyword::Use => {},
            Keyword::As => {},
            Keyword::With => {},
            Keyword::Unique => {},
            Keyword::Show => {},
            Keyword::Folder => {},
            Keyword::Actions => {},
            Keyword::Attach => {},
            Keyword::Contract => {},
            Keyword::Id => {},
            Keyword::Inv => {},
            Keyword::Title => {},
            Keyword::Author => {},
            Keyword::Abstract => {},
        }
    }
    assert(1 <= s.len() && is_alpha(s[0]) && forall|i: int| 1 <= i < s.len() ==> is_word_byte(#[trigger] s[i])) by {
        match k {
            Keyword::Cell => {},
            Keyword::Prove => {},
            Keyword::Construct => {},
            Keyword::Schema => {},
            Keyword::Property => {},
            Keyword::Struct => {},
            Keyword::Macro => {},
            Keyword::Use => {},
            Keyword::As => {},
            Keyword::With => {},
            Keyword::Unique => {},
            Keyword::Show => {},
            Keyword::Folder => {},
            Keyword::Actions => {},
            Keyword::Attach => {},
            Keyword::Contract => {},
            Keyword::Id => {},
            Keyword::Inv => {},
            Keyword::Title => {},
            Keyword::Author => {},
            Keyword::Abstract => {},
        }
    }
    lemma_word_is_one_token(s);
}

/// The bytes of a text of ASCII characters.
pub open spec fn ascii_bytes(s: Seq<char>) -> Seq<u8> {
    s.map_values(|c: char| c as u8)
}

/// A number written in decimal reads back as itself: its notation is made
/// of digits, starts with a nonzero digit unless the number is 0, and its
/// value as a number literal is the number.
pub proof fn lemma_decimal_reads_back(n: nat)
    ensures
        forall|i: int| 0 <= i < ascii_bytes(crate::text::decimal(n)).len() ==> is_digit(
            #[trigger] ascii_bytes(crate::text::decimal(n))[i],
        ),
        ascii_bytes(crate::text::decimal(n)).len() >= 1,
        n > 0 ==> ascii_bytes(crate::text::decimal(n))[0] != 48,
        digits_value(ascii_bytes(crate::text::decimal(n))) == n,
    decreases n,
{
    let d = crate::text::decimal(n);
    let b = ascii_bytes(d);
    if n < 10 {
        assert(b.len() == 1);
        assert(b[0] == (n + 48) as u8);
        assert(b.drop_last() =~= Seq::<u8>::empty());
        assert(digits_value(b.drop_last()) == 0);
        assert(b.last() - 48 == n);
    } else {
        lemma_decimal_reads_back(n / 10);
        let p = crate::text::decimal(n / 10);
        let pb = ascii_bytes(p);
        assert(b =~= pb.push(((n % 10 + 48) as u8)));
        assert(b.drop_last() =~= pb);
        assert(b[0] == pb[0]);
        assert(b.last() - 48 == n % 10);
        assert(digits_value(b) == digits_value(pb) * 10 + (b.last() - 48) as nat);
        assert(n == (n / 10) * 10 + n % 10);
    }
}

/// A string literal without quotes or backslashes inside reads as its
/// bytes: scanning from just after the opening quote gives the bytes up to
/// the closing quote, and continues after it.
pub proof fn lemma_plain_string(b: Seq<u8>, q: nat, e: nat)
    requires
        q <= e < b.len(),
        forall|i: int| q <= i < e ==> b[i] != 34 && b[i] != 92,
        b[e as int] == 34,
    ensures
        str_scan(b, q) == (b.subrange(q as int, e as int), e + 1, true),
    decreases e - q,
{
    if q < e {
        lemma_plain_string(b, q + 1, e);
        assert(seq![b[q as int]] + b.subrange(q + 1int, e as int) =~= b.subrange(q as int, e as int));
    } else {
        assert(b.subrange(q as int, e as int) =~= Seq::<u8>::empty());
    }
}

/// Whitespace is insignificant: lexing from a whitespace byte gives what
/// lexing from the next byte gives.
pub proof fn lemma_whitespace_insignificant(b: Seq<u8>, p: nat)
    requires
        p < b.len(),
        is_ws(b[p as int]),
    ensures
        lex_from(b, p) == lex_from(b, p + 1),
{
    lemma_lex_from_unfold(b, p);
    lemma_lex_from_unfold(b, p + 1);
}

proof fn lemma_skip_comment_run(b: Seq<u8>, q: nat, e: nat)
    requires
        q <= e < b.len(),
        forall|i: int| q <= i < e ==> b[i] != 10,
        b[e as int] == 10,
    ensures
        skip(b, q, true) == skip(b, e + 1, false),
    decreases e - q,
{
    if q < e {
        lemma_skip_comment_run(b, q + 1, e);
    }
}

/// A line comment is insignificant: lexing from `//` gives what lexing from
/// just after the end of its line gives.
pub proof fn lemma_comment_insignificant(b: Seq<u8>, p: nat, e: nat)
    requires
        p + 2 <= e < b.len(),
        b[p as int] == 47,
        b[p + 1int] == 47,
        forall|i: int| p + 2 <= i < e ==> b[i] != 10,
        b[e as int] == 10,
    ensures
        lex_from(b, p) == lex_from(b, e + 1),
{
    lemma_lex_from_unfold(b, p);
    lemma_lex_from_unfold(b, e + 1);
    lemma_skip_comment_run(b, p + 2, e);
    assert(skip(b, p, false) == skip(b, p + 2, true));
}

/// Whether a byte is an ASCII letter or digit or `_`.
pub open spec fn is_word_byte(b: u8) -> bool {
    is_alpha(b) || is_digit(b) || b == 95
}

proof fn lemma_ident_end_word(w: Seq<u8>, p: nat)
    requires
        1 <= p <= w.len(),
        forall|i: int| 1 <= i < w.len() ==> is_word_byte(#[trigger] w[i]),
    ensures
        ident_end(w, p) == w.len(),
    decreases w.len() - p,
{
    if p < w.len() {
        assert(is_word_byte(w[p as int]));
        lemma_ident_end_word(w, p + 1);
    }
}

/// A word, a letter followed by ASCII letters, digits or `_`, lexes as one
/// name or keyword token covering the whole word, followed by the end, with
/// no diagnostic.
pub proof fn lemma_word_is_one_token(w: Seq<u8>)
    requires
        1 <= w.len() <= usize::MAX,
        is_alpha(w[0]),
        forall|i: int| 1 <= i < w.len() ==> is_word_byte(#[trigger] w[i]),
    ensures
        spec_tokens(w).len() == 2,
        spec_tokens(w)[0] == tok(
            match keyword_of(w) {
                Some(k) => Tk::Keyword(k),
                None => Tk::Ident(w),
            },
            0,
            w.len(),
        ),
        spec_tokens(w)[1] == tok(Tk::Eof, w.len(), w.len()),
        spec_lex_diagnostics(w).len() == 0,
{
    lemma_lex_from_unfold(w, 0);
    assert(skip(w, 0, false) == 0);
    lemma_ident_end_word(w, 1);
    let st = step(w, 0);
    assert(st.2 == w.len());
    assert(w.subrange(0, w.len() as int) =~= w);
    lemma_lex_from_unfold(w, w.len());
    assert(skip(w, w.len(), false) == w.len());
}

/// The tokens of a text lie in order and end with the one `Eof`, the empty
/// range at the end of the text; every lexical diagnostic is an error
/// covering a non-empty range within the text.
pub proof fn lemma_tokens_ordered(b: Seq<u8>)
    requires
        b.len() <= usize::MAX,
    ensures
        tokens_ordered(spec_tokens(b), 0, b.len()),
        diagnostics_within(spec_lex_diagnostics(b), 0, b.len()),
{
    lemma_lex_from_ordered(b, 0);
}

// ---------------------------------------------------------------------------
// The executable lexer.

/// Lexer state: the input bytes, the cursor and the diagnostics so far.
pub struct Lexer<'a> {
    pub bytes: &'a [u8],
    pub cursor: usize,
    pub diagnostics: Vec<Diagnostic>,
}

impl<'a> Lexer<'a> {
    /// A lexer at the start of `source`.
    pub fn new(source: &'a str) -> (r: Lexer<'a>)
        ensures
            r.bytes@ == source.spec_bytes(),
            r.cursor == 0,
            r.diagnostics@.len() == 0,
    {
        Lexer { bytes: source.as_bytes(), cursor: 0, diagnostics: Vec::new() }
    }

    /// The byte at the cursor.
    pub fn peek(&self) -> (r: Option<u8>)
        ensures
            r == (if self.cursor < self.bytes@.len() {
                Some(self.bytes@[self.cursor as int])
            } else {
                None::<u8>
            }),
    {
        if self.cursor < self.bytes.len() {
            Some(self.bytes[self.cursor])
        } else {
            None
        }
    }

    /// The byte just after the cursor.
    pub fn peek_next(&self) -> (r: Option<u8>)
        ensures
            r == (if self.cursor + 1 < self.bytes@.len() {
                Some(self.bytes@[self.cursor + 1])
            } else {
                None::<u8>
            }),
    {
        self.peek_offset(1)
    }

    /// The byte `offset` places after the cursor.
    pub fn peek_offset(&self, offset: usize) -> (r: Option<u8>)
        ensures
            r == (if self.cursor + offset < self.bytes@.len() {
                Some(self.bytes@[self.cursor + offset])
            } else {
                None::<u8>
            }),
    {
        if offset < self.bytes.len() && self.cursor < self.bytes.len() - offset {
            Some(self.bytes[self.cursor + offset])
        } else {
            None
        }
    }

    /// Moves the cursor past whitespace and comments.
    pub fn skip_ws_and_comments(&mut self)
        requires
            old(self).cursor <= old(self).bytes@.len(),
        ensures
            final(self).cursor == skip(old(self).bytes@, old(self).cursor as nat, false),
            final(self).bytes == old(self).bytes,
            final(self).diagnostics == old(self).diagnostics,
    {
        let mut in_comment = false;
        while self.cursor < self.bytes.len()
            invariant
                self.cursor <= self.bytes@.len(),
                self.bytes == old(self).bytes,
                self.diagnostics == old(self).diagnostics,
                skip(self.bytes@, self.cursor as nat, in_comment) == skip(
                    old(self).bytes@,
                    old(self).cursor as nat,
                    false,
                ),
            decreases self.bytes@.len() - self.cursor,
        {
            let b = self.bytes[self.cursor];
            if in_comment {
                in_comment = b != 10;
                self.cursor = self.cursor + 1;
            } else if b == 32 || b == 9 || b == 10 || b == 12 || b == 13 {
                self.cursor = self.cursor + 1;
            } else if b == 47 && self.peek_next() == Some(47u8) {
                in_comment = true;
                self.cursor = self.cursor + 2;
            } else if b == 35 {
                in_comment = true;
                self.cursor = self.cursor + 1;
            } else {
                return;
            }
        }
    }

    /// A one-byte token of the given kind.
    pub fn single(&mut self, kind: TokenKind) -> (r: Token)
        requires
            old(self).cursor < old(self).bytes@.len(),
        ensures
            r@ == tok(kind@, old(self).cursor as nat, (old(self).cursor + 1) as nat),
            final(self).cursor == old(self).cursor + 1,
            final(self).bytes == old(self).bytes,
            final(self).diagnostics == old(self).diagnostics,
    {
        let _len = self.bytes.len();
        let start = self.cursor;
        self.cursor = self.cursor + 1;
        Token { kind, span: Span::new(start, self.cursor) }
    }

    /// A string literal starting at the cursor (which holds `"`).
    pub fn string(&mut self) -> (r: Token)
        requires
            old(self).cursor < old(self).bytes@.len(),
            old(self).bytes@[old(self).cursor as int] == 34,
        ensures
            ({
                let s = step(old(self).bytes@, old(self).cursor as nat);
                &&& Some(r@) == s.0
                &&& final(self).cursor == s.2
                &&& diags_view(final(self).diagnostics@) == diags_view(old(self).diagnostics@)
                    + opt_seq(s.1)
            }),
            final(self).bytes == old(self).bytes,
    {
        let ghost b = self.bytes@;
        let _len = self.bytes.len();
        let start = self.cursor;
        self.cursor = self.cursor + 1;
        let mut value: Vec<u8> = Vec::new();
        proof {
            lemma_str_scan_bounds(b, (start + 1) as nat);
        }
        while self.cursor < self.bytes.len()
            invariant
                self.bytes@ == b,
                old(self).bytes@ == b,
                start == old(self).cursor,
                start < b.len(),
                b[start as int] == 34,
                start < self.cursor <= b.len(),
                self.diagnostics == old(self).diagnostics,
                self.bytes == old(self).bytes,
                value@ + str_scan(b, self.cursor as nat).0 == str_scan(b, (start + 1) as nat).0,
                str_scan(b, self.cursor as nat).1 == str_scan(b, (start + 1) as nat).1,
                str_scan(b, self.cursor as nat).2 == str_scan(b, (start + 1) as nat).2,
            decreases b.len() - self.cursor,
        {
            let byte = self.bytes[self.cursor];
            if byte == 34 {
                assert(str_scan(b, self.cursor as nat) == (Seq::<u8>::empty(), (self.cursor + 1) as nat, true));
                self.cursor = self.cursor + 1;
                assert(value@ + seq![] =~= value@);
                assert(diags_view(self.diagnostics@) + opt_seq(None::<SDiagnostic>) =~= diags_view(self.diagnostics@));
                return Token { kind: TokenKind::Str(value), span: Span::new(start, self.cursor) };
            } else if byte == 92 && self.peek_next() == Some(34u8) {
                proof {
                    let r = str_scan(b, (self.cursor + 2) as nat);
                    assert(value@ + (seq![34u8] + r.0) =~= value@.push(34u8) + r.0);
                }
                self.cursor = self.cursor + 2;
                value.push(34);
            } else {
                proof {
                    let r = str_scan(b, (self.cursor + 1) as nat);
                    assert(value@ + (seq![byte] + r.0) =~= value@.push(byte) + r.0);
                }
                value.push(byte);
                self.cursor = self.cursor + 1;
            }
        }
        assert(value@ + seq![] =~= value@);
        let d = Diagnostic::error_text("unterminated string literal", Span::new(start, self.cursor));
        proof {
            lemma_diags_view_push(self.diagnostics@, d);
        }
        self.diagnostics.push(d);
        Token { kind: TokenKind::Str(value), span: Span::new(start, self.cursor) }
    }

    /// A number starting at the cursor (which holds a digit). A number too large
    /// for `usize` reads as `0`.
    pub fn number(&mut self) -> (r: Token)
        requires
            old(self).cursor < old(self).bytes@.len(),
            is_digit(old(self).bytes@[old(self).cursor as int]),
        ensures
            ({
                let s = step(old(self).bytes@, old(self).cursor as nat);
                &&& Some(r@) == s.0
                &&& final(self).cursor == s.2
            }),
            final(self).bytes == old(self).bytes,
            final(self).diagnostics == old(self).diagnostics,
    {
        let ghost b = self.bytes@;
        let start = self.cursor;
        let mut value: usize = 0;
        let mut overflow = false;
        proof {
            lemma_digits_end_bounds(b, start as nat);
        }
        while self.cursor < self.bytes.len() && 48 <= self.bytes[self.cursor] && self.bytes[self.cursor] <= 57
            invariant
                self.bytes@ == b,
                self.bytes == old(self).bytes,
                self.diagnostics == old(self).diagnostics,
                start <= self.cursor <= digits_end(b, start as nat),
                digits_end(b, start as nat) <= b.len(),
                digits_end(b, self.cursor as nat) == digits_end(b, start as nat),
                !overflow ==> value == digits_value(b.subrange(start as int, self.cursor as int)),
                overflow ==> digits_value(b.subrange(start as int, self.cursor as int)) > usize::MAX,
            decreases b.len() - self.cursor,
        {
            proof {
                lemma_digits_end_bounds(b, (self.cursor + 1) as nat);
            }
            let d = (self.bytes[self.cursor] - 48) as usize;
            let ghost prev = b.subrange(start as int, self.cursor as int);
            let ghost next = b.subrange(start as int, self.cursor + 1);
            assert(next.drop_last() =~= prev);
            if !overflow {
                match value.checked_mul(10) {
                    Some(m) => match m.checked_add(d) {
                        Some(v) => {
                            value = v;
                        },
                        None => {
                            overflow = true;
                        },
                    },
                    None => {
                        overflow = true;
                    },
                }
            }
            self.cursor = self.cursor + 1;
        }
        assert(self.cursor == digits_end(b, start as nat));
        let n = if overflow {
            0
        } else {
            value
        };
        Token { kind: TokenKind::Number(n), span: Span::new(start, self.cursor) }
    }

    /// Whether the byte at `i` continues a name (see `continues_name`).
    pub fn continues_name_at(&self, i: usize) -> (r: bool)
        requires
            i < self.bytes@.len(),
        ensures
            r == continues_name(self.bytes@, i as int),
    {
        let c = self.bytes[i];
        is_ident_continue(c) && !(c == 45 && i + 1 < self.bytes.len() && self.bytes[i + 1] == 62)
    }

    /// A name or keyword starting at the cursor (which holds a name-start byte).
    pub fn ident_or_keyword(&mut self) -> (r: Token)
        requires
            old(self).cursor < old(self).bytes@.len(),
            spec_is_ident_start(old(self).bytes@[old(self).cursor as int]),
        ensures
            ({
                let s = step(old(self).bytes@, old(self).cursor as nat);
                &&& Some(r@) == s.0
                &&& final(self).cursor == s.2
            }),
            final(self).bytes == old(self).bytes,
            final(self).diagnostics == old(self).diagnostics,
    {
        let ghost b = self.bytes@;
        let _len = self.bytes.len();
        let start = self.cursor;
        self.cursor = self.cursor + 1;
        proof {
            lemma_ident_end_bounds(b, (start + 1) as nat);
        }
        while self.cursor < self.bytes.len() && self.continues_name_at(self.cursor)
            invariant
                self.bytes@ == b,
                self.bytes == old(self).bytes,
                self.diagnostics == old(self).diagnostics,
                start < self.cursor <= ident_end(b, (start + 1) as nat),
                ident_end(b, (start + 1) as nat) <= b.len(),
                ident_end(b, self.cursor as nat) == ident_end(b, (start + 1) as nat),
            decreases b.len() - self.cursor,
        {
            proof {
                lemma_ident_end_bounds(b, (self.cursor + 1) as nat);
            }
            self.cursor = self.cursor + 1;
        }
        let mut text: Vec<u8> = Vec::new();
        let mut i = start;
        while i < self.cursor
            invariant
                start <= i <= self.cursor <= b.len(),
                self.bytes@ == b,
                text@ == b.subrange(start as int, i as int),
            decreases self.cursor - i,
        {
            text.push(self.bytes[i]);
            assert(text@ =~= b.subrange(start as int, i + 1));
            i = i + 1;
        }
        let kind = match lookup_keyword(text.as_slice()) {
            Some(k) => TokenKind::Keyword(k),
            None => TokenKind::Ident(text),
        };
        Token { kind, span: Span::new(start, self.cursor) }
    }

    /// The token (or lexical error) at the cursor.
    pub fn next_token(&mut self) -> (r: Option<Token>)
        requires
            old(self).cursor < old(self).bytes@.len(),
        ensures
            ({
                let s = step(old(self).bytes@, old(self).cursor as nat);
                &&& s.0 == (match r {
                    Some(t) => Some(t@),
                    None => None::<Tok>,
                })
                &&& final(self).cursor == s.2
                &&& diags_view(final(self).diagnostics@) == diags_view(old(self).diagnostics@)
                    + opt_seq(s.1)
            }),
            final(self).bytes == old(self).bytes,
    {
        let ghost b = self.bytes@;
        let _len = self.bytes.len();
        let start = self.cursor;
        let byte = self.bytes[self.cursor];
        let ghost d0 = diags_view(self.diagnostics@);
        assert(d0 + opt_seq(None::<SDiagnostic>) =~= d0);
        if byte == 58 {
            Some(self.single(TokenKind::Colon))
        } else if byte == 59 {
            Some(self.single(TokenKind::Semicolon))
        } else if byte == 44 {
            Some(self.single(TokenKind::Comma))
        } else if byte == 46 {
            Some(self.single(TokenKind::Dot))
        } else if byte == 40 {
            Some(self.single(TokenKind::LParen))
        } else if byte == 41 {
            Some(self.single(TokenKind::RParen))
        } else if byte == 123 {
            Some(self.single(TokenKind::LBrace))
        } else if byte == 125 {
            Some(self.single(TokenKind::RBrace))
        } else if byte == 91 {
            Some(self.single(TokenKind::LBracket))
        } else if byte == 93 {
            Some(self.single(TokenKind::RBracket))
        } else if byte == 60 && self.peek_next() == Some(45u8) && self.peek_offset(2) == Some(62u8) {
            self.cursor = self.cursor + 3;
            Some(Token { kind: TokenKind::DoubleArrow, span: Span::new(start, self.cursor) })
        } else if byte == 60 {
            Some(self.single(TokenKind::Lt))
        } else if byte == 62 {
            Some(self.single(TokenKind::Gt))
        } else if byte == 42 {
            Some(self.single(TokenKind::Star))
        } else if byte == 61 {
            Some(self.single(TokenKind::Equals))
        } else if byte == 45 && self.peek_next() == Some(62u8) {
            self.cursor = self.cursor + 2;
            Some(Token { kind: TokenKind::Arrow, span: Span::new(start, self.cursor) })
        } else if byte == 34 {
            Some(self.string())
        } else if 48 <= byte && byte <= 57 {
            Some(self.number())
        } else if is_ident_start(byte) {
            Some(self.ident_or_keyword())
        } else {
            self.cursor = self.cursor + 1;
            let mut message = String::from_str("unexpected character `");
            push_char(&mut message, byte as char);
            let message = message.concat("`");
            assert(message@ =~= msg_unexpected(byte));
            let d = Diagnostic::error(message, Span::new(start, self.cursor));
            proof {
                lemma_diags_view_push(self.diagnostics@, d);
                assert(d@ == error_diag(msg_unexpected(byte), Span { start: start, end: self.cursor }));
                assert(d0.push(d@) =~= d0 + seq![d@]);
            }
            self.diagnostics.push(d);
            None
        }
    }

    /// All tokens of the input, ending with `Eof`; lexical errors are added to
    /// `diagnostics`.
    pub fn lex(&mut self) -> (r: Vec<Token>)
        requires
            old(self).cursor == 0,
            old(self).diagnostics@.len() == 0,
        ensures
            toks_view(r@) == spec_tokens(old(self).bytes@),
            diags_view(final(self).diagnostics@) == spec_lex_diagnostics(old(self).bytes@),
    {
        let ghost b = self.bytes@;
        let mut tokens: Vec<Token> = Vec::new();
        assert(toks_view(tokens@) + lex_from(b, 0).0 =~= lex_from(b, 0).0);
        assert(diags_view(self.diagnostics@) + lex_from(b, 0).1 =~= lex_from(b, 0).1);
        loop
            invariant
                self.bytes@ == b,
                b == old(self).bytes@,
                self.cursor <= b.len(),
                toks_view(tokens@) + lex_from(b, self.cursor as nat).0 == lex_from(b, 0).0,
                diags_view(self.diagnostics@) + lex_from(b, self.cursor as nat).1 == lex_from(b, 0).1,
            decreases b.len() - self.cursor,
        {
            let ghost p = self.cursor as nat;
            proof {
                lemma_lex_from_unfold(b, p);
                lemma_skip_bounds(b, p, false);
            }
            self.skip_ws_and_comments();
            if self.cursor >= self.bytes.len() {
                let t = Token { kind: TokenKind::Eof, span: Span::new(self.cursor, self.cursor) };
                proof {
                    lemma_toks_view_push(tokens@, t);
                    assert(toks_view(tokens@.push(t)) =~= toks_view(tokens@) + lex_from(b, p).0);
                    assert(diags_view(self.diagnostics@) =~= diags_view(self.diagnostics@) + lex_from(b, p).1);
                }
                tokens.push(t);
                return tokens;
            }
            let ghost q = self.cursor as nat;
            let ghost d0 = diags_view(self.diagnostics@);
            proof {
                lemma_step_progress(b, q);
            }
            let token = self.next_token();
            let ghost s = step(b, q);
            proof {
                assert(d0 + opt_seq(s.1) + lex_from(b, s.2).1 =~= d0 + (opt_seq(s.1) + lex_from(b, s.2).1));
            }
            match token {
                Some(t) => {
                    proof {
                        lemma_toks_view_push(tokens@, t);
                        assert(toks_view(tokens@.push(t)) + lex_from(b, s.2).0
                            =~= toks_view(tokens@) + (opt_seq(s.0) + lex_from(b, s.2).0));
                    }
                    tokens.push(t);
                },
                None => {
                    proof {
                        assert(toks_view(tokens@) + lex_from(b, s.2).0
                            =~= toks_view(tokens@) + (opt_seq(s.0) + lex_from(b, s.2).0));
                    }
                },
            }
        }
    }
}

} // verus!
