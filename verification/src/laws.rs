//! Algebraic laws of the diagram constructions: composition is associative
//! with identities as units, inversion swaps the boundaries and undoes
//! itself, and two independent loops merge into the same level whichever is
//! placed first with the matching bias. The same laws hold of expressions
//! as `compile` evaluates them (`eval`): bracketing a composite, composing
//! with identities, and inverting twice.
use vstd::prelude::*;

use crate::ast::{Bias, SCellDecl, SExpr, SProofDecl, SProofStep};
use crate::compiler::{cell_diagram, eval, eval_terms, proof_diagram, run_steps, Env, SValueD};
use crate::diagnostics::Span;
use crate::diagram::{
    contract_at, contraction_to, find_occurrence, s_contraction, whiskered, first_contraction, occurs_at, replaced, s_attach, single_app,
    undoes,
    composable, inv_app, inv_move, levels_of, merged, s_compose, s_identity, s_inverse, sdim, slice,
    src_of, tgt_of, width, wf, with_gap, App, SDiagram, SLevel, SMove,
};

verus! {

/// Composition is associative: `(a * b) * c` is `a * (b * c)`.
pub proof fn lemma_compose_associative(a: SDiagram, b: SDiagram, c: SDiagram)
    requires
        composable(a, b),
        composable(b, c),
    ensures
        composable(s_compose(a, b), c),
        composable(a, s_compose(b, c)),
        s_compose(s_compose(a, b), c) == s_compose(a, s_compose(b, c)),
{
    let ab = s_compose(a, b);
    let bc = s_compose(b, c);
    assert(levels_of(ab) == levels_of(a) + levels_of(b));
    assert(tgt_of(ab) == tgt_of(b)) by {
        if width(b) == 0 {
            assert(tgt_of(b) == src_of(b));
            if width(a) == 0 {
                assert(tgt_of(a) == src_of(a));
            } else {
                assert(levels_of(ab)[levels_of(ab).len() - 1] == levels_of(a)[levels_of(a).len() - 1]);
            }
        } else {
            assert(levels_of(ab)[levels_of(ab).len() - 1] == levels_of(b)[levels_of(b).len() - 1]);
        }
    }
    assert(src_of(bc) == src_of(b));
    assert(levels_of(a) + levels_of(b) + levels_of(c) =~= levels_of(a) + (levels_of(b) + levels_of(c)));
}

/// The identity on the source is a left unit of composition.
pub proof fn lemma_identity_left_unit(a: SDiagram)
    requires
        sdim(a) >= 1,
        sdim(a) == sdim(src_of(a)) + 1,
    ensures
        composable(s_identity(src_of(a)), a),
        s_compose(s_identity(src_of(a)), a) == a,
{
    let i = s_identity(src_of(a));
    assert(tgt_of(i) == src_of(i));
    assert(Seq::<SLevel>::empty() + levels_of(a) =~= levels_of(a));
    match a {
        SDiagram::Cell(n, s, l) => {},
        SDiagram::Point(_) => {},
    }
}

/// The identity on the target is a right unit of composition.
pub proof fn lemma_identity_right_unit(a: SDiagram)
    requires
        sdim(a) >= 1,
        sdim(a) == sdim(src_of(a)) + 1,
        sdim(tgt_of(a)) == sdim(src_of(a)),
    ensures
        composable(a, s_identity(tgt_of(a))),
        s_compose(a, s_identity(tgt_of(a))) == a,
{
    let i = s_identity(tgt_of(a));
    assert(levels_of(a) + Seq::<SLevel>::empty() =~= levels_of(a));
    match a {
        SDiagram::Cell(n, s, l) => {},
        SDiagram::Point(_) => {},
    }
}

/// The inverse runs from the target back to the source.
pub proof fn lemma_inverse_boundaries(d: SDiagram)
    requires
        sdim(d) >= 1,
    ensures
        src_of(s_inverse(d)) == tgt_of(d),
        tgt_of(s_inverse(d)) == src_of(d),
        sdim(s_inverse(d)) == sdim(d),
        width(s_inverse(d)) == width(d),
{
    let l = levels_of(d);
    if l.len() > 0 {
        let r = levels_of(s_inverse(d));
        assert(r[r.len() - 1].target == slice(d, 0));
    }
}

pub proof fn lemma_inv_move_involutive(m: SMove)
    ensures
        inv_move(inv_move(m)) == m,
{
    match m {
        SMove::Apply(apps) => {
            let once = Seq::new(apps.len(), |i: int| inv_app(apps[i]));
            let twice = Seq::new(once.len(), |i: int| inv_app(once[i]));
            assert(twice =~= apps);
        },
        SMove::Contract(_, _, _) => {},
    }
}

/// Inverting twice gives the diagram back.
pub proof fn lemma_inverse_involutive(d: SDiagram)
    requires
        sdim(d) >= 1,
    ensures
        s_inverse(s_inverse(d)) == d,
{
    let e = s_inverse(d);
    let l = levels_of(d);
    let n = l.len();
    lemma_inverse_boundaries(d);
    let r = levels_of(e);
    let rr = levels_of(s_inverse(e));
    assert forall|i: int| 0 <= i < n implies #[trigger] rr[i] == l[i] by {
        let j = n - 1 - i;
        assert(r[j].action == inv_move(l[i].action));
        lemma_inv_move_involutive(l[i].action);
        assert(rr[i].action == inv_move(r[j].action));
        assert(rr[i].target == slice(e, j));
        if j == 0 {
            assert(slice(e, 0) == src_of(e));
            assert(src_of(e) == tgt_of(d));
            assert(i == n - 1);
        } else {
            assert(slice(e, j) == r[j - 1].target);
            assert(r[j - 1].target == slice(d, n - j));
        }
    }
    assert(rr =~= l);
    match d {
        SDiagram::Cell(k, s, lv) => {
            assert(src_of(s_inverse(e)) == tgt_of(e));
            assert(tgt_of(e) == src_of(d));
        },
        SDiagram::Point(_) => {},
    }
}

/// Two loops placed side by side at the same point merge into the same level
/// whether the first is kept lower or the second is kept higher: the step at
/// the heart of the Eckmann-Hilton argument.
pub proof fn lemma_merge_symmetric(a: App, b: App)
    requires
        a.input == 0,
        a.output == 0,
        b.input == 0,
        b.output == 0,
        a.gap == b.gap,
    ensures
        merged(a, b, Bias::Lower) == Some(seq![a, with_gap(b, 0)]),
        merged(b, a, Bias::Higher) == Some(seq![a, with_gap(b, 0)]),
{
    assert(with_gap(a, b.gap) == a);
}


/// The target of a composite is the target of its second part.
pub proof fn lemma_compose_target(a: SDiagram, b: SDiagram)
    requires
        composable(a, b),
    ensures
        tgt_of(s_compose(a, b)) == tgt_of(b),
        src_of(s_compose(a, b)) == src_of(a),
        forall|k: int| width(a) <= k <= width(a) + width(b) ==> #[trigger] slice(s_compose(a, b), k) == slice(b, k - width(a)),
{
    let ab = s_compose(a, b);
    let la = levels_of(a);
    let lb = levels_of(b);
    assert(levels_of(ab) == la + lb);
    assert forall|k: int| width(a) <= k <= width(a) + width(b) implies #[trigger] slice(ab, k) == slice(b, k - width(a)) by {
        if k == width(a) {
            if la.len() > 0 {
                assert(slice(ab, k) == la[la.len() - 1].target);
                assert(tgt_of(a) == la[la.len() - 1].target);
            } else {
                assert(tgt_of(a) == src_of(a));
            }
        } else {
            assert((la + lb)[k - 1] == lb[k - 1 - la.len()]);
        }
    }
    assert(slice(ab, (width(a) + width(b)) as int) == slice(b, width(b) as int));
}

/// The inverse of a composite is the composite of the inverses, in the
/// other order.
pub proof fn lemma_inverse_of_composite(a: SDiagram, b: SDiagram)
    requires
        composable(a, b),
    ensures
        composable(s_inverse(b), s_inverse(a)),
        s_inverse(s_compose(a, b)) == s_compose(s_inverse(b), s_inverse(a)),
{
    let ab = s_compose(a, b);
    lemma_compose_target(a, b);
    lemma_inverse_boundaries(a);
    lemma_inverse_boundaries(b);
    lemma_inverse_boundaries(ab);
    let la = levels_of(a);
    let lb = levels_of(b);
    let n = la.len() + lb.len();
    let lhs = levels_of(s_inverse(ab));
    let rhs = levels_of(s_inverse(b)) + levels_of(s_inverse(a));
    assert(levels_of(ab) == la + lb);
    assert forall|i: int| 0 <= i < n implies #[trigger] lhs[i] == rhs[i] by {
        let k = n - 1 - i;
        assert(lhs[i].action == inv_move((la + lb)[k].action));
        assert(lhs[i].target == slice(ab, k));
        if i < lb.len() {
            assert((la + lb)[k] == lb[lb.len() - 1 - i]);
            assert(rhs[i] == levels_of(s_inverse(b))[i]);
            assert(slice(ab, k) == slice(b, k - la.len()));
        } else {
            let i2 = i - lb.len();
            assert((la + lb)[k] == la[la.len() - 1 - i2]);
            assert(rhs[i] == levels_of(s_inverse(a))[i2]);
            let k2 = la.len() - 1 - i2;
            if k2 == 0 {
                assert(slice(ab, 0) == src_of(a));
            } else {
                assert(slice(ab, k2) == (la + lb)[k2 - 1].target);
                assert((la + lb)[k2 - 1] == la[k2 - 1]);
            }
        }
    }
    assert(lhs =~= rhs);
}


/// A generator's diagram is well formed when its boundaries are well formed
/// and parallel.
pub proof fn lemma_generator_wf(g: crate::diagram::Generator, s: SDiagram, t: SDiagram)
    requires
        crate::diagram::wf(s),
        crate::diagram::wf(t),
        crate::diagram::globular(s, t),
        sdim(s) < usize::MAX,
    ensures
        crate::diagram::wf(crate::diagram::s_generator(g, s, t)),
{
    let d = crate::diagram::s_generator(g, s, t);
    let l = levels_of(d);
    assert(l.drop_first() =~= Seq::<SLevel>::empty());
    assert(crate::diagram::levels_wf(s, l.drop_first()));
    assert(l[0].target == t);
    assert(crate::diagram::parallel(l[0].target, s));
    assert(crate::diagram::move_ok(l[0].action, sdim(s)));
    assert(crate::diagram::levels_wf(s, l));
    match d {
        SDiagram::Cell(n, src, lv) => {
            assert(n == sdim(s) + 1);
            assert(*src == s);
            assert(lv == l);
        },
        SDiagram::Point(_) => {},
    }
}


// ---------------------------------------------------------------------------
// The same laws for expressions, as `compile` evaluates them (`eval`).

/// The value of an expression that evaluates.
pub open spec fn value(env: Env, e: SExpr) -> SValueD {
    eval(env, e).0.unwrap()
}

/// A well-formed diagram's target has the dimension of its source.
pub proof fn lemma_wf_target_dim(d: SDiagram)
    requires
        wf(d),
        sdim(d) >= 1,
    ensures
        sdim(d) == sdim(src_of(d)) + 1,
        sdim(tgt_of(d)) == sdim(src_of(d)),
{
    let l = levels_of(d);
    if l.len() > 0 {
        crate::diagram::lemma_levels_wf(src_of(d), l);
        assert(wf(l[l.len() - 1].target));
    }
}

/// A composite evaluates through its terms: the first term is evaluated,
/// and the others are composed onto it in order.
pub proof fn lemma_eval_compose(env: Env, terms: Seq<SExpr>, span: Span)
    requires
        terms.len() >= 1,
        eval(env, terms[0]).0 is Some,
        sdim(value(env, terms[0]).diagram) != 0,
    ensures
        eval(env, SExpr::Compose(terms, span)).0 == eval_terms(env, terms, 1, value(env, terms[0]), span).0,
{
}

/// A composite that evaluates has a first term of positive dimension that
/// evaluates.
pub proof fn lemma_eval_compose_some(env: Env, terms: Seq<SExpr>, span: Span)
    requires
        eval(env, SExpr::Compose(terms, span)).0 is Some,
    ensures
        terms.len() >= 1,
        eval(env, terms[0]).0 is Some,
        sdim(value(env, terms[0]).diagram) != 0,
        eval_terms(env, terms, 1, value(env, terms[0]), span).0 is Some,
{
}

/// One step of composing: term `i` is composed onto `acc`.
pub proof fn lemma_eval_terms_step(env: Env, terms: Seq<SExpr>, i: int, acc: SValueD, span: Span)
    requires
        1 <= i < terms.len(),
        eval(env, terms[i]).0 is Some,
        sdim(value(env, terms[i]).diagram) != 0,
        composable(acc.diagram, value(env, terms[i]).diagram),
    ensures
        eval_terms(env, terms, i, acc, span).0 == eval_terms(
            env,
            terms,
            i + 1,
            SValueD {
                diagram: s_compose(acc.diagram, value(env, terms[i]).diagram),
                invertible: acc.invertible && value(env, terms[i]).invertible,
            },
            span,
        ).0,
{
}

/// A step of composing that gives a value composes a term of positive
/// dimension onto `acc`.
pub proof fn lemma_eval_terms_some(env: Env, terms: Seq<SExpr>, i: int, acc: SValueD, span: Span)
    requires
        1 <= i < terms.len(),
        eval_terms(env, terms, i, acc, span).0 is Some,
    ensures
        eval(env, terms[i]).0 is Some,
        sdim(value(env, terms[i]).diagram) != 0,
        composable(acc.diagram, value(env, terms[i]).diagram),
{
}

/// Composing stops after the last term with the accumulated value.
pub proof fn lemma_eval_terms_end(env: Env, terms: Seq<SExpr>, acc: SValueD, span: Span)
    ensures
        eval_terms(env, terms, terms.len() as int, acc, span).0 == Some(acc),
{
}

/// Bracketing does not change a composite: when `a * b * c` evaluates,
/// `(a * b) * c` and `a * (b * c)` evaluate to the same value.
pub proof fn lemma_eval_compose_bracketing(env: Env, a: SExpr, b: SExpr, c: SExpr, span: Span, inner: Span)
    requires
        eval(env, SExpr::Compose(seq![a, b, c], span)).0 is Some,
    ensures
        eval(env, SExpr::Compose(seq![SExpr::Compose(seq![a, b], inner), c], span)).0 == eval(
            env,
            SExpr::Compose(seq![a, b, c], span),
        ).0,
        eval(env, SExpr::Compose(seq![a, SExpr::Compose(seq![b, c], inner)], span)).0 == eval(
            env,
            SExpr::Compose(seq![a, b, c], span),
        ).0,
{
    let abc = seq![a, b, c];
    lemma_eval_compose_some(env, abc, span);
    assert(abc[0] == a && abc[1] == b && abc[2] == c);
    let va = value(env, a);
    lemma_eval_terms_some(env, abc, 1, va, span);
    let vb = value(env, b);
    let ab = SValueD { diagram: s_compose(va.diagram, vb.diagram), invertible: va.invertible && vb.invertible };
    lemma_eval_terms_step(env, abc, 1, va, span);
    lemma_eval_terms_some(env, abc, 2, ab, span);
    let vc = value(env, c);
    let abc_v = SValueD { diagram: s_compose(ab.diagram, vc.diagram), invertible: ab.invertible && vc.invertible };
    lemma_eval_terms_step(env, abc, 2, ab, span);
    lemma_eval_terms_end(env, abc, abc_v, span);
    lemma_eval_compose(env, abc, span);
    assert(eval(env, SExpr::Compose(abc, span)).0 == Some(abc_v));
    lemma_compose_associative(va.diagram, vb.diagram, vc.diagram);
    // (a * b) * c
    let x = seq![a, b];
    assert(x[0] == a && x[1] == b);
    lemma_eval_terms_end(env, x, ab, inner);
    lemma_eval_terms_step(env, x, 1, va, inner);
    lemma_eval_compose(env, x, inner);
    let ex = SExpr::Compose(x, inner);
    assert(value(env, ex) == ab);
    let y = seq![ex, c];
    assert(y[0] == ex && y[1] == c);
    lemma_eval_terms_step(env, y, 1, ab, span);
    lemma_eval_terms_end(env, y, abc_v, span);
    lemma_eval_compose(env, y, span);
    // a * (b * c)
    let z = seq![b, c];
    assert(z[0] == b && z[1] == c);
    lemma_compose_target(vb.diagram, vc.diagram);
    let bc = SValueD { diagram: s_compose(vb.diagram, vc.diagram), invertible: vb.invertible && vc.invertible };
    lemma_eval_terms_step(env, z, 1, vb, inner);
    lemma_eval_terms_end(env, z, bc, inner);
    lemma_eval_compose(env, z, inner);
    let ez = SExpr::Compose(z, inner);
    assert(value(env, ez) == bc);
    let w = seq![a, ez];
    assert(w[0] == a && w[1] == ez);
    lemma_eval_terms_step(env, w, 1, va, span);
    let a_bc = SValueD { diagram: s_compose(va.diagram, bc.diagram), invertible: va.invertible && bc.invertible };
    lemma_eval_terms_end(env, w, a_bc, span);
    lemma_eval_compose(env, w, span);
    assert(a_bc == abc_v);
}

/// Identities are units: when `f` evaluates to a well-formed diagram of
/// positive dimension, and `x` and `y` to its source and target,
/// `id(x) * f` and `f * id(y)` evaluate to the value of `f`.
pub proof fn lemma_eval_identity_units(env: Env, f: SExpr, x: SExpr, y: SExpr, span: Span, s1: Span, s2: Span)
    requires
        eval(env, f).0 is Some,
        wf(value(env, f).diagram),
        sdim(value(env, f).diagram) >= 1,
        eval(env, x).0 is Some,
        value(env, x).diagram == src_of(value(env, f).diagram),
        eval(env, y).0 is Some,
        value(env, y).diagram == tgt_of(value(env, f).diagram),
    ensures
        eval(env, SExpr::Compose(seq![SExpr::Identity(Box::new(x), s1), f], span)).0 == eval(env, f).0,
        eval(env, SExpr::Compose(seq![f, SExpr::Identity(Box::new(y), s2)], span)).0 == eval(env, f).0,
{
    let v = value(env, f);
    lemma_wf_target_dim(v.diagram);
    lemma_identity_left_unit(v.diagram);
    lemma_identity_right_unit(v.diagram);
    let ix = SExpr::Identity(Box::new(x), s1);
    let iy = SExpr::Identity(Box::new(y), s2);
    let idx = SValueD { diagram: s_identity(src_of(v.diagram)), invertible: true };
    let idy = SValueD { diagram: s_identity(tgt_of(v.diagram)), invertible: true };
    assert(eval(env, ix).0 == Some(idx));
    assert(eval(env, iy).0 == Some(idy));
    let l = seq![ix, f];
    assert(l[0] == ix && l[1] == f);
    lemma_eval_terms_step(env, l, 1, idx, span);
    lemma_eval_terms_end(env, l, SValueD { diagram: v.diagram, invertible: v.invertible }, span);
    lemma_eval_compose(env, l, span);
    let r = seq![f, iy];
    assert(r[0] == f && r[1] == iy);
    lemma_eval_terms_step(env, r, 1, v, span);
    lemma_eval_terms_end(env, r, SValueD { diagram: v.diagram, invertible: v.invertible }, span);
    lemma_eval_compose(env, r, span);
    assert(SValueD { diagram: v.diagram, invertible: v.invertible } == v);
}

/// Inverting swaps source and target, and inverting twice gives back the
/// diagram: when `inv(e)` evaluates, its source is the target of `e` and its
/// target the source of `e`, and `inv(inv(e))` evaluates to `e`'s diagram.
pub proof fn lemma_eval_inverse(env: Env, e: SExpr, s1: Span, s2: Span)
    requires
        eval(env, SExpr::Inverse(Box::new(e), s1)).0 is Some,
    ensures
        eval(env, e).0 is Some,
        src_of(value(env, SExpr::Inverse(Box::new(e), s1)).diagram) == tgt_of(value(env, e).diagram),
        tgt_of(value(env, SExpr::Inverse(Box::new(e), s1)).diagram) == src_of(value(env, e).diagram),
        eval(env, SExpr::Inverse(Box::new(SExpr::Inverse(Box::new(e), s1)), s2)).0 == Some(
            SValueD { diagram: value(env, e).diagram, invertible: true },
        ),
{
    let d = value(env, e).diagram;
    lemma_inverse_boundaries(d);
    lemma_inverse_involutive(d);
}


/// An identity is one dimension higher than what it is the identity on,
/// with that as both its source and its target, and it is invertible.
pub proof fn lemma_eval_identity(env: Env, e: SExpr, span: Span)
    requires
        eval(env, SExpr::Identity(Box::new(e), span)).0 is Some,
    ensures
        eval(env, e).0 is Some,
        sdim(value(env, SExpr::Identity(Box::new(e), span)).diagram) == sdim(value(env, e).diagram) + 1,
        src_of(value(env, SExpr::Identity(Box::new(e), span)).diagram) == value(env, e).diagram,
        tgt_of(value(env, SExpr::Identity(Box::new(e), span)).diagram) == value(env, e).diagram,
        value(env, SExpr::Identity(Box::new(e), span)).invertible,
{
}

/// A composite of two terms goes from the source of the first to the
/// target of the second, which meet in the middle, and is invertible
/// exactly when both terms are.
pub proof fn lemma_eval_compose_boundaries(env: Env, a: SExpr, b: SExpr, span: Span)
    requires
        eval(env, SExpr::Compose(seq![a, b], span)).0 is Some,
    ensures
        eval(env, a).0 is Some,
        eval(env, b).0 is Some,
        tgt_of(value(env, a).diagram) == src_of(value(env, b).diagram),
        src_of(value(env, SExpr::Compose(seq![a, b], span)).diagram) == src_of(value(env, a).diagram),
        tgt_of(value(env, SExpr::Compose(seq![a, b], span)).diagram) == tgt_of(value(env, b).diagram),
        sdim(value(env, SExpr::Compose(seq![a, b], span)).diagram) == sdim(value(env, a).diagram),
        value(env, SExpr::Compose(seq![a, b], span)).invertible == (value(env, a).invertible && value(
            env,
            b,
        ).invertible),
{
    let ab = seq![a, b];
    lemma_eval_compose_some(env, ab, span);
    assert(ab[0] == a && ab[1] == b);
    let va = value(env, a);
    lemma_eval_terms_some(env, ab, 1, va, span);
    let vb = value(env, b);
    lemma_eval_terms_step(env, ab, 1, va, span);
    let v = SValueD { diagram: s_compose(va.diagram, vb.diagram), invertible: va.invertible && vb.invertible };
    lemma_eval_terms_end(env, ab, v, span);
    lemma_eval_compose(env, ab, span);
    lemma_compose_target(va.diagram, vb.diagram);
}

// ---------------------------------------------------------------------------
// Contraction and cancellation.

/// Inverting an application swaps what it consumes and what it produces, so
/// an application and its inverse undo each other in place.
pub proof fn lemma_inverse_app_undoes(a: App)
    ensures
        inv_app(a).input == a.output,
        inv_app(a).output == a.input,
        undoes(a, inv_app(a)),
        undoes(inv_app(a), a),
{
}

/// A cell followed by its inverse cancels: for a one-level diagram `x` that
/// applies a single generator, `x * inv(x)` contracts at height 0 to the
/// identity on the source of `x`, and `inv(x) * x` to the identity on its
/// target.
pub proof fn lemma_cell_then_inverse_cancels(x: SDiagram)
    requires
        wf(x),
        sdim(x) >= 1,
        width(x) == 1,
        single_app(levels_of(x)[0].action) is Some,
    ensures
        contract_at(s_compose(x, s_inverse(x)), 0, Bias::Same) == Some(s_identity(src_of(x))),
        contract_at(s_compose(s_inverse(x), x), 0, Bias::Same) == Some(s_identity(tgt_of(x))),
{
    let a = single_app(levels_of(x)[0].action).unwrap();
    lemma_inverse_app_undoes(a);
    lemma_inverse_boundaries(x);
    lemma_wf_target_dim(x);
    let l = levels_of(x);
    let il = levels_of(s_inverse(x));
    assert(il.len() == 1);
    assert(il[0].action == inv_move(l[0].action));
    assert(single_app(il[0].action) == Some(inv_app(a))) by {
        match l[0].action {
            SMove::Apply(apps) => {
                assert(apps.len() == 1);
            },
            _ => {},
        }
    }
    let xi = s_compose(x, s_inverse(x));
    let lx = levels_of(xi);
    assert(lx =~= l + il);
    assert(lx[0] == l[0] && lx[1] == il[0]);
    assert(slice(xi, 0) == src_of(x));
    assert(slice(xi, 2) == il[0].target);
    assert(lx.subrange(0, 0) + lx.subrange(2, 2) =~= Seq::<SLevel>::empty());
    let ix = s_compose(s_inverse(x), x);
    let ly = levels_of(ix);
    assert(ly =~= il + l);
    assert(ly[0] == il[0] && ly[1] == l[0]);
    assert(slice(ix, 0) == tgt_of(x));
    assert(slice(ix, 2) == l[0].target);
    assert(ly.subrange(0, 0) + ly.subrange(2, 2) =~= Seq::<SLevel>::empty());
}

/// A contraction keeps the boundary: the contracted diagram has the same
/// dimension, source and target; a cancellation (unbiased) removes two
/// levels, and a biased merge turns two levels into one.
pub proof fn lemma_contraction_keeps_boundary(d: SDiagram, h: int, bias: Bias)
    requires
        contract_at(d, h, bias) is Some,
    ensures
        sdim(contract_at(d, h, bias).unwrap()) == sdim(d),
        src_of(contract_at(d, h, bias).unwrap()) == src_of(d),
        tgt_of(contract_at(d, h, bias).unwrap()) == tgt_of(d),
        bias == Bias::Same ==> width(contract_at(d, h, bias).unwrap()) + 2 == width(d),
        width(contract_at(d, h, bias).unwrap()) + 2 == width(d) || width(contract_at(d, h, bias).unwrap()) + 1
            == width(d),
{
    let r = contract_at(d, h, bias).unwrap();
    let l = levels_of(d);
    let n = l.len() as int;
    let rl = levels_of(r);
    let a = single_app(l[h].action).unwrap();
    let b = single_app(l[h + 1].action).unwrap();
    if undoes(a, b) && slice(d, h) == slice(d, h + 2) {
        assert(rl =~= l.subrange(0, h) + l.subrange(h + 2, n));
        if h + 2 < n {
            assert(rl[rl.len() - 1] == l[n - 1]);
        } else if h > 0 {
            assert(rl[rl.len() - 1] == l[h - 1]);
        }
    } else {
        let apps = merged(a, b, bias).unwrap();
        let lv = SLevel { action: SMove::Apply(apps), target: l[h + 1].target };
        assert(rl =~= l.subrange(0, h) + seq![lv] + l.subrange(h + 2, n));
        if h + 2 < n {
            assert(rl[rl.len() - 1] == l[n - 1]);
        } else {
            assert(rl[rl.len() - 1] == lv);
        }
    }
}

/// The automatic proof search finds the lowest height whose unbiased
/// contraction gives the target: if some height contracts `d` to `t`, the
/// search finds one, the lowest, and if the search finds nothing, no height
/// contracts `d` to `t`.
pub proof fn lemma_contraction_to_lowest(d: SDiagram, t: SDiagram)
    ensures
        match contraction_to(d, t, 0) {
            Some(k) => 0 <= k && contract_at(d, k, Bias::Same) == Some(t) && forall|j: int|
                0 <= j < k ==> contract_at(d, j, Bias::Same) != Some(t),
            None => forall|h: int| 0 <= h ==> contract_at(d, h, Bias::Same) != Some(t),
        },
{
    lemma_contraction_to_from(d, t, 0);
}

proof fn lemma_contraction_to_from(d: SDiagram, t: SDiagram, s: int)
    requires
        0 <= s,
    ensures
        match contraction_to(d, t, s) {
            Some(k) => s <= k && contract_at(d, k, Bias::Same) == Some(t) && forall|j: int|
                s <= j < k ==> contract_at(d, j, Bias::Same) != Some(t),
            None => forall|h: int| s <= h ==> contract_at(d, h, Bias::Same) != Some(t),
        },
    decreases width(d) + 1 - s,
{
    if s + 1 < width(d) && contract_at(d, s, Bias::Same) != Some(t) {
        lemma_contraction_to_from(d, t, s + 1);
    }
}

/// The contraction of `contract(expr, bias)` is the lowest height that
/// contracts: if some height contracts `d` with the bias, the lowest such
/// height and its result are found, and if none is found, no height contracts.
pub proof fn lemma_first_contraction_lowest(d: SDiagram, bias: Bias)
    ensures
        match first_contraction(d, bias, 0) {
            Some((k, r)) => 0 <= k && contract_at(d, k, bias) == Some(r) && forall|j: int|
                0 <= j < k ==> contract_at(d, j, bias) is None,
            None => forall|h: int| 0 <= h ==> contract_at(d, h, bias) is None,
        },
{
    lemma_first_contraction_from(d, bias, 0);
}

proof fn lemma_first_contraction_from(d: SDiagram, bias: Bias, s: int)
    requires
        0 <= s,
    ensures
        match first_contraction(d, bias, s) {
            Some((k, r)) => s <= k && contract_at(d, k, bias) == Some(r) && forall|j: int|
                s <= j < k ==> contract_at(d, j, bias) is None,
            None => forall|h: int| s <= h ==> contract_at(d, h, bias) is None,
        },
    decreases width(d) + 1 - s,
{
    if s + 1 < width(d) && contract_at(d, s, bias) is None {
        lemma_first_contraction_from(d, bias, s + 1);
    }
}

// ---------------------------------------------------------------------------
// Attachment.

/// Matching a source in a 1-diagram finds its lowest occurrence: if `s`
/// occurs in `t`, the lowest height where it occurs is found, and if nothing
/// is found, it occurs nowhere.
pub proof fn lemma_find_occurrence_lowest(t: SDiagram, s: SDiagram)
    ensures
        match find_occurrence(t, s, 0) {
            Some(k) => occurs_at(t, s, k) && forall|j: int| 0 <= j < k ==> !occurs_at(t, s, j),
            None => forall|k: int| !occurs_at(t, s, k),
        },
{
    lemma_find_occurrence_from(t, s, 0);
}

proof fn lemma_find_occurrence_from(t: SDiagram, s: SDiagram, b: int)
    requires
        0 <= b,
    ensures
        match find_occurrence(t, s, b) {
            Some(k) => b <= k && occurs_at(t, s, k) && forall|j: int| b <= j < k ==> !occurs_at(t, s, j),
            None => forall|k: int| b <= k ==> !occurs_at(t, s, k),
        },
    decreases width(t) + 1 - b,
{
    if b + width(s) <= width(t) && !occurs_at(t, s, b) {
        lemma_find_occurrence_from(t, s, b + 1);
    }
}

/// What attaching does: on a 1-diagram, the source of `v` is matched at its
/// lowest occurrence in `t`, which the target of `v` replaces, and one level
/// is added per level of `v`; above dimension 1, `v`'s source must be `t`
/// itself, and its levels and target are taken as they are.
pub proof fn lemma_attach_replaces_occurrence(t: SDiagram, v: SDiagram)
    ensures
        s_attach(t, v) matches Some((ls, n)) ==> {
            &&& sdim(v) == sdim(t) + 1
            &&& ls.len() == width(v)
            &&& (sdim(t) == 1 ==> exists|k: int|
                #![trigger occurs_at(t, src_of(v), k)]
                occurs_at(t, src_of(v), k) && (forall|j: int| 0 <= j < k ==> !occurs_at(t, src_of(v), j)) && n
                    == replaced(t, k, width(src_of(v)) as int, tgt_of(v)))
            &&& (sdim(t) > 1 ==> src_of(v) == t && ls == levels_of(v) && n == tgt_of(v))
        },
{
    lemma_find_occurrence_lowest(t, src_of(v));
    if let Some(k) = find_occurrence(t, src_of(v), 0) {
        assert(occurs_at(t, src_of(v), k));
    }
}

// ---------------------------------------------------------------------------
// Constructed proofs.

/// The top slice of a proof built from `start` with `levels`: the target of
/// its last level, or `start` when it has none.
pub open spec fn top_of(start: SDiagram, levels: Seq<SLevel>) -> SDiagram {
    if levels.len() == 0 {
        start
    } else {
        levels.last().target
    }
}

/// Attaching leaves the proof ending at the new top slice.
proof fn lemma_attach_top(t: SDiagram, v: SDiagram, start: SDiagram, levels: Seq<SLevel>)
    requires
        top_of(start, levels) == t,
        s_attach(t, v) is Some,
    ensures
        top_of(start, levels + s_attach(t, v).unwrap().0) == s_attach(t, v).unwrap().1,
{
    let (ls, top) = s_attach(t, v).unwrap();
    if ls.len() > 0 {
        assert((levels + ls).last() == ls.last());
        if sdim(t) == 1 {
            let k = find_occurrence(t, src_of(v), 0).unwrap();
            let m = width(src_of(v)) as int;
            assert(ls == whiskered(t, k, m, levels_of(v)));
            assert(ls.last().target == crate::diagram::replaced(t, k, m, levels_of(v).last().target));
        }
    } else {
        assert(levels + ls =~= levels);
        if sdim(t) == 1 {
            lemma_find_occurrence_lowest(t, src_of(v));
            let k = find_occurrence(t, src_of(v), 0).unwrap();
            let s0 = src_of(v);
            let m = width(s0) as int;
            let l = levels_of(t);
            assert(width(v) == 0);
            assert(tgt_of(v) == s0);
            assert(l.subrange(k, k + m) == levels_of(s0));
            assert(l.subrange(0, k) + levels_of(s0) + l.subrange(k + m, l.len() as int) =~= l);
            match t {
                SDiagram::Cell(n, sb, lt) => {
                    assert(crate::diagram::replaced(t, k, m, s0) == t);
                },
                _ => {},
            }
        }
    }
}

proof fn lemma_run_steps_top(env: Env, start: SDiagram, cur: SDiagram, levels: Seq<SLevel>, steps: Seq<SProofStep>, i: int)
    requires
        top_of(start, levels) == cur,
    ensures
        run_steps(env, cur, levels, steps, i).0 matches Some((ls, top)) ==> top_of(start, ls) == top,
    decreases steps.len() - i,
{
    if 0 <= i < steps.len() {
        match steps[i] {
            SProofStep::Attach(e, span) => {
                let r = eval(env, e);
                if let Some(v) = r.0 {
                    if let Some((ls, top)) = s_attach(cur, v.diagram) {
                        lemma_attach_top(cur, v.diagram, start, levels);
                        lemma_run_steps_top(env, start, top, levels + ls, steps, i + 1);
                    }
                }
            },
            SProofStep::Contract(bias, span) => {
                if let Some((h, c)) = first_contraction(cur, bias, 0) {
                    if 0 <= h <= usize::MAX {
                        let lv = SLevel { action: SMove::Contract(h as usize, bias, false), target: c };
                        assert(levels.push(lv).last() == lv);
                        lemma_run_steps_top(env, start, c, levels.push(lv), steps, i + 1);
                    }
                }
            },
        }
    }
}

/// A constructed proof goes from its source to its target: it is one
/// dimension above them, its source is the value of the declared source
/// and its target the value of the declared target.
pub proof fn lemma_proof_spans_source_to_target(env: Env, decl: SProofDecl)
    requires
        proof_diagram(env, decl).0 is Some,
    ensures
        eval(env, decl.source).0 is Some,
        eval(env, decl.target).0 is Some,
        sdim(proof_diagram(env, decl).0.unwrap()) == sdim(value(env, decl.source).diagram) + 1,
        src_of(proof_diagram(env, decl).0.unwrap()) == value(env, decl.source).diagram,
        tgt_of(proof_diagram(env, decl).0.unwrap()) == value(env, decl.target).diagram,
{
    let a = value(env, decl.source).diagram;
    let p = proof_diagram(env, decl).0.unwrap();
    match decl.body {
        None => {
            let h = contraction_to(a, value(env, decl.target).diagram, 0).unwrap();
            assert(p == s_contraction(a, h, Bias::Same, value(env, decl.target).diagram));
        },
        Some(steps) => {
            lemma_run_steps_top(env, a, a, seq![], steps, 0);
            let (levels, top) = run_steps(env, a, seq![], steps, 0).0.unwrap();
            assert(p == SDiagram::Cell((sdim(a) + 1) as usize, Box::new(a), levels));
            assert(top_of(a, levels) == top);
        },
    }
}

/// A declared cell goes from its source to its target: with neither, it is
/// a point with the given generator identifier; with both, it is one
/// dimension above them, its source and target are their values, which are
/// parallel, and it is well formed when they are.
pub proof fn lemma_cell_spans_source_to_target(env: Env, decl: SCellDecl, id: usize)
    requires
        cell_diagram(env, decl, id).0 is Some,
    ensures
        decl.source is None ==> decl.target is None && cell_diagram(env, decl, id).0 == Some(
            SDiagram::Point(crate::diagram::Generator { id, dimension: 0 }),
        ),
        decl.source matches Some(s) ==> decl.target matches Some(t) && {
            let c = cell_diagram(env, decl, id).0.unwrap();
            &&& eval(env, s).0 is Some
            &&& eval(env, t).0 is Some
            &&& sdim(c) == sdim(value(env, s).diagram) + 1
            &&& src_of(c) == value(env, s).diagram
            &&& tgt_of(c) == value(env, t).diagram
            &&& crate::diagram::globular(value(env, s).diagram, value(env, t).diagram)
            &&& (wf(value(env, s).diagram) && wf(value(env, t).diagram) ==> wf(c))
        },
{
    if let (Some(s), Some(t)) = (decl.source, decl.target) {
        let a = value(env, s).diagram;
        let b = value(env, t).diagram;
        let g = crate::diagram::Generator { id, dimension: (sdim(a) + 1) as usize };
        assert(cell_diagram(env, decl, id).0 == Some(crate::diagram::s_generator(g, a, b)));
        if wf(a) && wf(b) {
            lemma_generator_wf(g, a, b);
        }
    }
}

} // verus!
