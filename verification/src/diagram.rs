//! The diagram kernel: globular diagrams built from generators, with
//! identities, composition, inverses, whiskered attachment and contraction.
//!
//! An n-diagram (n > 0) is a source (n-1)-diagram and a list of levels; each
//! level rewrites the previous slice, either by applying generators side by
//! side (`Apply`) or by a contraction of two heights (`Contract`), and records
//! the slice it produces. Slices are stored, so every boundary is read off
//! the data. A 0-diagram is a single generator.
use vstd::prelude::*;

use crate::ast::Bias;

verus! {

broadcast use vstd::std_specs::vec::group_vec_axioms;

/// A generator of the signature: its identifier and its dimension.
#[derive(Debug, Clone, Copy, PartialEq, Eq, Structural)]
pub struct Generator {
    pub id: usize,
    pub dimension: usize,
}

impl Generator {
    pub fn new(id: usize, dimension: usize) -> (r: Generator)
        ensures
            r == (Generator { id, dimension }),
    {
        Generator { id, dimension }
    }
}

/// One application of a generator (or of its inverse) inside a level. `gap`
/// counts the untouched elements of the slice between the previous
/// application (or the start) and this one; `input` and `output` count the
/// elements it consumes and produces.
#[derive(Debug, Clone, Copy, PartialEq, Eq, Structural)]
pub struct App {
    pub generator: Generator,
    pub inverse: bool,
    pub gap: usize,
    pub input: usize,
    pub output: usize,
}

/// How a level rewrites the previous slice.
#[derive(Debug)]
pub enum Move {
    Apply(Vec<App>),
    Contract { height: usize, bias: Bias, expand: bool },
}

/// A level: a move and the slice it produces.
#[derive(Debug)]
pub struct Level {
    pub action: Move,
    pub target: Diagram,
}

/// A diagram: a point, or a source with levels (its dimension is stored).
#[derive(Debug)]
pub enum Diagram {
    Point(Generator),
    Cell { dimension: usize, source: Box<Diagram>, levels: Vec<Level> },
}

pub enum SMove {
    Apply(Seq<App>),
    Contract(usize, Bias, bool),
}

pub struct SLevel {
    pub action: SMove,
    pub target: SDiagram,
}

/// The mathematical content of a diagram.
pub enum SDiagram {
    Point(Generator),
    Cell(usize, Box<SDiagram>, Seq<SLevel>),
}

pub open spec fn move_view(m: Move) -> SMove {
    match m {
        Move::Apply(v) => SMove::Apply(v@),
        Move::Contract { height, bias, expand } => SMove::Contract(height, bias, expand),
    }
}

pub open spec fn dview(d: Diagram) -> SDiagram
    decreases d, 1nat,
{
    match d {
        Diagram::Point(g) => SDiagram::Point(g),
        Diagram::Cell { dimension, source, levels } => SDiagram::Cell(
            dimension,
            Box::new(dview(*source)),
            lviews(levels@),
        ),
    }
}

pub open spec fn lviews(s: Seq<Level>) -> Seq<SLevel>
    decreases s, 0nat,
{
    if s.len() == 0 {
        Seq::empty()
    } else {
        seq![SLevel { action: move_view(s[0].action), target: dview(s[0].target) }] + lviews(s.drop_first())
    }
}

impl View for Diagram {
    type V = SDiagram;

    open spec fn view(&self) -> SDiagram {
        dview(*self)
    }
}

impl View for Level {
    type V = SLevel;

    open spec fn view(&self) -> SLevel {
        SLevel { action: move_view(self.action), target: dview(self.target) }
    }
}

pub proof fn lemma_lviews(s: Seq<Level>)
    ensures
        lviews(s).len() == s.len(),
        forall|i: int| 0 <= i < s.len() ==> #[trigger] lviews(s)[i] == s[i]@,
    decreases s.len(),
{
    if s.len() > 0 {
        lemma_lviews(s.drop_first());
        assert forall|i: int| 0 <= i < s.len() implies #[trigger] lviews(s)[i] == s[i]@ by {
            if i > 0 {
                assert(lviews(s)[i] == lviews(s.drop_first())[i - 1]);
            }
        }
    }
}

pub proof fn lemma_lviews_push(s: Seq<Level>, l: Level)
    ensures
        lviews(s.push(l)) == lviews(s).push(l@),
{
    lemma_lviews(s);
    lemma_lviews(s.push(l));
    assert(lviews(s.push(l)) =~= lviews(s).push(l@));
}

// ---------------------------------------------------------------------------
// Shape.

pub open spec fn sdim(d: SDiagram) -> nat {
    match d {
        SDiagram::Point(_) => 0,
        SDiagram::Cell(n, _, _) => n as nat,
    }
}

pub open spec fn levels_of(d: SDiagram) -> Seq<SLevel> {
    match d {
        SDiagram::Cell(_, _, l) => l,
        SDiagram::Point(_) => Seq::empty(),
    }
}

/// The source of a positive-dimensional diagram.
pub open spec fn src_of(d: SDiagram) -> SDiagram {
    match d {
        SDiagram::Cell(_, s, _) => *s,
        SDiagram::Point(_) => d,
    }
}

/// The `i`-th slice: the source for `i == 0`, else the slice after level `i - 1`.
pub open spec fn slice(d: SDiagram, i: int) -> SDiagram {
    if i == 0 {
        src_of(d)
    } else {
        levels_of(d)[i - 1].target
    }
}

/// The target of a positive-dimensional diagram: its last slice.
pub open spec fn tgt_of(d: SDiagram) -> SDiagram {
    slice(d, levels_of(d).len() as int)
}

/// The number of levels of a positive-dimensional diagram (0 for a point).
pub open spec fn width(d: SDiagram) -> nat {
    levels_of(d).len()
}

/// Whether a slice may stand beside the source `s` in one diagram: the same
/// dimension, and (above dimension 0) the same source and target.
pub open spec fn parallel(x: SDiagram, s: SDiagram) -> bool {
    sdim(x) == sdim(s) && (sdim(s) == 0 || (src_of(x) == src_of(s) && tgt_of(x) == tgt_of(s)))
}

pub open spec fn move_ok(m: SMove, slice_dim: nat) -> bool {
    match m {
        SMove::Apply(apps) => apps.len() > 0 && (slice_dim == 0 ==> apps.len() == 1 && apps[0].gap == 0),
        SMove::Contract(_, _, _) => slice_dim >= 1,
    }
}

/// Well-formedness: stored dimensions are right, and every slice is
/// well-formed and parallel to the source.
pub open spec fn wf(d: SDiagram) -> bool
    decreases d, 1nat,
{
    match d {
        SDiagram::Point(_) => true,
        SDiagram::Cell(n, s, l) => n == sdim(*s) + 1 && wf(*s) && levels_wf(*s, l),
    }
}

pub open spec fn levels_wf(s: SDiagram, l: Seq<SLevel>) -> bool
    decreases l, 0nat,
{
    if l.len() == 0 {
        true
    } else {
        wf(l[0].target) && parallel(l[0].target, s) && move_ok(l[0].action, sdim(s)) && levels_wf(
            s,
            l.drop_first(),
        )
    }
}

pub proof fn lemma_levels_wf(s: SDiagram, l: Seq<SLevel>)
    ensures
        levels_wf(s, l) <==> (forall|i: int|
            0 <= i < l.len() ==> wf(#[trigger] l[i].target) && parallel(l[i].target, s) && move_ok(
                l[i].action,
                sdim(s),
            )),
    decreases l.len(),
{
    if l.len() > 0 {
        lemma_levels_wf(s, l.drop_first());
        if levels_wf(s, l) {
            assert forall|i: int| 0 <= i < l.len() implies wf(#[trigger] l[i].target) && parallel(l[i].target, s)
                && move_ok(l[i].action, sdim(s)) by {
                if i > 0 {
                    assert(l[i] == l.drop_first()[i - 1]);
                }
            }
        }
        if forall|i: int|
            0 <= i < l.len() ==> wf(#[trigger] l[i].target) && parallel(l[i].target, s) && move_ok(
                l[i].action,
                sdim(s),
            ) {
            assert forall|i: int| 0 <= i < l.len() - 1 implies wf(#[trigger] l.drop_first()[i].target)
                && parallel(l.drop_first()[i].target, s) && move_ok(l.drop_first()[i].action, sdim(s)) by {
                assert(l.drop_first()[i] == l[i + 1]);
            }
        }
    }
}

// ---------------------------------------------------------------------------
// Constructions.

/// The identity on `d`: one dimension up, with no levels.
pub open spec fn s_identity(d: SDiagram) -> SDiagram {
    SDiagram::Cell((sdim(d) + 1) as usize, Box::new(d), seq![])
}

/// The diagram of a generator with source `s` and target `t`.
pub open spec fn s_generator(g: Generator, s: SDiagram, t: SDiagram) -> SDiagram {
    SDiagram::Cell(
        (sdim(s) + 1) as usize,
        Box::new(s),
        seq![
            SLevel {
                action: SMove::Apply(
                    seq![App { generator: g, inverse: false, gap: 0, input: width(s) as usize, output: width(t) as usize }],
                ),
                target: t,
            },
        ],
    )
}

/// Whether `s` and `t` can bound one cell: same dimension and, above
/// dimension 0, the same source and target.
pub open spec fn globular(s: SDiagram, t: SDiagram) -> bool {
    parallel(t, s)
}

/// Composition of two diagrams of the same positive dimension along the
/// target of the first and the source of the second.
pub open spec fn s_compose(a: SDiagram, b: SDiagram) -> SDiagram {
    SDiagram::Cell(sdim(a) as usize, Box::new(src_of(a)), levels_of(a) + levels_of(b))
}

pub open spec fn composable(a: SDiagram, b: SDiagram) -> bool {
    sdim(a) >= 1 && sdim(a) == sdim(b) && tgt_of(a) == src_of(b)
}

pub open spec fn inv_app(a: App) -> App {
    App { generator: a.generator, inverse: !a.inverse, gap: a.gap, input: a.output, output: a.input }
}

pub open spec fn inv_move(m: SMove) -> SMove {
    match m {
        SMove::Apply(apps) => SMove::Apply(Seq::new(apps.len(), |i: int| inv_app(apps[i]))),
        SMove::Contract(h, b, e) => SMove::Contract(h, b, !e),
    }
}

/// The inverse of a positive-dimensional diagram: the levels in reverse order,
/// each move inverted, from the target back to the source.
pub open spec fn s_inverse(d: SDiagram) -> SDiagram {
    let l = levels_of(d);
    SDiagram::Cell(
        sdim(d) as usize,
        Box::new(tgt_of(d)),
        Seq::new(
            l.len(),
            |i: int| SLevel { action: inv_move(l[l.len() - 1 - i].action), target: slice(d, l.len() - 1 - i) },
        ),
    )
}

// ---------------------------------------------------------------------------
// Attachment.

/// The 1-diagram `t` with `m` levels from height `k` replaced by the levels of `w`.
pub open spec fn replaced(t: SDiagram, k: int, m: int, w: SDiagram) -> SDiagram {
    let l = levels_of(t);
    SDiagram::Cell(sdim(t) as usize, Box::new(src_of(t)), l.subrange(0, k) + levels_of(w) + l.subrange(k + m, l.len() as int))
}

/// A move shifted `k` places along the slice.
pub open spec fn whisker_move(m: SMove, k: nat) -> SMove {
    match m {
        SMove::Apply(apps) => SMove::Apply(
            apps.update(
                0,
                App {
                    generator: apps[0].generator,
                    inverse: apps[0].inverse,
                    gap: (apps[0].gap + k) as usize,
                    input: apps[0].input,
                    output: apps[0].output,
                },
            ),
        ),
        SMove::Contract(h, b, e) => SMove::Contract((h + k) as usize, b, e),
    }
}

pub open spec fn whiskerable(m: SMove, k: nat) -> bool {
    match m {
        SMove::Apply(apps) => apps.len() > 0 && apps[0].gap + k <= usize::MAX,
        SMove::Contract(h, _, _) => h + k <= usize::MAX,
    }
}

/// The levels of `v` placed at height `k` of the 1-diagram `t`, over `m` levels.
pub open spec fn whiskered(t: SDiagram, k: int, m: int, v: Seq<SLevel>) -> Seq<SLevel> {
    Seq::new(
        v.len(),
        |i: int| SLevel { action: whisker_move(v[i].action, k as nat), target: replaced(t, k, m, v[i].target) },
    )
}

/// Whether the 1-diagram `s` occurs in the 1-diagram `t` at height `k`,
/// starting from the same point.
pub open spec fn occurs_at(t: SDiagram, s: SDiagram, k: int) -> bool {
    &&& 0 <= k
    &&& k + width(s) <= width(t)
    &&& levels_of(t).subrange(k, k + width(s)) == levels_of(s)
    &&& slice(t, k) == src_of(s)
}

/// The lowest height from `k` up at which `s` occurs in `t`.
pub open spec fn find_occurrence(t: SDiagram, s: SDiagram, k: int) -> Option<int>
    decreases width(t) + 1 - k,
{
    if k < 0 || k + width(s) > width(t) {
        None
    } else if occurs_at(t, s, k) {
        Some(k)
    } else {
        find_occurrence(t, s, k + 1)
    }
}

pub proof fn lemma_find_occurrence(t: SDiagram, s: SDiagram, k0: int)
    ensures
        match find_occurrence(t, s, k0) {
            Some(k) => k0 <= k && occurs_at(t, s, k),
            None => true,
        },
    decreases width(t) + 1 - k0,
{
    if !(k0 < 0 || k0 + width(s) > width(t)) && !occurs_at(t, s, k0) {
        lemma_find_occurrence(t, s, k0 + 1);
    }
}

/// Attaching `v` (one dimension above `t`) to `t`: the levels to add on top of
/// `t` and the new top slice. On a 1-diagram, `v`'s source is matched at its
/// lowest occurrence and `v` is whiskered into place; above, `v`'s source must
/// be `t` itself.
pub open spec fn s_attach(t: SDiagram, v: SDiagram) -> Option<(Seq<SLevel>, SDiagram)> {
    if sdim(v) != sdim(t) + 1 || sdim(t) == 0 || sdim(src_of(v)) != sdim(t) {
        None
    } else if sdim(t) == 1 {
        let s = src_of(v);
        match find_occurrence(t, s, 0) {
            Some(k) => {
                if forall|i: int| 0 <= i < width(v) ==> whiskerable(#[trigger] levels_of(v)[i].action, k as nat) {
                    Some((whiskered(t, k, width(s) as int, levels_of(v)), replaced(t, k, width(s) as int, tgt_of(v))))
                } else {
                    None
                }
            },
            None => None,
        }
    } else if src_of(v) == t {
        Some((levels_of(v), tgt_of(v)))
    } else {
        None
    }
}

// ---------------------------------------------------------------------------
// Contraction.

pub open spec fn single_app(m: SMove) -> Option<App> {
    match m {
        SMove::Apply(apps) => if apps.len() == 1 {
            Some(apps[0])
        } else {
            None
        },
        _ => None,
    }
}

/// `b` undoes `a` in place.
pub open spec fn undoes(a: App, b: App) -> bool {
    a.generator == b.generator && a.inverse != b.inverse && a.gap == b.gap && a.input == b.output
        && a.output == b.input
}

pub open spec fn with_gap(a: App, gap: usize) -> App {
    App { generator: a.generator, inverse: a.inverse, gap, input: a.input, output: a.output }
}

/// The single level holding `a` (lower) and `b` (upper) side by side, when
/// their footprints are disjoint; `bias` orders them when they meet at one
/// point with nothing between.
pub open spec fn merged(a: App, b: App, bias: Bias) -> Option<Seq<App>> {
    let p = a.gap as int;
    let q = b.gap as int;
    if a.output == 0 && b.input == 0 && q == p {
        match bias {
            Bias::Lower => Some(seq![a, with_gap(b, 0)]),
            Bias::Higher => Some(seq![with_gap(b, a.gap), with_gap(a, 0)]),
            Bias::Same => None,
        }
    } else if q + b.input <= p {
        Some(seq![b, with_gap(a, (p - (q + b.input)) as usize)])
    } else if q >= p + a.output {
        Some(seq![a, with_gap(b, (q - a.output - p) as usize)])
    } else {
        None
    }
}

/// Contracting heights `h` and `h + 1` of `d`: a cell followed by its inverse
/// in place cancels; with a `Lower` or `Higher` bias, two independent cells of
/// a 2-diagram merge into one level.
pub open spec fn contract_at(d: SDiagram, h: int, bias: Bias) -> Option<SDiagram> {
    let l = levels_of(d);
    if sdim(d) == 0 || h < 0 || h + 1 >= l.len() {
        None
    } else {
        match (single_app(l[h].action), single_app(l[h + 1].action)) {
            (Some(a), Some(b)) => {
                if undoes(a, b) && slice(d, h) == slice(d, h + 2) {
                    Some(SDiagram::Cell(sdim(d) as usize, Box::new(src_of(d)), l.subrange(0, h) + l.subrange(h + 2, l.len() as int)))
                } else if bias != Bias::Same && sdim(d) == 2 {
                    match merged(a, b, bias) {
                        Some(apps) => Some(
                            SDiagram::Cell(
                                sdim(d) as usize,
                                Box::new(src_of(d)),
                                l.subrange(0, h) + seq![SLevel { action: SMove::Apply(apps), target: l[h + 1].target }]
                                    + l.subrange(h + 2, l.len() as int),
                            ),
                        ),
                        None => None,
                    }
                } else {
                    None
                }
            },
            _ => None,
        }
    }
}

/// The lowest contraction of `d` with the given bias from height `h` up.
pub open spec fn first_contraction(d: SDiagram, bias: Bias, h: int) -> Option<(int, SDiagram)>
    decreases width(d) + 1 - h,
{
    if h < 0 || h + 1 >= width(d) {
        None
    } else {
        match contract_at(d, h, bias) {
            Some(r) => Some((h, r)),
            None => first_contraction(d, bias, h + 1),
        }
    }
}

/// The lowest height from `h` up whose unbiased contraction turns `d` into `t`.
pub open spec fn contraction_to(d: SDiagram, t: SDiagram, h: int) -> Option<int>
    decreases width(d) + 1 - h,
{
    if h < 0 || h + 1 >= width(d) {
        None
    } else if contract_at(d, h, Bias::Same) == Some(t) {
        Some(h)
    } else {
        contraction_to(d, t, h + 1)
    }
}

/// The one-level diagram recording a contraction of `d` into `r` at height `h`.
pub open spec fn s_contraction(d: SDiagram, h: int, bias: Bias, r: SDiagram) -> SDiagram {
    SDiagram::Cell(
        (sdim(d) + 1) as usize,
        Box::new(d),
        seq![SLevel { action: SMove::Contract(h as usize, bias, false), target: r }],
    )
}


// ---------------------------------------------------------------------------
// The executable kernel.

/// Why a diagram failed validation.
#[derive(Debug, Clone, Copy, PartialEq, Eq, Structural)]
pub enum DiagramError {
    /// A stored dimension, a slice or a move does not fit its place.
    Malformed,
}

/// A copy of a list of applications.
pub fn copy_apps(v: &Vec<App>) -> (r: Vec<App>)
    ensures
        r@ == v@,
{
    let mut out: Vec<App> = Vec::new();
    let mut i: usize = 0;
    while i < v.len()
        invariant
            i <= v@.len(),
            out@ == v@.subrange(0, i as int),
        decreases v@.len() - i,
    {
        out.push(v[i]);
        assert(out@ =~= v@.subrange(0, i + 1));
        i = i + 1;
    }
    assert(v@.subrange(0, v@.len() as int) =~= v@);
    out
}

/// Whether two lists of applications are equal.
pub fn apps_equal(a: &Vec<App>, b: &Vec<App>) -> (r: bool)
    ensures
        r == (a@ == b@),
{
    if a.len() != b.len() {
        return false;
    }
    let mut i: usize = 0;
    while i < a.len()
        invariant
            i <= a@.len(),
            a@.len() == b@.len(),
            a@.subrange(0, i as int) == b@.subrange(0, i as int),
        decreases a@.len() - i,
    {
        if a[i] != b[i] {
            assert(a@[i as int] != b@[i as int]);
            return false;
        }
        assert(a@.subrange(0, i + 1) =~= a@.subrange(0, i as int).push(a@[i as int]));
        assert(b@.subrange(0, i + 1) =~= b@.subrange(0, i as int).push(b@[i as int]));
        i = i + 1;
    }
    assert(a@ =~= a@.subrange(0, i as int));
    assert(b@ =~= b@.subrange(0, i as int));
    true
}

impl Move {
    /// A copy of this move.
    pub fn copy(&self) -> (r: Move)
        ensures
            move_view(r) == move_view(*self),
    {
        match self {
            Move::Apply(v) => Move::Apply(copy_apps(v)),
            Move::Contract { height, bias, expand } => Move::Contract { height: *height, bias: *bias, expand: *expand },
        }
    }

    /// Whether two moves are equal.
    pub fn same(&self, other: &Move) -> (r: bool)
        ensures
            r == (move_view(*self) == move_view(*other)),
    {
        match (self, other) {
            (Move::Apply(a), Move::Apply(b)) => apps_equal(a, b),
            (
                Move::Contract { height: h1, bias: b1, expand: e1 },
                Move::Contract { height: h2, bias: b2, expand: e2 },
            ) => *h1 == *h2 && *b1 == *b2 && *e1 == *e2,
            _ => false,
        }
    }
}

impl Diagram {
    /// The dimension.
    pub fn dimension(&self) -> (r: usize)
        ensures
            r == sdim(self@),
    {
        match self {
            Diagram::Point(_) => 0,
            Diagram::Cell { dimension, .. } => *dimension,
        }
    }

    /// The number of levels (0 for a point).
    pub fn width(&self) -> (r: usize)
        ensures
            r == width(self@),
    {
        match self {
            Diagram::Point(_) => 0,
            Diagram::Cell { levels, .. } => {
                proof {
                    lemma_lviews(levels@);
                }
                levels.len()
            },
        }
    }

    /// A deep copy.
    #[verifier::loop_isolation(false)]
    pub fn copy(&self) -> (r: Diagram)
        ensures
            r@ == self@,
        decreases self,
    {
        match self {
            Diagram::Point(g) => Diagram::Point(*g),
            Diagram::Cell { dimension, source, levels } => {
                let s = source.copy();
                let mut out: Vec<Level> = Vec::new();
                let mut i: usize = 0;
                proof {
                    lemma_lviews(levels@);
                }
                while i < levels.len()
                    invariant
                        i <= levels@.len(),
                        lviews(out@) == lviews(levels@).subrange(0, i as int),
                        lviews(levels@).len() == levels@.len(),
                        forall|j: int| 0 <= j < levels@.len() ==> #[trigger] lviews(levels@)[j] == levels@[j]@,
                    decreases levels@.len() - i,
                {
                    let l = Level { action: levels[i].action.copy(), target: levels[i].target.copy() };
                    proof {
                        lemma_lviews_push(out@, l);
                    }
                    out.push(l);
                    assert(lviews(out@) =~= lviews(levels@).subrange(0, i + 1));
                    i = i + 1;
                }
                assert(lviews(levels@).subrange(0, i as int) =~= lviews(levels@));
                Diagram::Cell { dimension: *dimension, source: Box::new(s), levels: out }
            },
        }
    }

    /// Whether two diagrams are equal.
    #[verifier::loop_isolation(false)]
    pub fn same(&self, other: &Diagram) -> (r: bool)
        ensures
            r == (self@ == other@),
        decreases self,
    {
        match (self, other) {
            (Diagram::Point(g), Diagram::Point(h)) => *g == *h,
            (
                Diagram::Cell { dimension: d1, source: s1, levels: l1 },
                Diagram::Cell { dimension: d2, source: s2, levels: l2 },
            ) => {
                if *d1 != *d2 || !s1.same(s2) || l1.len() != l2.len() {
                    proof {
                        lemma_lviews(l1@);
                        lemma_lviews(l2@);
                    }
                    return false;
                }
                proof {
                    lemma_lviews(l1@);
                    lemma_lviews(l2@);
                }
                let mut i: usize = 0;
                while i < l1.len()
                    invariant
                        i <= l1@.len(),
                        l1@.len() == l2@.len(),
                        lviews(l1@).len() == l1@.len(),
                        lviews(l2@).len() == l2@.len(),
                        forall|j: int| 0 <= j < l1@.len() ==> #[trigger] lviews(l1@)[j] == l1@[j]@,
                        forall|j: int| 0 <= j < l2@.len() ==> #[trigger] lviews(l2@)[j] == l2@[j]@,
                        forall|j: int| 0 <= j < i ==> lviews(l1@)[j] == lviews(l2@)[j],
                    decreases l1@.len() - i,
                {
                    if !l1[i].action.same(&l2[i].action) || !l1[i].target.same(&l2[i].target) {
                        assert(lviews(l1@)[i as int] != lviews(l2@)[i as int]);
                        return false;
                    }
                    i = i + 1;
                }
                assert(lviews(l1@) =~= lviews(l2@));
                true
            },
            _ => false,
        }
    }

    /// The `i`-th slice of a positive-dimensional diagram.
    pub fn slice(&self, i: usize) -> (r: &Diagram)
        requires
            sdim(self@) >= 1,
            i <= width(self@),
        ensures
            r@ == slice(self@, i as int),
    {
        match self {
            Diagram::Point(_) => self,
            Diagram::Cell { source, levels, .. } => {
                proof {
                    lemma_lviews(levels@);
                }
                if i == 0 {
                    source
                } else {
                    &levels[i - 1].target
                }
            },
        }
    }

    /// The source of a positive-dimensional diagram.
    pub fn source(&self) -> (r: &Diagram)
        requires
            sdim(self@) >= 1,
        ensures
            r@ == src_of(self@),
    {
        self.slice(0)
    }

    /// The target of a positive-dimensional diagram.
    pub fn target(&self) -> (r: &Diagram)
        requires
            sdim(self@) >= 1,
        ensures
            r@ == tgt_of(self@),
    {
        let w = self.width();
        self.slice(w)
    }

    /// Whether `x` may stand as a slice beside the source `s`.
    pub fn parallel(x: &Diagram, s: &Diagram) -> (r: bool)
        ensures
            r == parallel(x@, s@),
    {
        if x.dimension() != s.dimension() {
            return false;
        }
        if s.dimension() == 0 {
            return true;
        }
        x.source().same(s.source()) && x.target().same(s.target())
    }

    /// Whether the diagram is well-formed.
    #[verifier::loop_isolation(false)]
    pub fn is_wf(&self) -> (r: bool)
        ensures
            r == wf(self@),
        decreases self,
    {
        match self {
            Diagram::Point(_) => true,
            Diagram::Cell { dimension, source, levels } => {
                let sd = source.dimension();
                if sd >= usize::MAX || *dimension != sd + 1 || !source.is_wf() {
                    return false;
                }
                proof {
                    lemma_lviews(levels@);
                    lemma_levels_wf(source@, lviews(levels@));
                }
                let mut i: usize = 0;
                while i < levels.len()
                    invariant
                        i <= levels@.len(),
                        lviews(levels@).len() == levels@.len(),
                        forall|j: int| 0 <= j < levels@.len() ==> #[trigger] lviews(levels@)[j] == levels@[j]@,
                        forall|j: int|
                            0 <= j < i ==> wf(#[trigger] lviews(levels@)[j].target) && parallel(
                                lviews(levels@)[j].target,
                                source@,
                            ) && move_ok(lviews(levels@)[j].action, sdim(source@)),
                    decreases levels@.len() - i,
                {
                    let l = &levels[i];
                    let ok_move = match &l.action {
                        Move::Apply(apps) => apps.len() > 0 && (sd != 0 || (apps.len() == 1 && apps[0].gap == 0)),
                        Move::Contract { .. } => sd >= 1,
                    };
                    if !ok_move || !Diagram::parallel(&l.target, source) || !l.target.is_wf() {
                        assert(!(wf(lviews(levels@)[i as int].target) && parallel(lviews(levels@)[i as int].target, source@)
                            && move_ok(lviews(levels@)[i as int].action, sdim(source@))));
                        return false;
                    }
                    i = i + 1;
                }
                true
            },
        }
    }

    /// Validates the diagram. Every slice is checked, whatever `recursive`
    /// says.
    pub fn check(&self, recursive: bool) -> (r: Result<(), DiagramError>)
        ensures
            r is Ok <==> wf(self@),
    {
        if self.is_wf() {
            Ok(())
        } else {
            Err(DiagramError::Malformed)
        }
    }
}


/// Appends copies of `levels[from..to]` to `out`.
pub fn append_levels(out: &mut Vec<Level>, levels: &Vec<Level>, from: usize, to: usize)
    requires
        from <= to <= levels@.len(),
    ensures
        lviews(final(out)@) == lviews(old(out)@) + lviews(levels@).subrange(from as int, to as int),
{
    proof {
        lemma_lviews(levels@);
    }
    let mut i = from;
    assert(lviews(out@) =~= lviews(old(out)@) + lviews(levels@).subrange(from as int, i as int));
    while i < to
        invariant
            from <= i <= to <= levels@.len(),
            lviews(levels@).len() == levels@.len(),
            forall|j: int| 0 <= j < levels@.len() ==> #[trigger] lviews(levels@)[j] == levels@[j]@,
            lviews(out@) == lviews(old(out)@) + lviews(levels@).subrange(from as int, i as int),
        decreases to - i,
    {
        let l = Level { action: levels[i].action.copy(), target: levels[i].target.copy() };
        proof {
            lemma_lviews_push(out@, l);
        }
        out.push(l);
        assert(lviews(out@) =~= lviews(old(out)@) + lviews(levels@).subrange(from as int, i + 1));
        i = i + 1;
    }
}

/// The inverse of a move.
pub fn inverse_move(m: &Move) -> (r: Move)
    ensures
        move_view(r) == inv_move(move_view(*m)),
{
    match m {
        Move::Apply(apps) => {
            let mut out: Vec<App> = Vec::new();
            let mut i: usize = 0;
            while i < apps.len()
                invariant
                    i <= apps@.len(),
                    out@ == Seq::new(i as nat, |j: int| inv_app(apps@[j])),
                decreases apps@.len() - i,
            {
                let a = apps[i];
                out.push(App { generator: a.generator, inverse: !a.inverse, gap: a.gap, input: a.output, output: a.input });
                assert(out@ =~= Seq::new((i + 1) as nat, |j: int| inv_app(apps@[j])));
                i = i + 1;
            }
            Move::Apply(out)
        },
        Move::Contract { height, bias, expand } => Move::Contract { height: *height, bias: *bias, expand: !*expand },
    }
}

/// A move shifted `k` places along the slice, if the shift fits.
pub fn whisker(m: &Move, k: usize) -> (r: Option<Move>)
    ensures
        match r {
            Some(w) => whiskerable(move_view(*m), k as nat) && move_view(w) == whisker_move(move_view(*m), k as nat),
            None => !whiskerable(move_view(*m), k as nat),
        },
{
    match m {
        Move::Apply(apps) => {
            if apps.len() == 0 {
                return None;
            }
            let a = apps[0];
            match a.gap.checked_add(k) {
                Some(g) => {
                    let mut out = copy_apps(apps);
                    out.set(0, App { generator: a.generator, inverse: a.inverse, gap: g, input: a.input, output: a.output });
                    Some(Move::Apply(out))
                },
                None => None,
            }
        },
        Move::Contract { height, bias, expand } => match height.checked_add(k) {
            Some(h) => Some(Move::Contract { height: h, bias: *bias, expand: *expand }),
            None => None,
        },
    }
}

impl Diagram {
    /// The identity on this diagram.
    pub fn identity(&self) -> (r: Diagram)
        requires
            sdim(self@) < usize::MAX,
        ensures
            r@ == s_identity(self@),
    {
        let levels: Vec<Level> = Vec::new();
        assert(lviews(levels@) =~= Seq::<SLevel>::empty());
        Diagram::Cell { dimension: self.dimension() + 1, source: Box::new(self.copy()), levels }
    }

    /// The diagram of generator `g` from `source` to `target`, when they are
    /// globular and the dimension fits.
    pub fn from_generator(g: Generator, source: Diagram, target: Diagram) -> (r: Option<Diagram>)
        ensures
            match r {
                Some(d) => globular(source@, target@) && sdim(source@) < usize::MAX && d@ == s_generator(g, source@, target@),
                None => !(globular(source@, target@) && sdim(source@) < usize::MAX),
            },
    {
        let n = source.dimension();
        if n == usize::MAX || !Diagram::parallel(&target, &source) {
            return None;
        }
        let app = App { generator: g, inverse: false, gap: 0, input: source.width(), output: target.width() };
        let mut apps: Vec<App> = Vec::new();
        apps.push(app);
        let mut levels: Vec<Level> = Vec::new();
        let l = Level { action: Move::Apply(apps), target };
        proof {
            lemma_lviews_push(levels@, l);
        }
        levels.push(l);
        assert(lviews(levels@) =~= seq![l@]);
        assert(apps@ =~= seq![app]);
        Some(Diagram::Cell { dimension: n + 1, source: Box::new(source), levels })
    }

    /// The composite of `self` followed by `other`, when they are composable.
    pub fn compose(&self, other: &Diagram) -> (r: Option<Diagram>)
        ensures
            match r {
                Some(d) => composable(self@, other@) && d@ == s_compose(self@, other@),
                None => !composable(self@, other@),
            },
    {
        if self.dimension() == 0 || self.dimension() != other.dimension() || !self.target().same(other.source()) {
            return None;
        }
        match (self, other) {
            (Diagram::Cell { dimension, source, levels: l1 }, Diagram::Cell { levels: l2, .. }) => {
                let mut out: Vec<Level> = Vec::new();
                append_levels(&mut out, l1, 0, l1.len());
                append_levels(&mut out, l2, 0, l2.len());
                proof {
                    lemma_lviews(l1@);
                    lemma_lviews(l2@);
                    assert(lviews(out@) =~= lviews(l1@) + lviews(l2@));
                }
                Some(Diagram::Cell { dimension: *dimension, source: Box::new(source.copy()), levels: out })
            },
            _ => None,
        }
    }

    /// The inverse of a positive-dimensional diagram.
    pub fn inverse(&self) -> (r: Diagram)
        requires
            sdim(self@) >= 1,
        ensures
            r@ == s_inverse(self@),
    {
        let w = self.width();
        let mut out: Vec<Level> = Vec::new();
        let ghost d = self@;
        let ghost l = levels_of(d);
        let mut i = w;
        while i > 0
            invariant
                i <= w,
                w == l.len(),
                d == self@,
                l == levels_of(self@),
                sdim(self@) >= 1,
                lviews(out@) == Seq::new(
                    (w - i) as nat,
                    |j: int| SLevel { action: inv_move(l[l.len() - 1 - j].action), target: slice(d, l.len() - 1 - j) },
                ),
            decreases i,
        {
            i = i - 1;
            let (action, target) = match self {
                Diagram::Cell { levels, .. } => {
                    proof {
                        lemma_lviews(levels@);
                    }
                    (inverse_move(&levels[i].action), self.slice(i).copy())
                },
                Diagram::Point(_) => {
                    return self.copy();
                },
            };
            let lv = Level { action, target };
            proof {
                lemma_lviews_push(out@, lv);
            }
            out.push(lv);
            assert(lviews(out@) =~= Seq::new(
                (w - i) as nat,
                |j: int| SLevel { action: inv_move(l[l.len() - 1 - j].action), target: slice(d, l.len() - 1 - j) },
            ));
        }
        Diagram::Cell { dimension: self.dimension(), source: Box::new(self.target().copy()), levels: out }
    }

    /// The 1-diagram `self` with `m` levels from height `k` replaced by those of `w`.
    pub fn replaced(&self, k: usize, m: usize, w: &Diagram) -> (r: Diagram)
        requires
            sdim(self@) >= 1,
            k + m <= width(self@),
        ensures
            r@ == replaced(self@, k as int, m as int, w@),
    {
        match self {
            Diagram::Cell { dimension, source, levels } => {
                proof {
                    lemma_lviews(levels@);
                }
                let _n = levels.len();
                let mut out: Vec<Level> = Vec::new();
                append_levels(&mut out, levels, 0, k);
                match w {
                    Diagram::Cell { levels: wl, .. } => {
                        append_levels(&mut out, wl, 0, wl.len());
                        proof {
                            lemma_lviews(wl@);
                            assert(lviews(wl@).subrange(0, wl@.len() as int) =~= lviews(wl@));
                        }
                    },
                    Diagram::Point(_) => {},
                }
                append_levels(&mut out, levels, k + m, levels.len());
                assert(lviews(out@) =~= lviews(levels@).subrange(0, k as int) + levels_of(w@)
                    + lviews(levels@).subrange(k + m, levels@.len() as int));
                Diagram::Cell { dimension: *dimension, source: Box::new(source.copy()), levels: out }
            },
            Diagram::Point(_) => self.copy(),
        }
    }

    /// Whether the 1-diagram `s` occurs in `self` at height `k`.
    #[verifier::loop_isolation(false)]
    pub fn occurs_at(&self, s: &Diagram, k: usize) -> (r: bool)
        requires
            sdim(self@) >= 1,
            sdim(s@) >= 1,
        ensures
            r == occurs_at(self@, s@, k as int),
    {
        let wt = self.width();
        let ws = s.width();
        if ws > wt || k > wt - ws {
            return false;
        }
        if !self.slice(k).same(s.source()) {
            return false;
        }
        match (self, s) {
            (Diagram::Cell { levels: lt, .. }, Diagram::Cell { levels: ls, .. }) => {
                proof {
                    lemma_lviews(lt@);
                    lemma_lviews(ls@);
                }
                let mut j: usize = 0;
                while j < ws
                    invariant
                        j <= ws,
                        k + ws <= wt,
                        forall|i: int| 0 <= i < j ==> lviews(lt@)[k + i] == lviews(ls@)[i],
                    decreases ws - j,
                {
                    if !lt[k + j].action.same(&ls[j].action) || !lt[k + j].target.same(&ls[j].target) {
                        assert(levels_of(self@).subrange(k as int, k + ws)[j as int] != levels_of(s@)[j as int]);
                        return false;
                    }
                    j = j + 1;
                }
                assert(levels_of(self@).subrange(k as int, k + ws) =~= levels_of(s@));
                true
            },
            _ => false,
        }
    }

    /// The lowest height at which the 1-diagram `s` occurs in `self`.
    pub fn find_occurrence(&self, s: &Diagram) -> (r: Option<usize>)
        requires
            sdim(self@) >= 1,
            sdim(s@) >= 1,
        ensures
            match r {
                Some(k) => find_occurrence(self@, s@, 0) == Some(k as int),
                None => find_occurrence(self@, s@, 0) is None,
            },
    {
        let wt = self.width();
        let ws = s.width();
        if ws > wt {
            return None;
        }
        let mut k: usize = 0;
        loop
            invariant
                find_occurrence(self@, s@, k as int) == find_occurrence(self@, s@, 0),
                sdim(self@) >= 1,
                sdim(s@) >= 1,
                wt == width(self@),
                ws == width(s@),
                ws <= wt,
                k <= wt - ws,
            decreases wt - k,
        {
            if self.occurs_at(s, k) {
                return Some(k);
            }
            if k >= wt - ws {
                assert(find_occurrence(self@, s@, k + 1) is None);
                return None;
            }
            k = k + 1;
        }
    }
}

/// Attaches `v` to `t` (see `s_attach`): the levels to add above `t` and the
/// new top slice.
pub fn attach(t: &Diagram, v: &Diagram) -> (r: Option<(Vec<Level>, Diagram)>)
    ensures
        match r {
            Some((levels, top)) => s_attach(t@, v@) == Some((lviews(levels@), top@)),
            None => s_attach(t@, v@) is None,
        },
{
    let dt = t.dimension();
    if dt == 0 || dt == usize::MAX || v.dimension() != dt + 1 {
        return None;
    }
    if v.source().dimension() != dt {
        return None;
    }
    if dt == 1 {
        let s = v.source();
        let k = match t.find_occurrence(s) {
            Some(k) => k,
            None => {
                return None;
            },
        };
        proof {
            lemma_find_occurrence(t@, s@, 0);
        }
        let m = s.width();
        match v {
            Diagram::Cell { levels, .. } => {
                proof {
                    lemma_lviews(levels@);
                }
                let mut out: Vec<Level> = Vec::new();
                let mut i: usize = 0;
                while i < levels.len()
                    invariant
                        i <= levels@.len(),
                        lviews(levels@) == levels_of(v@),
                        lviews(levels@).len() == levels@.len(),
                        forall|j: int| 0 <= j < levels@.len() ==> #[trigger] lviews(levels@)[j] == levels@[j]@,
                        sdim(t@) == 1,
                        sdim(v@) == 2,
                        sdim(src_of(v@)) == 1,
                        find_occurrence(t@, src_of(v@), 0) == Some(k as int),
                        k + m <= width(t@),
                        m == width(src_of(v@)),
                        forall|j: int| 0 <= j < i ==> whiskerable(#[trigger] levels_of(v@)[j].action, k as nat),
                        lviews(out@) == whiskered(t@, k as int, m as int, levels_of(v@)).subrange(0, i as int),
                    decreases levels@.len() - i,
                {
                    let action = match whisker(&levels[i].action, k) {
                        Some(a) => a,
                        None => {
                            assert(!whiskerable(levels_of(v@)[i as int].action, k as nat));
                            assert(!(forall|j: int| 0 <= j < width(v@) ==> whiskerable(#[trigger] levels_of(v@)[j].action, k as nat)));
                            assert(find_occurrence(t@, src_of(v@), 0) == Some(k as int));
                            return None;
                        },
                    };
                    let lv = Level { action, target: t.replaced(k, m, &levels[i].target) };
                    proof {
                        lemma_lviews_push(out@, lv);
                    }
                    out.push(lv);
                    assert(lviews(out@) =~= whiskered(t@, k as int, m as int, levels_of(v@)).subrange(0, i + 1));
                    i = i + 1;
                }
                assert(whiskered(t@, k as int, m as int, levels_of(v@)).subrange(0, i as int)
                    =~= whiskered(t@, k as int, m as int, levels_of(v@)));
                let top = t.replaced(k, m, v.target());
                Some((out, top))
            },
            Diagram::Point(_) => None,
        }
    } else {
        if !v.source().same(t) {
            return None;
        }
        match v {
            Diagram::Cell { levels, .. } => {
                let mut out: Vec<Level> = Vec::new();
                append_levels(&mut out, levels, 0, levels.len());
                proof {
                    lemma_lviews(levels@);
                    assert(lviews(out@) =~= levels_of(v@));
                }
                Some((out, v.target().copy()))
            },
            Diagram::Point(_) => None,
        }
    }
}


/// The single application of a move, if it has exactly one.
pub fn single(m: &Move) -> (r: Option<App>)
    ensures
        r == single_app(move_view(*m)),
{
    match m {
        Move::Apply(apps) => if apps.len() == 1 {
            Some(apps[0])
        } else {
            None
        },
        _ => None,
    }
}

/// Whether `b` undoes `a` in place.
pub fn app_undoes(a: App, b: App) -> (r: bool)
    ensures
        r == undoes(a, b),
{
    a.generator == b.generator && a.inverse != b.inverse && a.gap == b.gap && a.input == b.output
        && a.output == b.input
}

/// `a` and `b` side by side in one level (see `merged`).
pub fn merge_apps(a: App, b: App, bias: Bias) -> (r: Option<Vec<App>>)
    ensures
        match r {
            Some(v) => merged(a, b, bias) == Some(v@),
            None => merged(a, b, bias) is None,
        },
{
    let p = a.gap;
    let q = b.gap;
    let mut v: Vec<App> = Vec::new();
    if a.output == 0 && b.input == 0 && q == p {
        match bias {
            Bias::Lower => {
                v.push(a);
                v.push(App { generator: b.generator, inverse: b.inverse, gap: 0, input: b.input, output: b.output });
            },
            Bias::Higher => {
                v.push(App { generator: b.generator, inverse: b.inverse, gap: a.gap, input: b.input, output: b.output });
                v.push(App { generator: a.generator, inverse: a.inverse, gap: 0, input: a.input, output: a.output });
            },
            Bias::Same => {
                return None;
            },
        }
    } else if b.input <= p && q <= p - b.input {
        v.push(b);
        v.push(App { generator: a.generator, inverse: a.inverse, gap: p - (q + b.input), input: a.input, output: a.output });
    } else if a.output <= q && p <= q - a.output {
        v.push(a);
        v.push(App { generator: b.generator, inverse: b.inverse, gap: q - a.output - p, input: b.input, output: b.output });
    } else {
        return None;
    }
    assert(merged(a, b, bias) == Some(v@)) by {
        let m = merged(a, b, bias).unwrap();
        assert(v@ =~= m);
    }
    Some(v)
}

impl Diagram {
    /// Contracts heights `h` and `h + 1` (see `contract_at`).
    #[verifier::loop_isolation(false)]
    pub fn contract_at(&self, h: usize, bias: Bias) -> (r: Option<Diagram>)
        ensures
            match r {
                Some(d) => contract_at(self@, h as int, bias) == Some(d@),
                None => contract_at(self@, h as int, bias) is None,
            },
    {
        let d = self.dimension();
        let w = self.width();
        if d == 0 || h >= w || h + 1 >= w {
            return None;
        }
        match self {
            Diagram::Cell { dimension, source, levels } => {
                proof {
                    lemma_lviews(levels@);
                }
                let a = single(&levels[h].action);
                let b = single(&levels[h + 1].action);
                match (a, b) {
                    (Some(a), Some(b)) => {
                        if app_undoes(a, b) && self.slice(h).same(self.slice(h + 2)) {
                            let mut out: Vec<Level> = Vec::new();
                            append_levels(&mut out, levels, 0, h);
                            append_levels(&mut out, levels, h + 2, levels.len());
                            assert(lviews(out@) =~= levels_of(self@).subrange(0, h as int) + levels_of(self@).subrange(
                                h + 2,
                                levels_of(self@).len() as int,
                            ));
                            Some(Diagram::Cell { dimension: *dimension, source: Box::new(source.copy()), levels: out })
                        } else if bias != Bias::Same && d == 2 {
                            match merge_apps(a, b, bias) {
                                Some(apps) => {
                                    let mut out: Vec<Level> = Vec::new();
                                    append_levels(&mut out, levels, 0, h);
                                    let lv = Level { action: Move::Apply(apps), target: levels[h + 1].target.copy() };
                                    proof {
                                        lemma_lviews_push(out@, lv);
                                    }
                                    out.push(lv);
                                    append_levels(&mut out, levels, h + 2, levels.len());
                                    assert(lviews(out@) =~= levels_of(self@).subrange(0, h as int) + seq![
                                        SLevel { action: SMove::Apply(apps@), target: levels_of(self@)[h + 1].target },
                                    ] + levels_of(self@).subrange(h + 2, levels_of(self@).len() as int));
                                    Some(Diagram::Cell { dimension: *dimension, source: Box::new(source.copy()), levels: out })
                                },
                                None => None,
                            }
                        } else {
                            None
                        }
                    },
                    _ => None,
                }
            },
            Diagram::Point(_) => None,
        }
    }

    /// The lowest contraction with the given bias, and its height.
    pub fn first_contraction(&self, bias: Bias) -> (r: Option<(usize, Diagram)>)
        ensures
            match r {
                Some((h, d)) => first_contraction(self@, bias, 0) == Some((h as int, d@)),
                None => first_contraction(self@, bias, 0) is None,
            },
    {
        let w = self.width();
        let mut h: usize = 0;
        while h < w && h + 1 < w
            invariant
                w == width(self@),
                first_contraction(self@, bias, h as int) == first_contraction(self@, bias, 0),
            decreases w - h,
        {
            match self.contract_at(h, bias) {
                Some(d) => {
                    return Some((h, d));
                },
                None => {},
            }
            h = h + 1;
        }
        None
    }

    /// The lowest height whose unbiased contraction turns `self` into `target`.
    pub fn contraction_to(&self, target: &Diagram) -> (r: Option<usize>)
        ensures
            match r {
                Some(h) => contraction_to(self@, target@, 0) == Some(h as int),
                None => contraction_to(self@, target@, 0) is None,
            },
    {
        let w = self.width();
        let mut h: usize = 0;
        while h < w && h + 1 < w
            invariant
                w == width(self@),
                contraction_to(self@, target@, h as int) == contraction_to(self@, target@, 0),
            decreases w - h,
        {
            match self.contract_at(h, Bias::Same) {
                Some(d) => {
                    if d.same(target) {
                        return Some(h);
                    }
                },
                None => {},
            }
            h = h + 1;
        }
        None
    }

    /// The one-level diagram recording the contraction of `self` into `result`.
    pub fn contraction(&self, h: usize, bias: Bias, result: Diagram) -> (r: Diagram)
        requires
            sdim(self@) < usize::MAX,
        ensures
            r@ == s_contraction(self@, h as int, bias, result@),
    {
        let mut levels: Vec<Level> = Vec::new();
        let lv = Level { action: Move::Contract { height: h, bias, expand: false }, target: result };
        proof {
            lemma_lviews_push(levels@, lv);
        }
        levels.push(lv);
        assert(lviews(levels@) =~= seq![lv@]);
        Diagram::Cell { dimension: self.dimension() + 1, source: Box::new(self.copy()), levels }
    }
}


/// Generators ordered by dimension, then by identifier.
pub open spec fn gen_le(a: Generator, b: Generator) -> bool {
    a.dimension < b.dimension || (a.dimension == b.dimension && a.id <= b.id)
}

pub open spec fn gen_max(a: Generator, b: Generator) -> Generator {
    if gen_le(a, b) {
        b
    } else {
        a
    }
}

/// The greatest generator applied in a list of applications, starting from `acc`.
pub open spec fn apps_top(apps: Seq<App>, acc: Generator) -> Generator
    decreases apps.len(),
{
    if apps.len() == 0 {
        acc
    } else {
        apps_top(apps.drop_first(), gen_max(acc, apps[0].generator))
    }
}

/// The greatest generator of a diagram (by dimension, then identifier).
pub open spec fn top_generator(d: SDiagram) -> Generator
    decreases d, 1nat,
{
    match d {
        SDiagram::Point(g) => g,
        SDiagram::Cell(_, s, l) => levels_top(l, top_generator(*s)),
    }
}

pub open spec fn levels_top(l: Seq<SLevel>, acc: Generator) -> Generator
    decreases l, 0nat,
{
    if l.len() == 0 {
        acc
    } else {
        let a = match l[0].action {
            SMove::Apply(apps) => apps_top(apps, acc),
            _ => acc,
        };
        levels_top(l.drop_first(), gen_max(a, top_generator(l[0].target)))
    }
}

fn max_gen(a: Generator, b: Generator) -> (r: Generator)
    ensures
        r == gen_max(a, b),
{
    if a.dimension < b.dimension || (a.dimension == b.dimension && a.id <= b.id) {
        b
    } else {
        a
    }
}

fn apps_top_exec(apps: &Vec<App>, acc: Generator) -> (r: Generator)
    ensures
        r == apps_top(apps@, acc),
{
    let mut i: usize = 0;
    let mut cur = acc;
    assert(apps@.subrange(0, apps@.len() as int) =~= apps@);
    while i < apps.len()
        invariant
            i <= apps@.len(),
            apps_top(apps@, acc) == apps_top(apps@.subrange(i as int, apps@.len() as int), cur),
        decreases apps@.len() - i,
    {
        let ghost rest = apps@.subrange(i as int, apps@.len() as int);
        assert(rest.drop_first() =~= apps@.subrange(i + 1, apps@.len() as int));
        cur = max_gen(cur, apps[i].generator);
        i = i + 1;
    }
    assert(apps@.subrange(i as int, apps@.len() as int) =~= Seq::<App>::empty());
    cur
}

impl Diagram {
    /// The greatest generator of the diagram.
    #[verifier::loop_isolation(false)]
    pub fn top_generator(&self) -> (r: Generator)
        ensures
            r == top_generator(self@),
        decreases self,
    {
        match self {
            Diagram::Point(g) => *g,
            Diagram::Cell { source, levels, .. } => {
                let mut cur = source.top_generator();
                let mut i: usize = 0;
                proof {
                    lemma_lviews(levels@);
                    assert(lviews(levels@).subrange(0, levels@.len() as int) =~= lviews(levels@));
                }
                while i < levels.len()
                    invariant
                        i <= levels@.len(),
                        levels_top(lviews(levels@), top_generator(source@)) == levels_top(
                            lviews(levels@).subrange(i as int, levels@.len() as int),
                            cur,
                        ),
                    decreases levels@.len() - i,
                {
                    let ghost rest = lviews(levels@).subrange(i as int, levels@.len() as int);
                    assert(rest.drop_first() =~= lviews(levels@).subrange(i + 1, levels@.len() as int));
                    assert(rest[0] == levels@[i as int]@);
                    let a = match &levels[i].action {
                        Move::Apply(apps) => apps_top_exec(apps, cur),
                        _ => cur,
                    };
                    cur = max_gen(a, levels[i].target.top_generator());
                    i = i + 1;
                }
                assert(lviews(levels@).subrange(i as int, levels@.len() as int) =~= Seq::<SLevel>::empty());
                cur
            },
        }
    }
}


/// Releases cached diagram data. Diagrams here are plain owned values with no
/// shared table behind them, so there is nothing to release.
pub fn collect_garbage() {
}

} // verus!
