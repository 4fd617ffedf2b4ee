//! The built-in presets: small example programs, each with a lesson note.
use vstd::prelude::*;

use crate::text::str_eq;

verus! {

/// A built-in example program.
#[derive(Debug, Clone, Copy, PartialEq, Eq)]
pub struct Preset {
    pub id: &'static str,
    pub title: &'static str,
    pub category: &'static str,
    pub description: &'static str,
    pub lesson: &'static str,
    pub source: &'static str,
    pub tags: &'static [&'static str],
}

/// The number of built-in presets.
pub const PRESET_COUNT: usize = 10;

/// The lesson note of the `basics` preset.
pub const BASICS_LESSON: &'static str = "Start with named cells. A 0-cell is an object, a 1-cell has a source and target, and a 2-cell relates parallel 1-dimensional diagrams.";

/// The source of the `basics` preset.
pub const BASICS_SOURCE: &'static str = r#"title "Basics";
cell A;
cell B;
cell f: A -> B;
cell g: B -> A;
cell loop: id(A) -> f * g;
show loop;
"#;

/// The lesson note of the `adjunction` preset.
pub const ADJUNCTION_LESSON: &'static str = "`struct` creates fresh data each time it is used. This is the right mode for an adjunction, since two adjunctions with the same endpoints need not be identical.";

/// The source of the `adjunction` preset.
pub const ADJUNCTION_SOURCE: &'static str = r#"title "Adjunction";
cell A;
cell B;

struct Adjunction(A: cell<0>, B: cell<0>) {
  cell F: A -> B;
  cell G: B -> A;
  cell unit: id(A) -> F * G;
  cell counit: G * F -> id(B);
}

use Adjunction(A, B) as adj;
show adj.unit;
"#;

/// The lesson note of the `equivalence` preset.
pub const EQUIVALENCE_LESSON: &'static str = "Equivalence data is packaged as a structure: forward and backward arrows, plus witnesses that the composites behave like identities.";

/// The source of the `equivalence` preset.
pub const EQUIVALENCE_SOURCE: &'static str = r#"title "Equivalence";
cell X;
cell Y;

struct Equivalence(X: cell<0>, Y: cell<0>) {
  cell forward: X -> Y;
  cell backward: Y -> X;
  cell left: id(X) -> forward * backward;
  cell right: backward * forward -> id(Y);
}

use Equivalence(X, Y) as eq;
show eq.left;
"#;

/// The lesson note of the `braids` preset.
pub const BRAIDS_LESSON: &'static str = "This preset keeps the source deliberately direct. It is a good place to compare the DSL's named cells with point-and-click signature editing.";

/// The source of the `braids` preset.
pub const BRAIDS_SOURCE: &'static str = r#"title "Braids";
cell A;
cell B;
cell C;
cell over: A -> B;
cell under: B -> C;
cell braid: over * under -> over * under;
show braid;
"#;

/// The lesson note of the `property-uniqueness` preset.
pub const PROPERTY_UNIQUENESS_LESSON: &'static str = "`property` is applicative: the same declaration applied to the same resolved arguments reuses one canonical instance. `unique` exposes that compiler fact as field-wise identity witnesses such as `same.loop`.";

/// The source of the `property-uniqueness` preset.
pub const PROPERTY_UNIQUENESS_SOURCE: &'static str = r#"title "Property Uniqueness";
abstract "Repeated property instances are canonical. The `unique` constructor turns that canonicality into visible proof symbols.";

cell A;

property Pointed(X: cell<0>) {
  cell loop: X -> X;
}

use Pointed(A) as first;
use Pointed(A) as second;
unique first, second as same;
show same.loop;
"#;

/// The lesson note of the `macro-composition` preset.
pub const MACRO_COMPOSITION_LESSON: &'static str = "`macro` is the lightweight generative form. Parenthesized and unparenthesized composition in `show` both compile to the same diagram.";

/// The source of the `macro-composition` preset.
pub const MACRO_COMPOSITION_SOURCE: &'static str = r#"title "Macro Composition";
cell A;
cell B;
cell C;

macro Span(A: cell<0>, B: cell<0>) {
  cell left: A -> B;
  cell right: B -> A;
  cell witness: id(A) -> left * right;
}

use Span(A, B) as first;
use Span(B, C) as second;
show first.witness;
"#;

/// The lesson note of the `idempotent-split` preset.
pub const IDEMPOTENT_SPLIT_LESSON: &'static str = "`with` fills a structure from existing cells instead of generating those fields freely. The filled structure can then be passed as a richer argument.";

/// The source of the `idempotent-split` preset.
pub const IDEMPOTENT_SPLIT_SOURCE: &'static str = r#"title "Idempotent Split";
abstract "A structure can be filled from existing data with `with`, and another structure can take that packaged structure as an argument.";

cell A;
cell e: A -> A;
cell idem: e * e <-> e;

struct Idempotent(X: cell<0>) {
  cell map: X -> X;
  cell square: map * map <-> map;
}

struct Split(I: Idempotent) {
  cell section: I.X -> I.X;
  cell retract: I.X -> I.X;
  cell factor: I.map <-> section * retract;
}

use Idempotent(A) as given with {
  map = e;
  square = idem;
}

use Split(given) as split;
show split.factor;
"#;

/// The lesson note of the `uniqueness-of-adjunctions` preset.
pub const UNIQUENESS_OF_ADJUNCTIONS_LESSON: &'static str = "The comparison map is constructed from adjunction data. The reverse direction is not a separate axiom; it is obtained by applying primitive invertibility to the constructed map.";

/// The source of the `uniqueness-of-adjunctions` preset.
pub const UNIQUENESS_OF_ADJUNCTIONS_SOURCE: &'static str = r#"title "Adjunction Comparison Maps";
abstract "The comparison maps used in uniqueness of adjunctions are built from the units and counits.";

cell A;
cell B;
cell F: A -> B;

struct RightAdjunction(A: cell<0>, B: cell<0>, F: cell<1>) {
  cell right: B -> A;
  cell unit: id(A) -> F * right;
  cell counit: right * F -> id(B);
  prove right_triangle_path: right -> right {
    attach unit;
    attach counit;
  }
  prove left_triangle_path: F -> F {
    attach unit;
    attach counit;
  }
  cell right_triangle: right_triangle_path <-> id(right);
  cell left_triangle: left_triangle_path <-> id(F);
}

use RightAdjunction(A, B, F) as first;
use RightAdjunction(A, B, F) as second;

prove to_second: first.right <-> second.right {
  attach second.unit;
  attach first.counit;
}
construct to_first: second.right -> first.right {
  attach inv(to_second);
}

show to_second;
"#;

/// The lesson note of the `eckmann-hilton` preset.
pub const ECKMANN_HILTON_LESSON: &'static str = "The two products are compared by contracting both to the same horizontal composite, then composing one path with the inverse of the other.";

/// The source of the `eckmann-hilton` preset.
pub const ECKMANN_HILTON_SOURCE: &'static str = r#"title "Eckmann-Hilton";
abstract "Two 2-loops on the identity 1-cell commute by comparing two contractions into the same horizontal composite. This is the core pi>=2 abelian argument.";

cell X;
cell alpha: id(X) <-> id(X);
cell beta: id(X) <-> id(X);

construct alpha_beta_to_horizontal: alpha * beta <-> contract(alpha * beta, lower) {
  contract lower;
}

construct beta_alpha_to_horizontal: beta * alpha <-> contract(alpha * beta, lower) {
  contract higher;
}

construct commute: alpha * beta -> beta * alpha {
  attach alpha_beta_to_horizontal;
  attach inv(beta_alpha_to_horizontal);
}

show commute;
"#;

/// The lesson note of the `paper-action-replay` preset.
pub const PAPER_ACTION_REPLAY_LESSON: &'static str = "`actions [...]` is an experimental escape hatch for the underlying proof-action stream. It keeps the DSL visibly grounded in the original homotopy.io specification, but ordinary authoring should prefer cells, structures, properties, macros, and constructed proofs.";

/// The source of the `paper-action-replay` preset.
pub const PAPER_ACTION_REPLAY_SOURCE: &'static str = r#"actions [
  "CreateGeneratorZero",
  {"SelectGenerator":{"id":0,"dimension":0}},
  {"SetBoundary":"Source"},
  "CreateGeneratorZero",
  {"SelectGenerator":{"id":1,"dimension":0}},
  {"SetBoundary":"Target"}
]
"#;

/// The `i`-th built-in preset, in library order (for `0 <= i < PRESET_COUNT`).
pub open spec fn preset_record(i: int) -> Preset {
    if i == 0 {
        Preset {
            id: "basics",
            title: "Basics",
            category: "Basics",
            description: "Two objects, a pair of arrows, and an identity witness.",
            lesson: BASICS_LESSON,
            source: BASICS_SOURCE,
            tags: &["0-cells", "1-cells", "identity"],
        }
    } else if i == 1 {
        Preset {
            id: "adjunction",
            title: "Adjunction",
            category: "Adjunction",
            description: "A reusable structure that creates concrete adjunction data between two 0-cells.",
            lesson: ADJUNCTION_LESSON,
            source: ADJUNCTION_SOURCE,
            tags: &["struct", "free variables", "2-cells"],
        }
    } else if i == 2 {
        Preset {
            id: "equivalence",
            title: "Equivalence",
            category: "Equivalence",
            description: "A compact equivalence structure with inverse arrows and witnesses.",
            lesson: EQUIVALENCE_LESSON,
            source: EQUIVALENCE_SOURCE,
            tags: &["struct", "equivalence", "2-cells"],
        }
    } else if i == 3 {
        Preset {
            id: "braids",
            title: "Braids",
            category: "Braids",
            description: "Named objects and arrows arranged as a small braid-like pattern.",
            lesson: BRAIDS_LESSON,
            source: BRAIDS_SOURCE,
            tags: &["composition", "2-cells"],
        }
    } else if i == 4 {
        Preset {
            id: "property-uniqueness",
            title: "Property Uniqueness",
            category: "Properties",
            description: "Materializes the canonicality of repeated property instances as proof symbols.",
            lesson: PROPERTY_UNIQUENESS_LESSON,
            source: PROPERTY_UNIQUENESS_SOURCE,
            tags: &["property", "unique", "canonical", "proof"],
        }
    } else if i == 5 {
        Preset {
            id: "macro-composition",
            title: "Macro Composition",
            category: "Examples",
            description: "A macro alias for a reusable two-arrow shape.",
            lesson: MACRO_COMPOSITION_LESSON,
            source: MACRO_COMPOSITION_SOURCE,
            tags: &["macro", "namespace", "composition"],
        }
    } else if i == 6 {
        Preset {
            id: "idempotent-split",
            title: "Idempotent Split",
            category: "Structures",
            description: "Packages existing idempotent data, then passes it into a split structure.",
            lesson: IDEMPOTENT_SPLIT_LESSON,
            source: IDEMPOTENT_SPLIT_SOURCE,
            tags: &["struct", "with", "idempotent", "free variables"],
        }
    } else if i == 7 {
        Preset {
            id: "uniqueness-of-adjunctions",
            title: "Adjunction Comparison Maps",
            category: "Proofs",
            description: "Constructs one comparison map between right adjoints and defines the reverse map as its inverse.",
            lesson: UNIQUENESS_OF_ADJUNCTIONS_LESSON,
            source: UNIQUENESS_OF_ADJUNCTIONS_SOURCE,
            tags: &["proof", "adjunction", "comparison", "3-cells"],
        }
    } else if i == 8 {
        Preset {
            id: "eckmann-hilton",
            title: "Eckmann-Hilton",
            category: "Proofs",
            description: "Constructs the commutativity proof for two 2-loops using biased contraction.",
            lesson: ECKMANN_HILTON_LESSON,
            source: ECKMANN_HILTON_SOURCE,
            tags: &["proof", "Eckmann-Hilton", "2-loops", "abelian"],
        }
    } else if i == 9 {
        Preset {
            id: "paper-action-replay",
            title: "Paper Action Replay",
            category: "Specification",
            description: "An experimental low-level source form that replays the same proof actions as the default editor modes.",
            lesson: PAPER_ACTION_REPLAY_LESSON,
            source: PAPER_ACTION_REPLAY_SOURCE,
            tags: &["paper", "actions", "signature"],
        }
    } else {
        Preset { id: "", title: "", category: "", description: "", lesson: "", source: "", tags: &[] }
    }
}

/// The identifier of the `i`-th built-in preset (empty outside the range).
pub open spec fn preset_id(i: int) -> Seq<char> {
    if 0 <= i < PRESET_COUNT {
        preset_record(i).id@
    } else {
        Seq::empty()
    }
}

/// The built-in presets have pairwise different identifiers.
pub proof fn lemma_preset_ids_distinct()
    ensures
        forall|i: int, j: int| 0 <= i < j < PRESET_COUNT ==> preset_id(i) != preset_id(j),
{
    reveal_strlit("basics");
    reveal_strlit("adjunction");
    reveal_strlit("equivalence");
    reveal_strlit("braids");
    reveal_strlit("property-uniqueness");
    reveal_strlit("macro-composition");
    reveal_strlit("idempotent-split");
    reveal_strlit("uniqueness-of-adjunctions");
    reveal_strlit("eckmann-hilton");
    reveal_strlit("paper-action-replay");
    assert forall|i: int, j: int| 0 <= i < j < PRESET_COUNT implies preset_id(i) != preset_id(j) by {
        if preset_id(i) == preset_id(j) {
            assert(preset_id(i).len() == preset_id(j).len());
            assert(preset_id(i)[1] == preset_id(j)[1]);
        }
    }
}

/// The `i`-th built-in preset, in library order.
pub fn preset_at(i: usize) -> (r: Option<Preset>)
    ensures
        r == (if i < PRESET_COUNT {
            Some(preset_record(i as int))
        } else {
            None
        }),
{
    match i {
        0 => Some(Preset {
            id: "basics",
            title: "Basics",
            category: "Basics",
            description: "Two objects, a pair of arrows, and an identity witness.",
            lesson: BASICS_LESSON,
            source: BASICS_SOURCE,
            tags: &["0-cells", "1-cells", "identity"],
        }),
        1 => Some(Preset {
            id: "adjunction",
            title: "Adjunction",
            category: "Adjunction",
            description: "A reusable structure that creates concrete adjunction data between two 0-cells.",
            lesson: ADJUNCTION_LESSON,
            source: ADJUNCTION_SOURCE,
            tags: &["struct", "free variables", "2-cells"],
        }),
        2 => Some(Preset {
            id: "equivalence",
            title: "Equivalence",
            category: "Equivalence",
            description: "A compact equivalence structure with inverse arrows and witnesses.",
            lesson: EQUIVALENCE_LESSON,
            source: EQUIVALENCE_SOURCE,
            tags: &["struct", "equivalence", "2-cells"],
        }),
        3 => Some(Preset {
            id: "braids",
            title: "Braids",
            category: "Braids",
            description: "Named objects and arrows arranged as a small braid-like pattern.",
            lesson: BRAIDS_LESSON,
            source: BRAIDS_SOURCE,
            tags: &["composition", "2-cells"],
        }),
        4 => Some(Preset {
            id: "property-uniqueness",
            title: "Property Uniqueness",
            category: "Properties",
            description: "Materializes the canonicality of repeated property instances as proof symbols.",
            lesson: PROPERTY_UNIQUENESS_LESSON,
            source: PROPERTY_UNIQUENESS_SOURCE,
            tags: &["property", "unique", "canonical", "proof"],
        }),
        5 => Some(Preset {
            id: "macro-composition",
            title: "Macro Composition",
            category: "Examples",
            description: "A macro alias for a reusable two-arrow shape.",
            lesson: MACRO_COMPOSITION_LESSON,
            source: MACRO_COMPOSITION_SOURCE,
            tags: &["macro", "namespace", "composition"],
        }),
        6 => Some(Preset {
            id: "idempotent-split",
            title: "Idempotent Split",
            category: "Structures",
            description: "Packages existing idempotent data, then passes it into a split structure.",
            lesson: IDEMPOTENT_SPLIT_LESSON,
            source: IDEMPOTENT_SPLIT_SOURCE,
            tags: &["struct", "with", "idempotent", "free variables"],
        }),
        7 => Some(Preset {
            id: "uniqueness-of-adjunctions",
            title: "Adjunction Comparison Maps",
            category: "Proofs",
            description: "Constructs one comparison map between right adjoints and defines the reverse map as its inverse.",
            lesson: UNIQUENESS_OF_ADJUNCTIONS_LESSON,
            source: UNIQUENESS_OF_ADJUNCTIONS_SOURCE,
            tags: &["proof", "adjunction", "comparison", "3-cells"],
        }),
        8 => Some(Preset {
            id: "eckmann-hilton",
            title: "Eckmann-Hilton",
            category: "Proofs",
            description: "Constructs the commutativity proof for two 2-loops using biased contraction.",
            lesson: ECKMANN_HILTON_LESSON,
            source: ECKMANN_HILTON_SOURCE,
            tags: &["proof", "Eckmann-Hilton", "2-loops", "abelian"],
        }),
        9 => Some(Preset {
            id: "paper-action-replay",
            title: "Paper Action Replay",
            category: "Specification",
            description: "An experimental low-level source form that replays the same proof actions as the default editor modes.",
            lesson: PAPER_ACTION_REPLAY_LESSON,
            source: PAPER_ACTION_REPLAY_SOURCE,
            tags: &["paper", "actions", "signature"],
        }),
        _ => None,
    }
}

/// All built-in presets, in library order.
pub fn all() -> (r: Vec<Preset>)
    ensures
        r@ == Seq::new(PRESET_COUNT as nat, |i: int| preset_record(i)),
{
    let mut v: Vec<Preset> = Vec::new();
    let mut i: usize = 0;
    while i < PRESET_COUNT
        invariant
            i <= PRESET_COUNT,
            v@ == Seq::new(i as nat, |j: int| preset_record(j)),
        decreases PRESET_COUNT - i,
    {
        match preset_at(i) {
            Some(p) => v.push(p),
            None => {},
        }
        assert(v@ =~= Seq::new((i + 1) as nat, |j: int| preset_record(j)));
        i = i + 1;
    }
    v
}

/// The preset shown first: the adjunction.
pub fn default_preset() -> (r: Preset)
    ensures
        r == preset_record(1),
{
    match preset_at(1) {
        Some(p) => p,
        None => {
            assert(false);
            Preset { id: "", title: "", category: "", description: "", lesson: "", source: "", tags: &[] }
        },
    }
}

/// The built-in preset with the given identifier: the one record with that
/// identifier, or `None` when no preset has it.
pub fn get(id: &str) -> (r: Option<Preset>)
    ensures
        forall|i: int| 0 <= i < PRESET_COUNT && preset_id(i) == id@ ==> r == Some(preset_record(i)),
        r is None <==> forall|i: int| 0 <= i < PRESET_COUNT ==> preset_id(i) != id@,
{
    proof {
        lemma_preset_ids_distinct();
    }
    let mut i: usize = 0;
    while i < PRESET_COUNT
        invariant
            i <= PRESET_COUNT,
            forall|j: int| 0 <= j < i ==> preset_id(j) != id@,
            forall|a: int, b: int| 0 <= a < b < PRESET_COUNT ==> preset_id(a) != preset_id(b),
        decreases PRESET_COUNT - i,
    {
        match preset_at(i) {
            Some(p) => {
                if str_eq(p.id, id) {
                    assert(preset_id(i as int) == id@);
                    return Some(p);
                }
            },
            None => {},
        }
        i = i + 1;
    }
    None
}

} // verus!
