//! The `actions [...]` statement: a replay of editor actions that create
//! generators, select one as the current diagram, and set it as the source or
//! target of a new generator.
use vstd::prelude::*;
use vstd::string::StringExecFns;

use crate::ast::{lemma_members_view, lemma_values_view, members_view, values_view, ActionValue, Invertibility, Member, SValue};
use crate::compiler::{color, color_of, err, sig_view, strings_view, valid_state, Compiler, GeneratorInfo, SInfo};
use crate::declarations::grows;
use crate::diagnostics::{error_diag, SDiagnostic, Span};
use crate::diagram::{globular, s_generator, sdim, wf, Diagram, Generator, SDiagram};
use crate::text::{decimal, str_eq, usize_to_string};

verus! {

/// The part of the compiler state that actions read and change.
pub struct Replay {
    pub sig: Seq<SInfo>,
    pub next_id: usize,
    pub boundary: Option<(bool, SDiagram)>,
    pub workspace: Option<SDiagram>,
}

pub open spec fn replay_of(c: Compiler) -> Replay {
    Replay {
        sig: sig_view(c.signature@),
        next_id: c.next_generator_id,
        boundary: match c.boundary {
            Some((s, d)) => Some((s, d@)),
            None => None,
        },
        workspace: match c.workspace {
            Some(d) => Some(d@),
            None => None,
        },
    }
}

/// The name the editor gives a new generator.
pub open spec fn cell_name(id: usize) -> Seq<char> {
    "Cell "@ + decimal(id as nat)
}

/// The signature entry of a generator made by an action.
pub open spec fn action_info(g: Generator, d: SDiagram, folder: Seq<Seq<char>>) -> SInfo {
    SInfo {
        generator: g,
        name: cell_name(g.id),
        invertibility: Invertibility::Directed,
        color: color_of(g.id),
        diagram: d,
        folder,
    }
}

/// The value of the first member named `key`.
pub open spec fn member(ms: Seq<(Seq<char>, SValue)>, key: Seq<char>) -> Option<SValue>
    decreases ms.len(),
{
    if ms.len() == 0 {
        None
    } else if ms[0].0 == key {
        Some(ms[0].1)
    } else {
        member(ms.drop_first(), key)
    }
}

/// The first signature entry of generator `g`.
pub open spec fn find_generator(sig: Seq<SInfo>, g: Generator, i: int) -> Option<SInfo>
    decreases sig.len() - i,
{
    if i < 0 || i >= sig.len() {
        None
    } else if sig[i].generator == g {
        Some(sig[i])
    } else {
        find_generator(sig, g, i + 1)
    }
}

pub open spec fn msg_unsupported() -> Seq<char> {
    "invalid actions payload: unsupported action"@
}

/// A new generator from `s` to `t`, or why there is none.
pub open spec fn new_cell(st: Replay, folder: Seq<Seq<char>>, s: SDiagram, t: SDiagram) -> Result<Replay, Seq<char>> {
    if sdim(s) != sdim(t) || !globular(s, t) || sdim(s) >= usize::MAX {
        Err("invalid actions payload: the boundaries are not parallel"@)
    } else if st.next_id == usize::MAX {
        Err("too many generators"@)
    } else {
        let g = Generator { id: st.next_id, dimension: (sdim(s) + 1) as usize };
        Ok(
            Replay {
                sig: st.sig.push(action_info(g, s_generator(g, s, t), folder)),
                next_id: (st.next_id + 1) as usize,
                boundary: None,
                workspace: None,
            },
        )
    }
}

/// One action: `"CreateGeneratorZero"` makes a 0-cell;
/// `{"SelectGenerator": {"id": i, "dimension": d}}` makes that generator's
/// diagram the current one; `{"SetBoundary": "Source"}` (or `"Target"`) puts
/// the current diagram aside as that boundary, and once both boundaries are
/// set makes the generator between them.
pub open spec fn action_step(st: Replay, folder: Seq<Seq<char>>, a: SValue) -> Result<Replay, Seq<char>> {
    match a {
        SValue::Str(s) => if s == "CreateGeneratorZero"@ {
            if st.next_id == usize::MAX {
                Err("too many generators"@)
            } else {
                let g = Generator { id: st.next_id, dimension: 0 };
                Ok(
                    Replay {
                        sig: st.sig.push(action_info(g, SDiagram::Point(g), folder)),
                        next_id: (st.next_id + 1) as usize,
                        ..st
                    },
                )
            }
        } else {
            Err(msg_unsupported())
        },
        SValue::Object(ms) => if ms.len() == 1 && ms[0].0 == "SelectGenerator"@ {
            match ms[0].1 {
                SValue::Object(f) => match (member(f, "id"@), member(f, "dimension"@)) {
                    (Some(SValue::Number(i)), Some(SValue::Number(d))) => match find_generator(
                        st.sig,
                        Generator { id: i, dimension: d },
                        0,
                    ) {
                        Some(info) => Ok(Replay { workspace: Some(info.diagram), ..st }),
                        None => Err("invalid actions payload: unknown generator"@),
                    },
                    _ => Err("invalid actions payload: malformed SelectGenerator"@),
                },
                _ => Err("invalid actions payload: malformed SelectGenerator"@),
            }
        } else if ms.len() == 1 && ms[0].0 == "SetBoundary"@ {
            match ms[0].1 {
                SValue::Str(side) => if side == "Source"@ || side == "Target"@ {
                    let source = side == "Source"@;
                    match st.workspace {
                        None => Err("invalid actions payload: no diagram is selected"@),
                        Some(w) => match st.boundary {
                            Some((bs, b)) => if bs != source {
                                if source {
                                    new_cell(st, folder, w, b)
                                } else {
                                    new_cell(st, folder, b, w)
                                }
                            } else {
                                Ok(Replay { boundary: Some((source, w)), workspace: None, ..st })
                            },
                            None => Ok(Replay { boundary: Some((source, w)), workspace: None, ..st }),
                        },
                    }
                } else {
                    Err("invalid actions payload: malformed SetBoundary"@)
                },
                _ => Err("invalid actions payload: malformed SetBoundary"@),
            }
        } else {
            Err(msg_unsupported())
        },
        _ => Err(msg_unsupported()),
    }
}

/// Replays the actions from `i` on, stopping at the first refused one: the
/// final state and the reason of the refusal, if any.
pub open spec fn replay(st: Replay, folder: Seq<Seq<char>>, acts: Seq<SValue>, i: int) -> (Replay, Option<Seq<char>>)
    decreases acts.len() - i,
{
    if i < 0 || i >= acts.len() {
        (st, None)
    } else {
        match action_step(st, folder, acts[i]) {
            Ok(n) => replay(n, folder, acts, i + 1),
            Err(m) => (st, Some(m)),
        }
    }
}

/// The value of the first member named `key`.
pub fn find_member<'a>(ms: &'a Vec<Member>, key: &str) -> (r: Option<&'a ActionValue>)
    ensures
        match r {
            Some(v) => member(members_view(ms@), key@) == Some(v@),
            None => member(members_view(ms@), key@) is None,
        },
{
    proof {
        lemma_members_view(ms@);
    }
    let ghost mv = members_view(ms@);
    let mut i: usize = 0;
    assert(mv.subrange(0, mv.len() as int) =~= mv);
    while i < ms.len()
        invariant
            i <= ms@.len(),
            mv == members_view(ms@),
            mv.len() == ms@.len(),
            forall|j: int| 0 <= j < ms@.len() ==> #[trigger] mv[j] == (ms@[j].key@, ms@[j].value@),
            member(mv, key@) == member(mv.subrange(i as int, mv.len() as int), key@),
        decreases ms@.len() - i,
    {
        let ghost rest = mv.subrange(i as int, mv.len() as int);
        assert(rest.drop_first() =~= mv.subrange(i + 1, mv.len() as int));
        if str_eq(ms[i].key.as_str(), key) {
            return Some(&ms[i].value);
        }
        i = i + 1;
    }
    None
}

/// The current frame of everything actions leave alone.
pub open spec fn only_replay_changed(c: Compiler, o: Compiler) -> bool {
    &&& c.symbols@ == o.symbols@
    &&& c.instances@ == o.instances@
    &&& c.decls@ == o.decls@
    &&& c.expansion_stack@ == o.expansion_stack@
    &&& c.folder@ == o.folder@
    &&& c.selected == o.selected
    &&& c.selected_diagram == o.selected_diagram
    &&& c.metadata == o.metadata
}

pub proof fn lemma_step_grows(st: Replay, folder: Seq<Seq<char>>, a: SValue)
    ensures
        action_step(st, folder, a) matches Ok(n) ==> st.sig.is_prefix_of(n.sig) && st.next_id <= n.next_id,
{
    assert(st.sig =~= st.sig.subrange(0, st.sig.len() as int));
    if let Ok(n) = action_step(st, folder, a) {
        if n.sig.len() > st.sig.len() {
            assert(st.sig =~= n.sig.subrange(0, st.sig.len() as int));
        }
    }
}

/// What `actions [...]` does (see `Compiler::compile_actions`).
pub open spec fn actions_effect(c: Compiler, o: Compiler, acts: Seq<SValue>, span: Span) -> bool {
    let r = replay(replay_of(o), strings_view(o.folder@), acts, 0);
    &&& replay_of(c) == r.0
    &&& c.diags() == o.diags() + match r.1 {
        Some(m) => err(m, span),
        None => seq![],
    }
    &&& only_replay_changed(c, o)
}

impl Compiler {
    /// Adds the entry of a generator made by an action.
    fn add_action_generator(&mut self, g: Generator, d: Diagram)
        ensures
            sig_view(final(self).signature@) == sig_view(old(self).signature@).push(
                action_info(g, d@, strings_view(old(self).folder@)),
            ),
            only_replay_changed(*final(self), *old(self)),
            final(self).diagnostics@ == old(self).diagnostics@,
            final(self).next_generator_id == old(self).next_generator_id,
            final(self).boundary == old(self).boundary,
            final(self).workspace == old(self).workspace,
    {
        let name = String::from_str("Cell ");
        let name = name.concat(usize_to_string(g.id).as_str());
        let info = GeneratorInfo {
            generator: g,
            name,
            invertibility: Invertibility::Directed,
            color: color(g.id),
            diagram: d,
            folder: crate::compiler::copy_strings(&self.folder),
        };
        self.signature.push(info);
        assert(sig_view(self.signature@) =~= sig_view(old(self).signature@).push(
            action_info(g, info.diagram@, strings_view(old(self).folder@)),
        ));
    }

    /// Makes the generator from `s` to `t` (see `new_cell`).
    fn make_cell(&mut self, s: Diagram, t: Diagram) -> (r: Option<String>)
        requires
            valid_state(*old(self)),
            wf(s@),
            wf(t@),
        ensures
            valid_state(*final(self)),
            match new_cell(replay_of(*old(self)), strings_view(old(self).folder@), s@, t@) {
                Ok(n) => r is None && replay_of(*final(self)) == n,
                Err(m) => r matches Some(x) && x@ == m && replay_of(*final(self)) == replay_of(*old(self)),
            },
            only_replay_changed(*final(self), *old(self)),
            final(self).diagnostics@ == old(self).diagnostics@,
    {
        if s.dimension() != t.dimension() || !Diagram::parallel(&t, &s) || s.dimension() == usize::MAX {
            return Some(String::from_str("invalid actions payload: the boundaries are not parallel"));
        }
        if self.next_generator_id == usize::MAX {
            return Some(String::from_str("too many generators"));
        }
        let g = Generator::new(self.next_generator_id, s.dimension() + 1);
        let ghost sv = s@;
        let ghost tv = t@;
        match Diagram::from_generator(g, s, t) {
            Some(d) => {
                proof {
                    crate::laws::lemma_generator_wf(g, sv, tv);
                    crate::compiler::lemma_sig_wf_push(
                        sig_view(self.signature@),
                        action_info(g, d@, strings_view(self.folder@)),
                    );
                }
                self.add_action_generator(g, d);
                self.next_generator_id = self.next_generator_id + 1;
                self.boundary = None;
                self.workspace = None;
                None
            },
            None => Some(String::from_str("invalid actions payload: the boundaries are not parallel")),
        }
    }

    /// Performs one action (see `action_step`): `None` when it was done,
    /// else the reason it was refused, with nothing changed.
    #[verifier::rlimit(60)]
    #[verifier::loop_isolation(false)]
    pub fn perform_action(&mut self, a: &ActionValue) -> (r: Option<String>)
        requires
            valid_state(*old(self)),
        ensures
            valid_state(*final(self)),
            match action_step(replay_of(*old(self)), strings_view(old(self).folder@), a@) {
                Ok(n) => r is None && replay_of(*final(self)) == n,
                Err(m) => r matches Some(x) && x@ == m && replay_of(*final(self)) == replay_of(*old(self)),
            },
            only_replay_changed(*final(self), *old(self)),
            final(self).diagnostics@ == old(self).diagnostics@,
    {
        let ghost st = replay_of(*self);
        match a {
            ActionValue::Str(s) => {
                if str_eq(s.as_str(), "CreateGeneratorZero") {
                    if self.next_generator_id == usize::MAX {
                        return Some(String::from_str("too many generators"));
                    }
                    let g = Generator::new(self.next_generator_id, 0);
                    proof {
                        crate::compiler::lemma_sig_wf_push(
                            sig_view(self.signature@),
                            action_info(g, SDiagram::Point(g), strings_view(self.folder@)),
                        );
                    }
                    self.add_action_generator(g, Diagram::Point(g));
                    self.next_generator_id = self.next_generator_id + 1;
                    None
                } else {
                    Some(String::from_str("invalid actions payload: unsupported action"))
                }
            },
            ActionValue::Object(ms) => {
                proof {
                    lemma_members_view(ms@);
                }
                if ms.len() == 1 && str_eq(ms[0].key.as_str(), "SelectGenerator") {
                    match &ms[0].value {
                        ActionValue::Object(f) => {
                            let id = match find_member(f, "id") {
                                Some(ActionValue::Number(n)) => *n,
                                _ => {
                                    return Some(String::from_str("invalid actions payload: malformed SelectGenerator"));
                                },
                            };
                            let dim = match find_member(f, "dimension") {
                                Some(ActionValue::Number(n)) => *n,
                                _ => {
                                    return Some(String::from_str("invalid actions payload: malformed SelectGenerator"));
                                },
                            };
                            let g = Generator::new(id, dim);
                            let mut i: usize = 0;
                            while i < self.signature.len()
                                invariant
                                    i <= self.signature@.len(),
                                    st == replay_of(*self),
                                    *self == *old(self),
                                    find_generator(st.sig, g, i as int) == find_generator(st.sig, g, 0),
                                decreases self.signature@.len() - i,
                            {
                                assert(st.sig[i as int] == self.signature@[i as int]@);
                                assert(wf(st.sig[i as int].diagram));
                                if self.signature[i].generator == g {
                                    let d = self.signature[i].diagram.copy();
                                    self.workspace = Some(d);
                                    return None;
                                }
                                i = i + 1;
                            }
                            Some(String::from_str("invalid actions payload: unknown generator"))
                        },
                        _ => Some(String::from_str("invalid actions payload: malformed SelectGenerator")),
                    }
                } else if ms.len() == 1 && str_eq(ms[0].key.as_str(), "SetBoundary") {
                    match &ms[0].value {
                        ActionValue::Str(side) => {
                            let is_source = str_eq(side.as_str(), "Source");
                            let is_target = str_eq(side.as_str(), "Target");
                            if !is_source && !is_target {
                                return Some(String::from_str("invalid actions payload: malformed SetBoundary"));
                            }
                            let w = match self.workspace.take() {
                                Some(w) => w,
                                None => {
                                    return Some(String::from_str("invalid actions payload: no diagram is selected"));
                                },
                            };
                            let ghost wv = w@;
                            match self.boundary.take() {
                                Some((bs, b)) => {
                                    if bs != is_source {
                                        let ghost mid = *self;
                                        let ghost bv = b@;
                                        let w2 = w.copy();
                                        let b2 = b.copy();
                                        let r = if is_source {
                                            self.make_cell(w, b)
                                        } else {
                                            self.make_cell(b, w)
                                        };
                                        if r.is_some() {
                                            self.workspace = Some(w2);
                                            self.boundary = Some((bs, b2));
                                        }
                                        r
                                    } else {
                                        self.boundary = Some((is_source, w));
                                        None
                                    }
                                },
                                None => {
                                    self.boundary = Some((is_source, w));
                                    None
                                },
                            }
                        },
                        _ => Some(String::from_str("invalid actions payload: malformed SetBoundary")),
                    }
                } else {
                    Some(String::from_str("invalid actions payload: unsupported action"))
                }
            },
            _ => Some(String::from_str("invalid actions payload: unsupported action")),
        }
    }

    /// Compiles `actions [...]`: performs the actions in order (see `replay`);
    /// the first one refused is reported at the statement and ends the replay.
    pub fn compile_actions(&mut self, actions: &Vec<ActionValue>, span: Span)
        requires
            valid_state(*old(self)),
        ensures
            valid_state(*final(self)),
            actions_effect(*final(self), *old(self), values_view(actions@), span),
            only_replay_changed(*final(self), *old(self)),
            grows(*final(self), *old(self)),
    {
        proof {
            lemma_values_view(actions@);
            crate::declarations::lemma_grows_refl(*self);
        }
        let ghost acts = values_view(actions@);
        let ghost folder = strings_view(self.folder@);
        let ghost big = replay(replay_of(*self), folder, acts, 0);
        let mut i: usize = 0;
        while i < actions.len()
            invariant
                i <= actions@.len(),
                acts == values_view(actions@),
                acts.len() == actions@.len(),
                forall|j: int| 0 <= j < actions@.len() ==> #[trigger] acts[j] == actions@[j]@,
                folder == strings_view(old(self).folder@),
                big == replay(replay_of(*old(self)), folder, acts, 0),
                big == replay(replay_of(*self), folder, acts, i as int),
                self.diagnostics@ == old(self).diagnostics@,
                only_replay_changed(*self, *old(self)),
                grows(*self, *old(self)),
                valid_state(*self),
            decreases actions@.len() - i,
        {
            let ghost before = *self;
            proof {
                lemma_step_grows(replay_of(before), folder, acts[i as int]);
            }
            match self.perform_action(&actions[i]) {
                Some(m) => {
                    self.error(m, span);
                    assert(self.diags() =~= old(self).diags() + err(m@, span));
                    proof {
                        crate::declarations::lemma_prefix_append(old(self).diags(), err(m@, span));
                    }
                    return;
                },
                None => {},
            }
            proof {
                crate::declarations::lemma_prefix_trans(sig_view(old(self).signature@), sig_view(before.signature@), sig_view(self.signature@));
            }
            i = i + 1;
        }
        assert(self.diags() =~= old(self).diags() + seq![]);
    }
}

} // verus!
