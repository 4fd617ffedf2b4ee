//! The workbench panel's decisions: which tab is shown, what a message does,
//! and the error count on the source tab.
use vstd::prelude::*;

use crate::diagnostics::{diags_view, Diagnostic, SDiagnostic, Severity};

verus! {

/// The two tabs of the workbench.
#[derive(Debug, Clone, Copy, PartialEq, Eq, Structural)]
pub enum WorkbenchTab {
    Source,
    Library,
}

/// A message to the workbench: a tab was chosen, or the source is to be applied.
#[derive(Debug, Clone, Copy, PartialEq, Eq, Structural)]
pub enum Msg {
    Select(WorkbenchTab),
    Apply,
}

/// What the workbench does after a message: whether it renders again, and
/// whether it asks for the source to be applied.
#[derive(Debug, Clone, Copy, PartialEq, Eq, Structural)]
pub struct Update {
    pub render: bool,
    pub apply_source: bool,
}

/// How a tab button is drawn.
#[derive(Debug, Clone, Copy)]
pub struct TabButton {
    pub class: &'static str,
    pub selected: &'static str,
    pub badge: Option<usize>,
}

/// The workbench state: the active tab.
#[derive(Debug, Clone, Copy, PartialEq, Eq, Structural)]
pub struct WorkbenchPanel {
    pub active: WorkbenchTab,
}

impl WorkbenchPanel {
    /// A workbench showing the source tab.
    pub fn create() -> (r: WorkbenchPanel)
        ensures
            r.active == WorkbenchTab::Source,
    {
        WorkbenchPanel { active: WorkbenchTab::Source }
    }

    /// Handles a message: choosing a tab shows it and renders again only if
    /// it was not already shown; applying asks for the source to be applied
    /// and leaves the tab as it is.
    pub fn update(&mut self, msg: Msg) -> (r: Update)
        ensures
            match msg {
                Msg::Select(tab) => final(self).active == tab && r.render == (old(self).active != tab)
                    && !r.apply_source,
                Msg::Apply => *final(self) == *old(self) && !r.render && r.apply_source,
            },
    {
        match msg {
            Msg::Select(tab) => {
                if self.active == tab {
                    Update { render: false, apply_source: false }
                } else {
                    self.active = tab;
                    Update { render: true, apply_source: false }
                }
            },
            Msg::Apply => Update { render: false, apply_source: true },
        }
    }

    /// Whether a tab is the active one.
    pub fn is_selected(&self, tab: WorkbenchTab) -> (r: bool)
        ensures
            r == (self.active == tab),
    {
        self.active == tab
    }

    /// How the button of a tab is drawn: its style classes, its
    /// `aria-selected` value, and the badge with `count` when it is not zero.
    pub fn tab_button(&self, tab: WorkbenchTab, count: usize) -> (r: TabButton)
        ensures
            r.class@ == (if self.active == tab {
                "workbench-tab workbench-tab--active"@
            } else {
                "workbench-tab"@
            }),
            r.selected@ == (if self.active == tab {
                "true"@
            } else {
                "false"@
            }),
            r.badge == (if count > 0 {
                Some(count)
            } else {
                None
            }),
    {
        let selected = self.active == tab;
        TabButton {
            class: if selected {
                "workbench-tab workbench-tab--active"
            } else {
                "workbench-tab"
            },
            selected: if selected {
                "true"
            } else {
                "false"
            },
            badge: if count > 0 {
                Some(count)
            } else {
                None
            },
        }
    }

    /// Whether the apply button is shown: only on the source tab.
    pub fn shows_apply(&self) -> (r: bool)
        ensures
            r == (self.active == WorkbenchTab::Source),
    {
        self.active == WorkbenchTab::Source
    }
}

/// The number of errors among the diagnostics.
pub open spec fn count_errors(d: Seq<SDiagnostic>) -> nat
    decreases d.len(),
{
    if d.len() == 0 {
        0
    } else {
        count_errors(d.drop_last()) + if d.last().severity == Severity::Error {
            1nat
        } else {
            0nat
        }
    }
}

pub proof fn lemma_count_errors_bound(d: Seq<SDiagnostic>)
    ensures
        count_errors(d) <= d.len(),
    decreases d.len(),
{
    if d.len() > 0 {
        lemma_count_errors_bound(d.drop_last());
    }
}

/// The number of errors among the diagnostics (see `count_errors`).
pub fn error_count(diags: &Vec<Diagnostic>) -> (r: usize)
    ensures
        r == count_errors(diags_view(diags@)),
{
    let ghost d = diags_view(diags@);
    let mut n: usize = 0;
    let mut i: usize = 0;
    while i < diags.len()
        invariant
            i <= diags@.len(),
            d == diags_view(diags@),
            n == count_errors(d.subrange(0, i as int)),
            n <= i,
        decreases diags@.len() - i,
    {
        assert(d.subrange(0, i + 1).drop_last() =~= d.subrange(0, i as int));
        if diags[i].severity == Severity::Error {
            n = n + 1;
        }
        i = i + 1;
    }
    assert(d.subrange(0, i as int) =~= d);
    n
}

} // verus!
