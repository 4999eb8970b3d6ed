//! What is recorded of a tab whose sidebar is open or being opened.

use vstd::prelude::*;

use crate::herdr::Dir;
use crate::text::{self, copied};

verus! {

/// How far the opening of a sidebar has come.
#[derive(Clone, Copy, Debug, PartialEq, Eq, Structural)]
pub enum Phase {
    /// Panes may be away from their tab; the record says which.
    Evacuating,
    /// The sidebar stands and every pane is back.
    Open,
}

/// One move that brings a pane back to its place. The ratio is the share of the target that stays
/// with it, in decimal.
#[derive(Clone, Debug, PartialEq, Eq)]
pub struct MoveStep {
    pub pane: String,
    pub dir: Dir,
    pub target: String,
    pub ratio: String,
}

/// A move, with its texts as characters.
pub struct StepView {
    pub pane: Seq<char>,
    pub dir: Dir,
    pub target: Seq<char>,
    pub ratio: Seq<char>,
}

impl View for MoveStep {
    type V = StepView;

    open spec fn view(&self) -> StepView {
        StepView {
            pane: self.pane@,
            dir: self.dir,
            target: self.target@,
            ratio: self.ratio@,
        }
    }
}

/// The moves of a list, as their views.
pub open spec fn steps_of(list: Seq<MoveStep>) -> Seq<StepView> {
    list.map_values(|step: MoveStep| step@)
}

/// How to rebuild the layout of a tab around the pane that never leaves it.
#[derive(Clone, Debug, PartialEq, Eq)]
pub struct RebuildPlan {
    pub anchor: String,
    pub steps: Vec<MoveStep>,
}

/// A rebuild plan, as its views.
pub struct PlanView {
    pub anchor: Seq<char>,
    pub steps: Seq<StepView>,
}

impl View for RebuildPlan {
    type V = PlanView;

    open spec fn view(&self) -> PlanView {
        PlanView { anchor: self.anchor@, steps: steps_of(self.steps@) }
    }
}

/// The record of one tab.
#[derive(Clone, Debug, PartialEq, Eq)]
pub struct StateFile {
    pub phase: Phase,
    pub workspace: String,
    pub tab: String,
    pub anchor: String,
    pub parking_tab: Option<String>,
    pub parked: Vec<String>,
    pub plan_steps: Vec<MoveStep>,
    pub sidebar_pane: Option<String>,
}

/// The record of a tab, as its views.
pub struct StateView {
    pub phase: Phase,
    pub workspace: Seq<char>,
    pub tab: Seq<char>,
    pub anchor: Seq<char>,
    pub parking_tab: Option<Seq<char>>,
    pub parked: Seq<Seq<char>>,
    pub plan_steps: Seq<StepView>,
    pub sidebar_pane: Option<Seq<char>>,
}

impl View for StateFile {
    type V = StateView;

    open spec fn view(&self) -> StateView {
        StateView {
            phase: self.phase,
            workspace: self.workspace@,
            tab: self.tab@,
            anchor: self.anchor@,
            parking_tab: text::text_of(self.parking_tab),
            parked: text::texts(self.parked@),
            plan_steps: steps_of(self.plan_steps@),
            sidebar_pane: text::text_of(self.sidebar_pane),
        }
    }
}

/// An optional record, as its view.
pub open spec fn state_of(state: Option<StateFile>) -> Option<StateView> {
    match state {
        Some(state) => Some(state@),
        None => None,
    }
}

impl MoveStep {
    /// A copy of this move.
    pub fn copy(&self) -> (copy: MoveStep)
        ensures
            copy == *self,
    {
        MoveStep {
            pane: self.pane.clone(),
            dir: self.dir,
            target: self.target.clone(),
            ratio: self.ratio.clone(),
        }
    }
}

/// A copy of a list of moves.
pub fn copied_steps(steps: &Vec<MoveStep>) -> (copy: Vec<MoveStep>)
    ensures
        copy@ == steps@,
{
    let mut copy: Vec<MoveStep> = Vec::new();
    for i in 0..steps.len()
        invariant
            copy@ == steps@.take(i as int),
    {
        copy.push(steps[i].copy());
        assert(steps@.take(i + 1) =~= steps@.take(i as int).push(steps@[i as int]));
    }
    assert(steps@.take(steps@.len() as int) =~= steps@);
    copy
}

/// A copy of an optional text.
pub fn copied_option(value: &Option<String>) -> (copy: Option<String>)
    ensures
        copy == *value,
{
    match value {
        Some(value) => Some(value.clone()),
        None => None,
    }
}

impl StateFile {
    /// A copy of this record.
    pub fn copy(&self) -> (copy: StateFile)
        ensures
            copy@ == self@,
    {
        StateFile {
            phase: self.phase,
            workspace: self.workspace.clone(),
            tab: self.tab.clone(),
            anchor: self.anchor.clone(),
            parking_tab: copied_option(&self.parking_tab),
            parked: copied(&self.parked),
            plan_steps: copied_steps(&self.plan_steps),
            sidebar_pane: copied_option(&self.sidebar_pane),
        }
    }
}

} // verus!
