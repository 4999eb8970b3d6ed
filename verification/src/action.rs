//! Things to do to panes and records, of which only success or failure is told.

use vstd::prelude::*;

use crate::failure::Failure;
use crate::herdr::{self, Dir};
use crate::host::Host;
use crate::log::{self, Answer, Call, Entry};
use crate::state::{MoveStep, StateFile, StepView};
use crate::text;

verus! {

/// One thing to do of which only success or failure is told.
pub enum Action {
    Save { state: StateFile },
    Move {
        pane: String,
        tab: String,
        dir: Dir,
        target: Option<String>,
        ratio: Option<String>,
    },
    Close { pane: String },
}

/// The exchange that an action is.
pub open spec fn call_of(action: Action) -> Call {
    match action {
        Action::Save { state } => Call::SaveState { state: state@ },
        Action::Move { pane, tab, dir, target, ratio } => Call::MovePane {
            pane: pane@,
            tab: tab@,
            dir,
            target: text::text_of(target),
            ratio: text::text_of(ratio),
            focus: false,
        },
        Action::Close { pane } => Call::ClosePane { pane: pane@ },
    }
}

/// The exchanges that the actions of a list are.
pub open spec fn calls_of(actions: Seq<Action>) -> Seq<Call> {
    actions.map_values(|action: Action| call_of(action))
}

fn borrowed(value: &Option<String>) -> (slice: Option<&str>)
    ensures
        herdr::slice_of(slice) == text::text_of(*value),
{
    match value {
        Some(value) => Some(value.as_str()),
        None => None,
    }
}

pub fn perform_one<H: Host>(h: &mut H, action: &Action) -> (outcome: Result<(), Failure>)
    ensures
        final(h).log() == old(h).log().push(
            Entry {
                call: call_of(*action),
                answer: match outcome {
                    Ok(_) => Answer::Done,
                    Err(failure) => Answer::Failed(failure),
                },
            },
        ),
{
    match action {
        Action::Save { state } => h.save_state(state),
        Action::Move { pane, tab, dir, target, ratio } => h.move_pane(
            pane,
            tab,
            *dir,
            borrowed(target),
            borrowed(ratio),
            false,
        ),
        Action::Close { pane } => h.close_pane(pane),
    }
}

/// Carry out a list of actions, up to the first one that fails.
pub fn perform<H: Host>(h: &mut H, actions: &Vec<Action>) -> (outcome: Result<(), Failure>)
    ensures
        log::extends(old(h).log(), final(h).log()),
        log::follows(log::since(old(h).log(), final(h).log()), calls_of(actions@), outcome),
{
    let ghost before = h.log();
    proof {
        log::lemma_nothing(before);
    }
    for i in 0..actions.len()
        invariant
            before == old(h).log(),
            log::extends(before, h.log()),
            log::follows(
                log::since(before, h.log()),
                calls_of(actions@).take(i as int),
                Ok::<(), Failure>(()),
            ),
    {
        let ghost middle = h.log();
        let outcome: Result<(), Failure> = perform_one(h, &actions[i]);
        proof {
            log::lemma_since_push(before, middle, h.log().last());
        }
        match outcome {
            Ok(_) => {},
            Err(failure) => return Err(failure),
        }
    }
    assert(calls_of(actions@).take(actions@.len() as int) =~= calls_of(actions@));
    Ok(())
}

/// Moving a pane to wherever herdr puts it in a tab.
pub open spec fn drop_call(pane: Seq<char>, tab: Seq<char>) -> Call {
    Call::MovePane { pane, tab, dir: Dir::Right, target: None, ratio: None, focus: false }
}

/// Moving a pane to its place next to another.
pub open spec fn place_call(tab: Seq<char>, step: StepView) -> Call {
    Call::MovePane {
        pane: step.pane,
        tab,
        dir: step.dir,
        target: Some(step.target),
        ratio: Some(step.ratio),
        focus: false,
    }
}

/// Moving a pane to wherever herdr puts it in a tab.
pub fn drop_action(pane: &str, tab: &str) -> (action: Action)
    ensures
        call_of(action) == drop_call(pane@, tab@),
{
    Action::Move {
        pane: pane.to_owned(),
        tab: tab.to_owned(),
        dir: Dir::Right,
        target: None,
        ratio: None,
    }
}

/// Moving a pane to its place next to another.
pub fn place_action(tab: &str, step: &MoveStep) -> (action: Action)
    ensures
        call_of(action) == place_call(tab@, step@),
{
    Action::Move {
        pane: step.pane.clone(),
        tab: tab.to_owned(),
        dir: step.dir,
        target: Some(step.target.clone()),
        ratio: Some(step.ratio.clone()),
    }
}

} // verus!
