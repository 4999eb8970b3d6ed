//! Repairing a tab whose opening was cut short.

use vstd::prelude::*;

use crate::action::{self, drop_action, perform_one, place_action, Action};
use crate::failure::Failure;
use crate::host::Host;
use crate::log::{self, Answer, Call, Entry};
use crate::state::{self, copied_option, MoveStep, Phase, StateFile, StateView, StepView};
use crate::text::{self, contains, copied, drop_item};

verus! {

/// The conversation of one move, which ends it.
pub open spec fn move_ran(
    call: Call,
    talk: Seq<Entry>,
    outcome: Result<bool, Failure>,
) -> bool {
    log::asks(talk, call) && match talk[0].answer {
        Answer::Done => talk.len() == 1 && outcome == Ok::<bool, Failure>(true),
        _ => log::stops(talk, outcome),
    }
}

/// The conversation of putting one parked pane back. A pane that is gone needs no place, and one
/// whose neighbour is gone goes to wherever herdr puts it.
pub open spec fn restore_ran(
    tab: Seq<char>,
    pane: Seq<char>,
    placement: Option<StepView>,
    talk: Seq<Entry>,
    outcome: Result<bool, Failure>,
) -> bool {
    log::asks(talk, Call::PaneAlive { pane }) && match talk[0].answer {
        Answer::Flag(false) => talk.len() == 1 && outcome == Ok::<bool, Failure>(false),
        Answer::Flag(true) => match placement {
            None => move_ran(action::drop_call(pane, tab), talk.skip(1), outcome),
            Some(step) => place_ran(tab, step, talk.skip(1), outcome),
        },
        _ => log::stops(talk, outcome),
    }
}

/// The conversation of putting a pane that is there back next to its neighbour.
pub open spec fn place_ran(
    tab: Seq<char>,
    step: StepView,
    talk: Seq<Entry>,
    outcome: Result<bool, Failure>,
) -> bool {
    log::asks(talk, Call::PaneAlive { pane: step.target }) && match talk[0].answer {
        Answer::Flag(true) => move_ran(action::place_call(tab, step), talk.skip(1), outcome),
        Answer::Flag(false) => move_ran(action::drop_call(step.pane, tab), talk.skip(1), outcome),
        _ => log::stops(talk, outcome),
    }
}

/// Put one parked pane back into a tab whose layout may have changed while it was away, and say
/// whether it was still there to move.
fn restore_parked<H: Host>(
    h: &mut H,
    tab: &str,
    pane: &str,
    placement: Option<&MoveStep>,
) -> (outcome: Result<bool, Failure>)
    requires
        placement matches Some(step) ==> step.pane@ == pane@,
    ensures
        log::extends(old(h).log(), final(h).log()),
        restore_ran(
            tab@,
            pane@,
            match placement {
                Some(step) => Some(step@),
                None => None,
            },
            log::since(old(h).log(), final(h).log()),
            outcome,
        ),
{
    let ghost before = h.log();
    match h.pane_alive(pane) {
        Ok(true) => {
            let ghost entry = h.log().last();
            let outcome: Result<bool, Failure> = match placement {
                Some(step) => restore_placed(h, tab, step),
                None => restore_by(h, &drop_action(pane, tab)),
            };
            proof {
                log::lemma_first(before, entry, h.log());
            }
            outcome
        },
        Ok(false) => {
            proof {
                log::lemma_one(before, h.log().last());
            }
            Ok(false)
        },
        Err(failure) => {
            proof {
                log::lemma_one(before, h.log().last());
            }
            Err(failure)
        },
    }
}

fn restore_placed<H: Host>(
    h: &mut H,
    tab: &str,
    step: &MoveStep,
) -> (outcome: Result<bool, Failure>)
    ensures
        log::extends(old(h).log(), final(h).log()),
        place_ran(tab@, step@, log::since(old(h).log(), final(h).log()), outcome),
{
    let ghost before = h.log();
    match h.pane_alive(step.target.as_str()) {
        Ok(alive) => {
            let ghost entry = h.log().last();
            let action: Action = if alive {
                place_action(tab, step)
            } else {
                drop_action(step.pane.as_str(), tab)
            };
            let outcome: Result<bool, Failure> = restore_by(h, &action);
            proof {
                log::lemma_first(before, entry, h.log());
            }
            outcome
        },
        Err(failure) => {
            proof {
                log::lemma_one(before, h.log().last());
            }
            Err(failure)
        },
    }
}

fn restore_by<H: Host>(h: &mut H, action: &Action) -> (outcome: Result<bool, Failure>)
    ensures
        log::extends(old(h).log(), final(h).log()),
        move_ran(action::call_of(*action), log::since(old(h).log(), final(h).log()), outcome),
{
    let ghost before = h.log();
    let outcome: Result<(), Failure> = perform_one(h, action);
    proof {
        log::lemma_one(before, h.log().last());
    }
    match outcome {
        Ok(_) => Ok(true),
        Err(failure) => Err(failure),
    }
}

/// The record of a tab once a pane needs no place any more.
pub open spec fn relieved_state(state: StateView, pane: Seq<char>) -> StateView {
    StateView { parked: text::without(state.parked, pane), ..state }
}

/// Whether the first `length` exchanges put a pane back, or found that it is gone.
pub open spec fn restored_in(
    tab: Seq<char>,
    pane: Seq<char>,
    placement: Option<StepView>,
    talk: Seq<Entry>,
    length: int,
    moved: bool,
) -> bool {
    &&& 0 <= length <= talk.len()
    &&& restore_ran(tab, pane, placement, talk.take(length), Ok::<bool, Failure>(moved))
}

/// The conversation of a recovery: first the record of the tab is asked for.
pub open spec fn recover_ran(
    tab: Seq<char>,
    talk: Seq<Entry>,
    outcome: Result<(), Failure>,
) -> bool {
    log::asks(talk, Call::LoadState { tab }) && match talk[0].answer {
        Answer::State(found) => match state::state_of(found) {
            Some(state) => if state.phase == Phase::Evacuating {
                sweep_ran(tab, state, talk.skip(1), outcome)
            } else {
                talk.len() == 1 && outcome is Ok
            },
            None => talk.len() == 1 && outcome is Ok,
        },
        _ => log::stops(talk, outcome),
    }
}

/// The conversation of a recovery from the sidebar that may stand already on: it is closed before
/// anything is moved.
pub open spec fn sweep_ran(
    tab: Seq<char>,
    state: StateView,
    talk: Seq<Entry>,
    outcome: Result<(), Failure>,
) -> bool {
    match state.sidebar_pane {
        Some(sidebar) => log::asks(talk, Call::PaneAlive { pane: sidebar })
            && match talk[0].answer {
            Answer::Flag(true) => close_ran(tab, state, sidebar, talk.skip(1), outcome),
            Answer::Flag(false) => replay_ran(
                tab,
                state,
                state.plan_steps,
                talk.skip(1),
                outcome,
            ),
            _ => log::stops(talk, outcome),
        },
        None => replay_ran(tab, state, state.plan_steps, talk, outcome),
    }
}

/// The conversation of a recovery from the closing of a sidebar that stands on.
pub open spec fn close_ran(
    tab: Seq<char>,
    state: StateView,
    sidebar: Seq<char>,
    talk: Seq<Entry>,
    outcome: Result<(), Failure>,
) -> bool {
    log::asks(talk, Call::ClosePane { pane: sidebar }) && match talk[0].answer {
        Answer::Done => replay_ran(tab, state, state.plan_steps, talk.skip(1), outcome),
        _ => log::stops(talk, outcome),
    }
}

/// The conversation of putting one parked pane back and recording that it needs no place any more.
pub open spec fn relieve_ran(
    state: StateView,
    pane: Seq<char>,
    placement: Option<StepView>,
    talk: Seq<Entry>,
    outcome: Result<(), Failure>,
) -> bool {
    ||| outcome is Err && restore_ran(
        state.tab,
        pane,
        placement,
        talk,
        Err::<bool, Failure>(outcome->Err_0),
    )
    ||| exists|length: int, moved: bool|
        {
            &&& #[trigger] restored_in(state.tab, pane, placement, talk, length, moved)
            &&& log::follows(
                talk.skip(length),
                seq![Call::SaveState { state: relieved_state(state, pane) }],
                outcome,
            )
        }
}

/// Whether the first `length` exchanges put a pane back and record that.
pub open spec fn relieved_in(
    state: StateView,
    pane: Seq<char>,
    placement: Option<StepView>,
    talk: Seq<Entry>,
    length: int,
) -> bool {
    &&& 0 <= length <= talk.len()
    &&& relieve_ran(state, pane, placement, talk.take(length), Ok::<(), Failure>(()))
}

/// The conversation of a recovery from the moves `steps` of the plan on: those of panes that are
/// still parked are made, one by one.
pub open spec fn replay_ran(
    tab: Seq<char>,
    state: StateView,
    steps: Seq<StepView>,
    talk: Seq<Entry>,
    outcome: Result<(), Failure>,
) -> bool
    decreases steps.len(),
{
    if steps.len() == 0 {
        gather_ran(tab, state, state.parked, talk, outcome)
    } else if !state.parked.contains(steps[0].pane) {
        replay_ran(tab, state, steps.drop_first(), talk, outcome)
    } else {
        let pane = steps[0].pane;
        ||| outcome is Err && relieve_ran(state, pane, Some(steps[0]), talk, outcome)
        ||| exists|length: int|
            {
                &&& #[trigger] relieved_in(state, pane, Some(steps[0]), talk, length)
                &&& replay_ran(
                    tab,
                    relieved_state(state, pane),
                    steps.drop_first(),
                    talk.skip(length),
                    outcome,
                )
            }
    }
}

/// The conversation of a recovery from the parked panes `panes`, which no move of the plan is left
/// for, on. In the end the record is removed.
pub open spec fn gather_ran(
    tab: Seq<char>,
    state: StateView,
    panes: Seq<Seq<char>>,
    talk: Seq<Entry>,
    outcome: Result<(), Failure>,
) -> bool
    decreases panes.len(),
{
    if panes.len() == 0 {
        log::follows(talk, seq![Call::RemoveState { tab }], outcome)
    } else {
        ||| outcome is Err && relieve_ran(state, panes[0], None, talk, outcome)
        ||| exists|length: int|
            {
                &&& #[trigger] relieved_in(state, panes[0], None, talk, length)
                &&& gather_ran(
                    tab,
                    relieved_state(state, panes[0]),
                    panes.drop_first(),
                    talk.skip(length),
                    outcome,
                )
            }
    }
}

fn relieve<H: Host>(
    h: &mut H,
    state: StateFile,
    pane: &str,
    placement: Option<&MoveStep>,
) -> (outcome: Result<StateFile, Failure>)
    requires
        placement matches Some(step) ==> step.pane@ == pane@,
    ensures
        log::extends(old(h).log(), final(h).log()),
        relieve_ran(
            state@,
            pane@,
            match placement {
                Some(step) => Some(step@),
                None => None,
            },
            log::since(old(h).log(), final(h).log()),
            match outcome {
                Ok(_) => Ok(()),
                Err(failure) => Err(failure),
            },
        ),
        outcome matches Ok(left) ==> left@ == relieved_state(state@, pane@) && left.plan_steps@
            == state.plan_steps@,
{
    let ghost before = h.log();
    let ghost step = match placement {
        Some(step) => Some(step@),
        None => None,
    };
    match restore_parked(h, state.tab.as_str(), pane, placement) {
        Ok(moved) => {
            let ghost middle = h.log();
            let ghost held = state@;
            let mut left: StateFile = state;
            left.parked = drop_item(&left.parked, pane);
            assert(left@ == relieved_state(held, pane@));
            let saved: Result<(), Failure> = h.save_state(&left);
            proof {
                log::lemma_one(middle, h.log().last());
                log::lemma_split(before, middle, h.log());
                let talk = log::since(before, h.log());
                let length = log::since(before, middle).len() as int;
                assert(restored_in(held.tab, pane@, step, talk, length, moved));
            }
            match saved {
                Ok(_) => Ok(left),
                Err(failure) => Err(failure),
            }
        },
        Err(failure) => Err(failure),
    }
}

fn replay<H: Host>(
    h: &mut H,
    tab: &str,
    state: StateFile,
    next: usize,
) -> (outcome: Result<(), Failure>)
    requires
        next <= state.plan_steps@.len(),
    ensures
        log::extends(old(h).log(), final(h).log()),
        replay_ran(
            tab@,
            state@,
            state@.plan_steps.skip(next as int),
            log::since(old(h).log(), final(h).log()),
            outcome,
        ),
    decreases state.plan_steps@.len() - next,
{
    let ghost held = state@;
    let ghost steps = held.plan_steps.skip(next as int);
    if next == state.plan_steps.len() {
        let panes: Vec<String> = copied(&state.parked);
        assert(held.parked.skip(0) =~= held.parked);
        return gather(h, tab, state, &panes, 0);
    }
    assert(steps.drop_first() =~= held.plan_steps.skip(next + 1));
    let step: MoveStep = state.plan_steps[next].copy();
    assert(steps[0] == step@);
    if !contains(&state.parked, step.pane.as_str()) {
        return replay(h, tab, state, next + 1);
    }
    let ghost before = h.log();
    match relieve(h, state, step.pane.as_str(), Some(&step)) {
        Ok(left) => {
            let ghost middle = h.log();
            let outcome: Result<(), Failure> = replay(h, tab, left, next + 1);
            proof {
                log::lemma_split(before, middle, h.log());
                let talk = log::since(before, h.log());
                let length = log::since(before, middle).len() as int;
                assert(relieved_in(held, step.pane@, Some(steps[0]), talk, length));
            }
            outcome
        },
        Err(failure) => Err(failure),
    }
}

fn gather<H: Host>(
    h: &mut H,
    tab: &str,
    state: StateFile,
    panes: &Vec<String>,
    next: usize,
) -> (outcome: Result<(), Failure>)
    requires
        next <= panes@.len(),
    ensures
        log::extends(old(h).log(), final(h).log()),
        gather_ran(
            tab@,
            state@,
            text::texts(panes@).skip(next as int),
            log::since(old(h).log(), final(h).log()),
            outcome,
        ),
    decreases panes@.len() - next,
{
    let ghost before = h.log();
    let ghost held = state@;
    let ghost rest = text::texts(panes@).skip(next as int);
    if next == panes.len() {
        let outcome: Result<(), Failure> = h.remove_state(tab);
        proof {
            log::lemma_one(before, h.log().last());
        }
        return outcome;
    }
    assert(rest.drop_first() =~= text::texts(panes@).skip(next + 1));
    assert(rest[0] == panes@[next as int]@);
    match relieve(h, state, panes[next].as_str(), None) {
        Ok(left) => {
            let ghost middle = h.log();
            let outcome: Result<(), Failure> = gather(h, tab, left, panes, next + 1);
            proof {
                log::lemma_split(before, middle, h.log());
                let talk = log::since(before, h.log());
                let length = log::since(before, middle).len() as int;
                assert(relieved_in(held, rest[0], None, talk, length));
            }
            outcome
        },
        Err(failure) => Err(failure),
    }
}

/// Put back the panes of a tab whose opening was cut short. A tab that needs no repair is left
/// alone.
pub fn recover<H: Host>(h: &mut H, tab: &str) -> (outcome: Result<(), Failure>)
    ensures
        log::extends(old(h).log(), final(h).log()),
        recover_ran(tab@, log::since(old(h).log(), final(h).log()), outcome),
{
    let ghost before = h.log();
    match h.load_state(tab) {
        Ok(found) => {
            let ghost entry = h.log().last();
            match found {
                Some(state) => {
                    if state.phase == Phase::Evacuating {
                        let outcome: Result<(), Failure> = sweep(h, tab, state);
                        proof {
                            log::lemma_first(before, entry, h.log());
                        }
                        return outcome;
                    }
                },
                None => {},
            }
            proof {
                log::lemma_one(before, entry);
            }
            Ok(())
        },
        Err(failure) => {
            proof {
                log::lemma_one(before, h.log().last());
            }
            Err(failure)
        },
    }
}

fn sweep<H: Host>(h: &mut H, tab: &str, state: StateFile) -> (outcome: Result<(), Failure>)
    ensures
        log::extends(old(h).log(), final(h).log()),
        sweep_ran(tab@, state@, log::since(old(h).log(), final(h).log()), outcome),
{
    let ghost before = h.log();
    assert(state@.plan_steps.skip(0) =~= state@.plan_steps);
    match copied_option(&state.sidebar_pane) {
        Some(sidebar) => match h.pane_alive(sidebar.as_str()) {
            Ok(alive) => {
                let ghost entry = h.log().last();
                let outcome: Result<(), Failure> = if alive {
                    sweep_closing(h, tab, state, sidebar.as_str())
                } else {
                    replay(h, tab, state, 0)
                };
                proof {
                    log::lemma_first(before, entry, h.log());
                }
                outcome
            },
            Err(failure) => {
                proof {
                    log::lemma_one(before, h.log().last());
                }
                Err(failure)
            },
        },
        None => replay(h, tab, state, 0),
    }
}

fn sweep_closing<H: Host>(
    h: &mut H,
    tab: &str,
    state: StateFile,
    sidebar: &str,
) -> (outcome: Result<(), Failure>)
    ensures
        log::extends(old(h).log(), final(h).log()),
        close_ran(
            tab@,
            state@,
            sidebar@,
            log::since(old(h).log(), final(h).log()),
            outcome,
        ),
{
    let ghost before = h.log();
    assert(state@.plan_steps.skip(0) =~= state@.plan_steps);
    match h.close_pane(sidebar) {
        Ok(_) => {
            let ghost entry = h.log().last();
            let outcome: Result<(), Failure> = replay(h, tab, state, 0);
            proof {
                log::lemma_first(before, entry, h.log());
            }
            outcome
        },
        Err(failure) => {
            proof {
                log::lemma_one(before, h.log().last());
            }
            Err(failure)
        },
    }
}

} // verus!
