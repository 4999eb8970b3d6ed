//! Where a recovery puts the panes that it brings back.

use vstd::prelude::*;

use crate::failure::Failure;
use crate::herdr::Dir;
use crate::log::{self, Answer, Call, Entry};
use crate::recovery;
use crate::state::{self, Phase, StateView, StepView};
use crate::text;

verus! {

/// Whether a pane is moved for the first time by this step of a plan.
pub open spec fn is_first_step(steps: Seq<StepView>, pane: Seq<char>, k: int) -> bool {
    &&& 0 <= k < steps.len()
    &&& steps[k].pane == pane
    &&& forall|j: int| 0 <= j < k ==> (#[trigger] steps[j]).pane != pane
}

/// Whether no step of a plan moves a pane.
pub open spec fn has_no_step(steps: Seq<StepView>, pane: Seq<char>) -> bool {
    forall|j: int| 0 <= j < steps.len() ==> (#[trigger] steps[j]).pane != pane
}

/// Whether an exchange finds a pane there or gone, as `alive` says.
pub open spec fn finds(entry: Entry, pane: Seq<char>, alive: bool) -> bool {
    entry.call == (Call::PaneAlive { pane }) && entry.answer == Answer::Flag(alive)
}

/// Whether the move at exchange `i` puts a pane back where the record says: into the tab of the
/// record, without focus, and next to the neighbour that the plan names for it where that is there,
/// in the direction and the ratio of the plan. A pane whose neighbour was found to be gone, and one
/// that the plan does not name, goes to wherever herdr puts it. The pane itself was found right
/// before.
pub open spec fn is_put_back(record: StateView, talk: Seq<Entry>, i: int) -> bool {
    let pane = talk[i].call->MovePane_pane;
    &&& talk[i].call->MovePane_tab == record.tab
    &&& !talk[i].call->MovePane_focus
    &&& record.parked.contains(pane)
    &&& match talk[i].call->MovePane_target {
        Some(neighbour) => {
            &&& i > 1
            &&& finds(talk[i - 1], neighbour, true)
            &&& finds(talk[i - 2], pane, true)
            &&& exists|k: int| #[trigger]
                is_first_step(record.plan_steps, pane, k) && {
                    &&& record.plan_steps[k].target == neighbour
                    &&& talk[i].call->MovePane_dir == record.plan_steps[k].dir
                    &&& talk[i].call->MovePane_ratio == Some(record.plan_steps[k].ratio)
                }
        },
        None => {
            &&& talk[i].call->MovePane_dir == Dir::Right
            &&& talk[i].call->MovePane_ratio is None
            &&& {
                ||| {
                    &&& i > 1
                    &&& finds(talk[i - 2], pane, true)
                    &&& exists|k: int| #[trigger]
                        is_first_step(record.plan_steps, pane, k) && finds(
                            talk[i - 1],
                            record.plan_steps[k].target,
                            false,
                        )
                }
                ||| {
                    &&& i > 0
                    &&& finds(talk[i - 1], pane, true)
                    &&& has_no_step(record.plan_steps, pane)
                }
            }
        },
    }
}

/// Whether every move of a conversation puts a pane back where the record says.
pub open spec fn puts_back(record: StateView, talk: Seq<Entry>) -> bool {
    forall|i: int|
        0 <= i < talk.len() && (#[trigger] talk[i]).call is MovePane ==> is_put_back(
            record,
            talk,
            i,
        )
}

proof fn lemma_put_back_longer(
    record: StateView,
    talk: Seq<Entry>,
    part: Seq<Entry>,
    at: int,
    i: int,
)
    requires
        0 <= at,
        at + part.len() <= talk.len(),
        forall|k: int| 0 <= k < part.len() ==> #[trigger] part[k] == talk[k + at],
        0 <= i < part.len(),
        is_put_back(record, part, i),
    ensures
        is_put_back(record, talk, i + at),
{
    assert(part[i] == talk[i + at]);
    if i > 0 {
        assert(part[i - 1] == talk[i - 1 + at]);
    }
    if i > 1 {
        assert(part[i - 2] == talk[i - 2 + at]);
    }
}

proof fn lemma_puts_back_joined(record: StateView, talk: Seq<Entry>, length: int)
    requires
        0 <= length <= talk.len(),
        puts_back(record, talk.take(length)),
        puts_back(record, talk.skip(length)),
    ensures
        puts_back(record, talk),
{
    let start = talk.take(length);
    let rest = talk.skip(length);
    assert forall|i: int|
        0 <= i < talk.len() && (#[trigger] talk[i]).call is MovePane implies is_put_back(
        record,
        talk,
        i,
    ) by {
        if i < length {
            assert(start[i] == talk[i]);
            lemma_put_back_longer(record, talk, start, 0, i);
        } else {
            assert(rest[i - length] == talk[i]);
            lemma_put_back_longer(record, talk, rest, length, i - length);
        }
    }
}

/// Whether `state` is what is left of a record of which the first `done` steps of the plan were
/// made.
spec fn is_left_of(record: StateView, state: StateView, done: int) -> bool {
    &&& state.tab == record.tab
    &&& 0 <= done <= record.plan_steps.len()
    &&& forall|pane: Seq<char>| #[trigger]
        state.parked.contains(pane) ==> record.parked.contains(pane) && forall|j: int|
            0 <= j < done ==> (#[trigger] record.plan_steps[j]).pane != pane
}

proof fn lemma_less_is_left(record: StateView, state: StateView, done: int, pane: Seq<char>)
    requires
        is_left_of(record, state, done),
    ensures
        is_left_of(record, recovery::relieved_state(state, pane), done),
        done < record.plan_steps.len() && record.plan_steps[done].pane == pane ==> is_left_of(
            record,
            recovery::relieved_state(state, pane),
            done + 1,
        ),
        done < record.plan_steps.len() && !state.parked.contains(record.plan_steps[done].pane)
            ==> is_left_of(record, state, done + 1),
{
    let left = recovery::relieved_state(state, pane);
    assert forall|other: Seq<char>| #[trigger] left.parked.contains(other) implies other != pane
        && state.parked.contains(other) by {
        text::lemma_without_contains(state.parked, pane, other);
    }
}

proof fn lemma_restore_puts_back(
    record: StateView,
    state: StateView,
    pane: Seq<char>,
    placement: Option<StepView>,
    k: int,
    talk: Seq<Entry>,
    outcome: Result<bool, Failure>,
)
    requires
        recovery::restore_ran(state.tab, pane, placement, talk, outcome),
        state.tab == record.tab,
        record.parked.contains(pane),
        placement matches Some(step) ==> is_first_step(record.plan_steps, pane, k)
            && record.plan_steps[k] == step,
        placement is None ==> has_no_step(record.plan_steps, pane),
    ensures
        puts_back(record, talk),
{
    if talk[0].answer == Answer::Flag(true) {
        let rest = talk.skip(1);
        assert(rest[0] == talk[1]);
        if placement is Some && rest[0].answer is Flag {
            let last = rest.skip(1);
            assert(last[0] == talk[2]);
            assert(is_first_step(record.plan_steps, pane, k));
            assert forall|i: int|
                0 <= i < talk.len() && (#[trigger] talk[i]).call is MovePane implies is_put_back(
                record,
                talk,
                i,
            ) by {
                assert(i == 2);
            }
        }
    }
}

proof fn lemma_relieve_puts_back(
    record: StateView,
    state: StateView,
    pane: Seq<char>,
    placement: Option<StepView>,
    k: int,
    talk: Seq<Entry>,
    outcome: Result<(), Failure>,
)
    requires
        recovery::relieve_ran(state, pane, placement, talk, outcome),
        state.tab == record.tab,
        record.parked.contains(pane),
        placement matches Some(step) ==> is_first_step(record.plan_steps, pane, k)
            && record.plan_steps[k] == step,
        placement is None ==> has_no_step(record.plan_steps, pane),
    ensures
        puts_back(record, talk),
{
    if outcome is Err && recovery::restore_ran(
        state.tab,
        pane,
        placement,
        talk,
        Err::<bool, Failure>(outcome->Err_0),
    ) {
        lemma_restore_puts_back(
            record,
            state,
            pane,
            placement,
            k,
            talk,
            Err::<bool, Failure>(outcome->Err_0),
        );
    } else {
        let (length, moved) = choose|length: int, moved: bool|
            {
                &&& #[trigger] recovery::restored_in(
                    state.tab,
                    pane,
                    placement,
                    talk,
                    length,
                    moved,
                )
                &&& log::follows(
                    talk.skip(length),
                    seq![Call::SaveState { state: recovery::relieved_state(state, pane) }],
                    outcome,
                )
            };
        lemma_restore_puts_back(
            record,
            state,
            pane,
            placement,
            k,
            talk.take(length),
            Ok::<bool, Failure>(moved),
        );
        lemma_puts_back_joined(record, talk, length);
    }
}

proof fn lemma_gather_puts_back(
    record: StateView,
    tab: Seq<char>,
    state: StateView,
    panes: Seq<Seq<char>>,
    talk: Seq<Entry>,
    outcome: Result<(), Failure>,
)
    requires
        recovery::gather_ran(tab, state, panes, talk, outcome),
        state.tab == record.tab,
        forall|i: int|
            0 <= i < panes.len() ==> record.parked.contains(#[trigger] panes[i]) && has_no_step(
                record.plan_steps,
                panes[i],
            ),
    ensures
        puts_back(record, talk),
    decreases panes.len(),
{
    if panes.len() > 0 {
        assert(record.parked.contains(panes[0]));
        if outcome is Err && recovery::relieve_ran(state, panes[0], None, talk, outcome) {
            lemma_relieve_puts_back(record, state, panes[0], None, 0, talk, outcome);
        } else {
            let left = recovery::relieved_state(state, panes[0]);
            let length = choose|length: int|
                {
                    &&& #[trigger] recovery::relieved_in(state, panes[0], None, talk, length)
                    &&& recovery::gather_ran(
                        tab,
                        left,
                        panes.drop_first(),
                        talk.skip(length),
                        outcome,
                    )
                };
            lemma_relieve_puts_back(
                record,
                state,
                panes[0],
                None,
                0,
                talk.take(length),
                Ok::<(), Failure>(()),
            );
            let later = panes.drop_first();
            assert forall|i: int| 0 <= i < later.len() implies record.parked.contains(
                #[trigger] later[i],
            ) && has_no_step(record.plan_steps, later[i]) by {
                assert(later[i] == panes[i + 1]);
            }
            lemma_gather_puts_back(record, tab, left, later, talk.skip(length), outcome);
            lemma_puts_back_joined(record, talk, length);
        }
    }
}

proof fn lemma_replay_puts_back(
    record: StateView,
    tab: Seq<char>,
    state: StateView,
    done: int,
    talk: Seq<Entry>,
    outcome: Result<(), Failure>,
)
    requires
        is_left_of(record, state, done),
        recovery::replay_ran(tab, state, record.plan_steps.skip(done), talk, outcome),
    ensures
        puts_back(record, talk),
    decreases record.plan_steps.len() - done,
{
    let steps = record.plan_steps.skip(done);
    if steps.len() == 0 {
        let panes = state.parked;
        assert forall|i: int| 0 <= i < panes.len() implies record.parked.contains(
            #[trigger] panes[i],
        ) && has_no_step(record.plan_steps, panes[i]) by {
            assert(state.parked.contains(panes[i]));
        }
        lemma_gather_puts_back(record, tab, state, panes, talk, outcome);
    } else {
        let step = steps[0];
        let pane = step.pane;
        assert(step == record.plan_steps[done]);
        assert(steps.drop_first() =~= record.plan_steps.skip(done + 1));
        lemma_less_is_left(record, state, done, pane);
        if !state.parked.contains(pane) {
            lemma_replay_puts_back(record, tab, state, done + 1, talk, outcome);
        } else {
            assert(is_first_step(record.plan_steps, pane, done));
            if outcome is Err && recovery::relieve_ran(state, pane, Some(step), talk, outcome) {
                lemma_relieve_puts_back(record, state, pane, Some(step), done, talk, outcome);
            } else {
                let left = recovery::relieved_state(state, pane);
                let length = choose|length: int|
                    {
                        &&& #[trigger] recovery::relieved_in(
                            state,
                            pane,
                            Some(steps[0]),
                            talk,
                            length,
                        )
                        &&& recovery::replay_ran(
                            tab,
                            left,
                            steps.drop_first(),
                            talk.skip(length),
                            outcome,
                        )
                    };
                lemma_relieve_puts_back(
                    record,
                    state,
                    pane,
                    Some(step),
                    done,
                    talk.take(length),
                    Ok::<(), Failure>(()),
                );
                lemma_replay_puts_back(record, tab, left, done + 1, talk.skip(length), outcome);
                lemma_puts_back_joined(record, talk, length);
            }
        }
    }
}

/// A recovery puts every pane that it moves back where the record says, whatever comes of it.
pub proof fn recovery_puts_panes_back(
    tab: Seq<char>,
    record: StateView,
    talk: Seq<Entry>,
    outcome: Result<(), Failure>,
)
    requires
        recovery::recover_ran(tab, talk, outcome),
        talk[0].answer is State,
        state::state_of(talk[0].answer->State_0) == Some(record),
    ensures
        puts_back(record, talk),
{
    if record.phase == Phase::Evacuating {
        assert(record.plan_steps.skip(0) =~= record.plan_steps);
        assert(is_left_of(record, record, 0));
        let rest = talk.skip(1);
        if let Some(sidebar) = record.sidebar_pane {
            assert(rest[0] == talk[1]);
            if rest[0].answer == Answer::Flag(true) {
                let last = rest.skip(1);
                assert(last[0] == talk[2]);
                if last[0].answer is Done {
                    lemma_replay_puts_back(record, tab, record, 0, last.skip(1), outcome);
                    lemma_puts_back_joined(record, last, 1);
                }
                lemma_puts_back_joined(record, rest, 1);
            } else if rest[0].answer == Answer::Flag(false) {
                lemma_replay_puts_back(record, tab, record, 0, rest.skip(1), outcome);
                lemma_puts_back_joined(record, rest, 1);
            }
        } else {
            lemma_replay_puts_back(record, tab, record, 0, rest, outcome);
        }
        lemma_puts_back_joined(record, talk, 1);
    }
}

/// A tab without a record, and one whose sidebar is on record as open, needs no repair: the record
/// is looked at, and that is all.
pub proof fn sound_tabs_are_left_alone(
    tab: Seq<char>,
    talk: Seq<Entry>,
    outcome: Result<(), Failure>,
)
    requires
        recovery::recover_ran(tab, talk, outcome),
        talk[0].answer is State,
        talk[0].answer->State_0 matches Some(record) ==> record.phase == Phase::Open,
    ensures
        talk.len() == 1,
        talk[0].call == (Call::LoadState { tab }),
        outcome is Ok,
{
}

} // verus!
