//! In which order a recovery puts panes back.

use vstd::prelude::*;

use crate::failure::Failure;
use crate::log::{self, Answer, Call, Entry};
use crate::recovery;
use crate::restoring_laws::{has_no_step, is_first_step};
use crate::state::{self, Phase, StateView, StepView};
use crate::text;

verus! {

/// Whether the plan has a pane no later than another, where it has the other at all.
pub open spec fn comes_first(steps: Seq<StepView>, pane: Seq<char>, other: Seq<char>) -> bool {
    forall|k: int| #[trigger]
        is_first_step(steps, other, k) ==> exists|l: int|
            l <= k && #[trigger] is_first_step(steps, pane, l)
}

/// Whether none of the first steps of a plan moves a pane.
spec fn is_later(steps: Seq<StepView>, pane: Seq<char>, done: int) -> bool {
    forall|j: int| 0 <= j < done ==> (#[trigger] steps[j]).pane != pane
}

/// Whether every move of a conversation is of a pane that none of the first steps moves.
spec fn moves_later(steps: Seq<StepView>, talk: Seq<Entry>, done: int) -> bool {
    forall|i: int|
        0 <= i < talk.len() && (#[trigger] talk[i]).call is MovePane ==> is_later(
            steps,
            talk[i].call->MovePane_pane,
            done,
        )
}

/// Whether the moves of a conversation are in the order of the plan.
spec fn moves_in_order(steps: Seq<StepView>, talk: Seq<Entry>) -> bool {
    forall|i: int, j: int|
        0 <= i < j < talk.len() && (#[trigger] talk[i]).call is MovePane && (
        #[trigger] talk[j]).call is MovePane ==> comes_first(
            steps,
            talk[i].call->MovePane_pane,
            talk[j].call->MovePane_pane,
        )
}

/// Whether every move of a conversation is of this pane.
spec fn moves_only(pane: Seq<char>, talk: Seq<Entry>) -> bool {
    forall|i: int|
        0 <= i < talk.len() && (#[trigger] talk[i]).call is MovePane
            ==> talk[i].call->MovePane_pane == pane
}

proof fn lemma_restore_moves(
    tab: Seq<char>,
    pane: Seq<char>,
    placement: Option<StepView>,
    talk: Seq<Entry>,
    outcome: Result<bool, Failure>,
)
    requires
        recovery::restore_ran(tab, pane, placement, talk, outcome),
        placement matches Some(step) ==> step.pane == pane,
    ensures
        moves_only(pane, talk),
{
    if talk[0].answer == Answer::Flag(true) {
        let rest = talk.skip(1);
        assert(rest[0] == talk[1]);
        if placement is Some && rest[0].answer is Flag {
            assert(rest.skip(1)[0] == talk[2]);
        }
    }
}

proof fn lemma_relieve_moves(
    state: StateView,
    pane: Seq<char>,
    placement: Option<StepView>,
    talk: Seq<Entry>,
    outcome: Result<(), Failure>,
)
    requires
        recovery::relieve_ran(state, pane, placement, talk, outcome),
        placement matches Some(step) ==> step.pane == pane,
    ensures
        moves_only(pane, talk),
{
    if outcome is Err && recovery::restore_ran(
        state.tab,
        pane,
        placement,
        talk,
        Err::<bool, Failure>(outcome->Err_0),
    ) {
        lemma_restore_moves(
            state.tab,
            pane,
            placement,
            talk,
            Err::<bool, Failure>(outcome->Err_0),
        );
    } else {
        let calls = seq![Call::SaveState { state: recovery::relieved_state(state, pane) }];
        let (length, moved) = choose|length: int, moved: bool|
            {
                &&& #[trigger] recovery::restored_in(
                    state.tab,
                    pane,
                    placement,
                    talk,
                    length,
                    moved,
                )
                &&& log::follows(
                    talk.skip(length),
                    seq![Call::SaveState { state: recovery::relieved_state(state, pane) }],
                    outcome,
                )
            };
        let head = talk.take(length);
        let rest = talk.skip(length);
        lemma_restore_moves(state.tab, pane, placement, head, Ok::<bool, Failure>(moved));
        assert forall|i: int|
            0 <= i < talk.len() && (#[trigger] talk[i]).call
                is MovePane implies talk[i].call->MovePane_pane == pane by {
            if i < length {
                assert(head[i] == talk[i]);
            } else {
                assert(rest[i - length] == talk[i]);
                assert(rest[i - length].call == calls[i - length]);
            }
        }
    }
}

proof fn lemma_gather_moves(
    tab: Seq<char>,
    state: StateView,
    panes: Seq<Seq<char>>,
    talk: Seq<Entry>,
    outcome: Result<(), Failure>,
)
    requires
        recovery::gather_ran(tab, state, panes, talk, outcome),
    ensures
        forall|i: int|
            0 <= i < talk.len() && (#[trigger] talk[i]).call is MovePane ==> panes.contains(
                talk[i].call->MovePane_pane,
            ),
    decreases panes.len(),
{
    if panes.len() == 0 {
        let calls = seq![Call::RemoveState { tab }];
        assert forall|i: int| 0 <= i < talk.len() implies !((#[trigger] talk[i]).call
            is MovePane) by {
            assert(talk[i].call == calls[i]);
        }
    } else {
        assert(panes.contains(panes[0]));
        if outcome is Err && recovery::relieve_ran(state, panes[0], None, talk, outcome) {
            lemma_relieve_moves(state, panes[0], None, talk, outcome);
        } else {
            let left = recovery::relieved_state(state, panes[0]);
            let later = panes.drop_first();
            let length = choose|length: int|
                {
                    &&& #[trigger] recovery::relieved_in(state, panes[0], None, talk, length)
                    &&& recovery::gather_ran(tab, left, later, talk.skip(length), outcome)
                };
            let head = talk.take(length);
            let rest = talk.skip(length);
            lemma_relieve_moves(state, panes[0], None, head, Ok::<(), Failure>(()));
            lemma_gather_moves(tab, left, later, rest, outcome);
            assert forall|i: int|
                0 <= i < talk.len() && (#[trigger] talk[i]).call
                    is MovePane implies panes.contains(talk[i].call->MovePane_pane) by {
                if i < length {
                    assert(head[i] == talk[i]);
                } else {
                    assert(rest[i - length] == talk[i]);
                    let k = later.index_of(talk[i].call->MovePane_pane);
                    assert(panes[k + 1] == later[k]);
                }
            }
        }
    }
}

/// Whether no pane that is parked is one of the first steps.
spec fn parks_later(steps: Seq<StepView>, state: StateView, done: int) -> bool {
    forall|pane: Seq<char>| #[trigger]
        state.parked.contains(pane) ==> is_later(steps, pane, done)
}

proof fn lemma_step_done(steps: Seq<StepView>, state: StateView, done: int)
    requires
        0 <= done < steps.len(),
        parks_later(steps, state, done),
    ensures
        parks_later(steps, recovery::relieved_state(state, steps[done].pane), done + 1),
        !state.parked.contains(steps[done].pane) ==> parks_later(steps, state, done + 1),
{
    let left = recovery::relieved_state(state, steps[done].pane);
    assert forall|pane: Seq<char>| #[trigger] left.parked.contains(pane) implies is_later(
        steps,
        pane,
        done + 1,
    ) by {
        text::lemma_without_contains(state.parked, steps[done].pane, pane);
        assert(is_later(steps, pane, done));
    }
    if !state.parked.contains(steps[done].pane) {
        assert forall|pane: Seq<char>| #[trigger] state.parked.contains(pane) implies is_later(
            steps,
            pane,
            done + 1,
        ) by {
            assert(is_later(steps, pane, done));
        }
    }
}

proof fn lemma_stretch_in_order(
    steps: Seq<StepView>,
    done: int,
    talk: Seq<Entry>,
    length: int,
)
    requires
        0 <= done < steps.len(),
        0 <= length <= talk.len(),
        is_first_step(steps, steps[done].pane, done),
        moves_only(steps[done].pane, talk.take(length)),
        moves_later(steps, talk.skip(length), done + 1),
        moves_in_order(steps, talk.skip(length)),
    ensures
        moves_later(steps, talk, done),
        moves_in_order(steps, talk),
{
    let pane = steps[done].pane;
    let head = talk.take(length);
    let rest = talk.skip(length);
    assert forall|i: int|
        0 <= i < talk.len() && (#[trigger] talk[i]).call is MovePane implies is_later(
        steps,
        talk[i].call->MovePane_pane,
        done,
    ) by {
        if i < length {
            assert(head[i] == talk[i]);
        } else {
            assert(rest[i - length] == talk[i]);
        }
    }
    assert forall|i: int, j: int|
        0 <= i < j < talk.len() && (#[trigger] talk[i]).call is MovePane && (
        #[trigger] talk[j]).call is MovePane implies comes_first(
        steps,
        talk[i].call->MovePane_pane,
        talk[j].call->MovePane_pane,
    ) by {
        if length <= i {
            assert(rest[i - length] == talk[i]);
            assert(rest[j - length] == talk[j]);
        } else {
            assert(head[i] == talk[i]);
            assert(talk[i].call->MovePane_pane == pane);
            let other = talk[j].call->MovePane_pane;
            if j < length {
                assert(head[j] == talk[j]);
            } else {
                assert(rest[j - length] == talk[j]);
                assert(is_later(steps, other, done + 1));
            }
            assert forall|k: int| #[trigger] is_first_step(steps, other, k) implies exists|l: int|
                l <= k && #[trigger] is_first_step(steps, pane, l) by {
                if k < done {
                    assert(steps[k].pane == other);
                }
                assert(done <= k && is_first_step(steps, pane, done));
            }
        }
    }
}

proof fn lemma_replay_in_order(
    steps: Seq<StepView>,
    tab: Seq<char>,
    state: StateView,
    done: int,
    talk: Seq<Entry>,
    outcome: Result<(), Failure>,
)
    requires
        0 <= done <= steps.len(),
        parks_later(steps, state, done),
        recovery::replay_ran(tab, state, steps.skip(done), talk, outcome),
    ensures
        moves_later(steps, talk, done),
        moves_in_order(steps, talk),
    decreases steps.len() - done,
{
    let left_steps = steps.skip(done);
    if left_steps.len() == 0 {
        lemma_gather_moves(tab, state, state.parked, talk, outcome);
        assert forall|i: int, j: int|
            0 <= i < j < talk.len() && (#[trigger] talk[i]).call is MovePane && (
            #[trigger] talk[j]).call is MovePane implies comes_first(
            steps,
            talk[i].call->MovePane_pane,
            talk[j].call->MovePane_pane,
        ) by {
            let other = talk[j].call->MovePane_pane;
            assert(is_later(steps, other, done));
            assert(has_no_step(steps, other));
        }
    } else {
        let step = left_steps[0];
        let pane = step.pane;
        assert(step == steps[done]);
        assert(left_steps.drop_first() =~= steps.skip(done + 1));
        lemma_step_done(steps, state, done);
        if !state.parked.contains(pane) {
            lemma_replay_in_order(steps, tab, state, done + 1, talk, outcome);
            assert forall|i: int|
                0 <= i < talk.len() && (#[trigger] talk[i]).call is MovePane implies is_later(
                steps,
                talk[i].call->MovePane_pane,
                done,
            ) by {
                assert(is_later(steps, talk[i].call->MovePane_pane, done + 1));
            }
        } else {
            assert(is_later(steps, pane, done));
            assert(is_first_step(steps, pane, done));
            if outcome is Err && recovery::relieve_ran(state, pane, Some(step), talk, outcome) {
                lemma_relieve_moves(state, pane, Some(step), talk, outcome);
                let length = talk.len() as int;
                assert(talk.take(length) =~= talk);
                assert(talk.skip(length).len() == 0);
                lemma_stretch_in_order(steps, done, talk, length);
            } else {
                let left = recovery::relieved_state(state, pane);
                let length = choose|length: int|
                    {
                        &&& #[trigger] recovery::relieved_in(
                            state,
                            pane,
                            Some(left_steps[0]),
                            talk,
                            length,
                        )
                        &&& recovery::replay_ran(
                            tab,
                            left,
                            left_steps.drop_first(),
                            talk.skip(length),
                            outcome,
                        )
                    };
                lemma_relieve_moves(
                    state,
                    pane,
                    Some(step),
                    talk.take(length),
                    Ok::<(), Failure>(()),
                );
                lemma_replay_in_order(steps, tab, left, done + 1, talk.skip(length), outcome);
                lemma_stretch_in_order(steps, done, talk, length);
            }
        }
    }
}

/// Panes are put back in the order of the plan: of two moves of a recovery, whatever comes of it,
/// the first is of a pane that the plan has earlier. So a pane stands before another is put next to
/// it. Panes that the plan does not have come last.
pub proof fn recovery_keeps_the_order_of_the_plan(
    tab: Seq<char>,
    record: StateView,
    talk: Seq<Entry>,
    outcome: Result<(), Failure>,
    i: int,
    j: int,
)
    requires
        recovery::recover_ran(tab, talk, outcome),
        talk[0].answer is State,
        state::state_of(talk[0].answer->State_0) == Some(record),
        0 <= i < j < talk.len(),
        talk[i].call is MovePane,
        talk[j].call is MovePane,
    ensures
        comes_first(
            record.plan_steps,
            talk[i].call->MovePane_pane,
            talk[j].call->MovePane_pane,
        ),
{
    if record.phase == Phase::Evacuating {
        let steps = record.plan_steps;
        assert(steps.skip(0) =~= steps);
        assert(parks_later(steps, record, 0));
        let rest = talk.skip(1);
        assert(rest[i - 1] == talk[i]);
        assert(rest[j - 1] == talk[j]);
        if record.sidebar_pane is Some {
            assert(rest[0] == talk[1]);
            let last = rest.skip(1);
            assert(last[i - 2] == talk[i]);
            assert(last[j - 2] == talk[j]);
            if rest[0].answer == Answer::Flag(true) {
                assert(last[0] == talk[2]);
                let final_part = last.skip(1);
                assert(final_part[i - 3] == talk[i]);
                assert(final_part[j - 3] == talk[j]);
                lemma_replay_in_order(steps, tab, record, 0, final_part, outcome);
            } else {
                lemma_replay_in_order(steps, tab, record, 0, last, outcome);
            }
        } else {
            lemma_replay_in_order(steps, tab, record, 0, rest, outcome);
        }
    }
}

} // verus!
