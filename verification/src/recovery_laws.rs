//! What holds of every recovery, whatever herdr answers.

use vstd::prelude::*;

use crate::failure::Failure;
use crate::log::{self, Answer, Call, Entry};
use crate::recovery;
use crate::state::{self, Phase, StateView, StepView};
use crate::text;

verus! {

/// Whether a conversation ends with its first failed exchange, with that failure as outcome, or
/// has no failed exchange and succeeds.
pub open spec fn ends_at_failure(talk: Seq<Entry>, outcome: Result<(), Failure>) -> bool {
    &&& talk.len() > 0
    &&& forall|i: int| 0 <= i < talk.len() - 1 ==> !log::failed(#[trigger] talk[i])
    &&& match outcome {
        Ok(_) => !log::failed(talk.last()),
        Err(failure) => talk.last().answer == Answer::Failed(failure),
    }
}

/// A conversation whose first stretch succeeds ends as the rest of it does.
pub proof fn lemma_ends_later(talk: Seq<Entry>, length: int, outcome: Result<(), Failure>)
    requires
        0 <= length <= talk.len(),
        forall|i: int| 0 <= i < length ==> !log::failed(#[trigger] talk[i]),
        ends_at_failure(talk.skip(length), outcome),
    ensures
        ends_at_failure(talk, outcome),
{
    let rest = talk.skip(length);
    assert forall|i: int| 0 <= i < talk.len() - 1 implies !log::failed(#[trigger] talk[i]) by {
        if i >= length {
            assert(talk[i] == rest[i - length]);
        }
    }
    assert(talk.last() == rest.last());
}

/// A stretch that succeeds has no failed exchange.
pub proof fn lemma_none_failed(talk: Seq<Entry>, length: int)
    requires
        0 <= length <= talk.len(),
        ends_at_failure(talk.take(length), Ok::<(), Failure>(())),
    ensures
        forall|i: int| 0 <= i < length ==> !log::failed(#[trigger] talk[i]),
{
    let start = talk.take(length);
    assert forall|i: int| 0 <= i < length implies !log::failed(#[trigger] talk[i]) by {
        assert(talk[i] == start[i]);
        if i == length - 1 {
            assert(start.last() == talk[i]);
        }
    }
}

proof fn lemma_restore_ends(
    tab: Seq<char>,
    pane: Seq<char>,
    placement: Option<StepView>,
    talk: Seq<Entry>,
    outcome: Result<bool, Failure>,
)
    requires
        recovery::restore_ran(tab, pane, placement, talk, outcome),
    ensures
        ends_at_failure(
            talk,
            match outcome {
                Ok(_) => Ok(()),
                Err(failure) => Err(failure),
            },
        ),
{
    if talk[0].answer == Answer::Flag(true) {
        let rest = talk.skip(1);
        assert(rest[0] == talk[1]);
        if placement is Some && rest[0].answer is Flag {
            assert(rest.skip(1)[0] == talk[2]);
        }
    }
}

proof fn lemma_relieve_ends(
    state: StateView,
    pane: Seq<char>,
    placement: Option<StepView>,
    talk: Seq<Entry>,
    outcome: Result<(), Failure>,
)
    requires
        recovery::relieve_ran(state, pane, placement, talk, outcome),
    ensures
        ends_at_failure(talk, outcome),
{
    if outcome is Err && recovery::restore_ran(
        state.tab,
        pane,
        placement,
        talk,
        Err::<bool, Failure>(outcome->Err_0),
    ) {
        lemma_restore_ends(
            state.tab,
            pane,
            placement,
            talk,
            Err::<bool, Failure>(outcome->Err_0),
        );
    } else {
        let (length, moved) = choose|length: int, moved: bool|
            {
                &&& #[trigger] recovery::restored_in(
                    state.tab,
                    pane,
                    placement,
                    talk,
                    length,
                    moved,
                )
                &&& log::follows(
                    talk.skip(length),
                    seq![Call::SaveState { state: recovery::relieved_state(state, pane) }],
                    outcome,
                )
            };
        lemma_restore_ends(
            state.tab,
            pane,
            placement,
            talk.take(length),
            Ok::<bool, Failure>(moved),
        );
        lemma_none_failed(talk, length);
        lemma_ends_later(talk, length, outcome);
    }
}

/// The removal of the record of a tab.
pub open spec fn removal(tab: Seq<char>) -> Entry {
    Entry { call: Call::RemoveState { tab }, answer: Answer::Done }
}

proof fn lemma_gather_ends(
    tab: Seq<char>,
    state: StateView,
    panes: Seq<Seq<char>>,
    talk: Seq<Entry>,
    outcome: Result<(), Failure>,
)
    requires
        recovery::gather_ran(tab, state, panes, talk, outcome),
    ensures
        ends_at_failure(talk, outcome),
        outcome is Ok ==> talk.last() == removal(tab),
    decreases panes.len(),
{
    if panes.len() > 0 {
        if outcome is Err && recovery::relieve_ran(state, panes[0], None, talk, outcome) {
            lemma_relieve_ends(state, panes[0], None, talk, outcome);
        } else {
            let left = recovery::relieved_state(state, panes[0]);
            let length = choose|length: int|
                {
                    &&& #[trigger] recovery::relieved_in(state, panes[0], None, talk, length)
                    &&& recovery::gather_ran(
                        tab,
                        left,
                        panes.drop_first(),
                        talk.skip(length),
                        outcome,
                    )
                };
            lemma_relieve_ends(
                state,
                panes[0],
                None,
                talk.take(length),
                Ok::<(), Failure>(()),
            );
            lemma_none_failed(talk, length);
            lemma_gather_ends(tab, left, panes.drop_first(), talk.skip(length), outcome);
            lemma_ends_later(talk, length, outcome);
            assert(talk.last() == talk.skip(length).last());
        }
    }
}

proof fn lemma_replay_ends(
    tab: Seq<char>,
    state: StateView,
    steps: Seq<StepView>,
    talk: Seq<Entry>,
    outcome: Result<(), Failure>,
)
    requires
        recovery::replay_ran(tab, state, steps, talk, outcome),
    ensures
        ends_at_failure(talk, outcome),
        outcome is Ok ==> talk.last() == removal(tab),
    decreases steps.len(),
{
    if steps.len() == 0 {
        lemma_gather_ends(tab, state, state.parked, talk, outcome);
    } else if !state.parked.contains(steps[0].pane) {
        lemma_replay_ends(tab, state, steps.drop_first(), talk, outcome);
    } else {
        let pane = steps[0].pane;
        if outcome is Err && recovery::relieve_ran(state, pane, Some(steps[0]), talk, outcome) {
            lemma_relieve_ends(state, pane, Some(steps[0]), talk, outcome);
        } else {
            let left = recovery::relieved_state(state, pane);
            let length = choose|length: int|
                {
                    &&& #[trigger] recovery::relieved_in(state, pane, Some(steps[0]), talk, length)
                    &&& recovery::replay_ran(
                        tab,
                        left,
                        steps.drop_first(),
                        talk.skip(length),
                        outcome,
                    )
                };
            lemma_relieve_ends(
                state,
                pane,
                Some(steps[0]),
                talk.take(length),
                Ok::<(), Failure>(()),
            );
            lemma_none_failed(talk, length);
            lemma_replay_ends(tab, left, steps.drop_first(), talk.skip(length), outcome);
            lemma_ends_later(talk, length, outcome);
            assert(talk.last() == talk.skip(length).last());
        }
    }
}

/// A recovery ends with the first thing that fails, and reports that failure. Where nothing fails
/// it succeeds, and the last thing that it does for a tab whose opening was cut short is to remove
/// the record: a pane that is gone does not leave the tab broken.
pub proof fn recovery_finishes(tab: Seq<char>, talk: Seq<Entry>, outcome: Result<(), Failure>)
    requires
        recovery::recover_ran(tab, talk, outcome),
    ensures
        ends_at_failure(talk, outcome),
        outcome is Ok && talk.len() > 1 ==> talk.last() == removal(tab),
        outcome is Ok && talk[0].answer is State && (state::state_of(
            talk[0].answer->State_0,
        ) matches Some(found) && found.phase == Phase::Evacuating) ==> talk.len() > 1,
{
    if let Answer::State(found) = talk[0].answer {
        if let Some(record) = state::state_of(found) {
            if record.phase == Phase::Evacuating {
                let rest = talk.skip(1);
                if let Some(sidebar) = record.sidebar_pane {
                    assert(rest[0] == talk[1]);
                    if rest[0].answer == Answer::Flag(true) {
                        let last = rest.skip(1);
                        assert(last[0] == talk[2]);
                        if last[0].answer is Done {
                            let tail = last.skip(1);
                            lemma_replay_ends(tab, record, record.plan_steps, tail, outcome);
                            lemma_ends_later(last, 1, outcome);
                            assert(last.last() == tail.last());
                        }
                        lemma_ends_later(rest, 1, outcome);
                        assert(rest.last() == last.last());
                    } else if rest[0].answer == Answer::Flag(false) {
                        let last = rest.skip(1);
                        lemma_replay_ends(tab, record, record.plan_steps, last, outcome);
                        lemma_ends_later(rest, 1, outcome);
                        assert(rest.last() == last.last());
                    }
                } else {
                    lemma_replay_ends(tab, record, record.plan_steps, rest, outcome);
                }
                lemma_ends_later(talk, 1, outcome);
                assert(talk.last() == rest.last());
            }
        }
    }
}

/// Whether every pane that is moved was found to exist before.
pub open spec fn moves_what_lives(talk: Seq<Entry>) -> bool {
    forall|i: int|
        0 <= i < talk.len() && (#[trigger] talk[i]).call is MovePane ==> seen_alive(
            talk,
            i,
            talk[i].call->MovePane_pane,
        )
}

/// Whether a pane was found to exist before exchange `i`.
pub open spec fn seen_alive(talk: Seq<Entry>, i: int, pane: Seq<char>) -> bool {
    exists|j: int|
        0 <= j < i && (#[trigger] talk[j]).call == (Call::PaneAlive { pane }) && talk[j].answer
            == Answer::Flag(true)
}

proof fn lemma_lives_joined(talk: Seq<Entry>, length: int)
    requires
        0 <= length <= talk.len(),
        moves_what_lives(talk.take(length)),
        moves_what_lives(talk.skip(length)),
    ensures
        moves_what_lives(talk),
{
    let start = talk.take(length);
    let rest = talk.skip(length);
    assert forall|i: int| 0 <= i < talk.len() && (#[trigger] talk[i]).call is MovePane implies
        seen_alive(talk, i, talk[i].call->MovePane_pane) by {
        let pane = talk[i].call->MovePane_pane;
        if i < length {
            assert(start[i] == talk[i]);
            let j = choose|j: int|
                0 <= j < i && (#[trigger] start[j]).call == (Call::PaneAlive { pane })
                    && start[j].answer == Answer::Flag(true);
            assert(talk[j] == start[j]);
        } else {
            assert(rest[i - length] == talk[i]);
            let j = choose|j: int|
                0 <= j < i - length && (#[trigger] rest[j]).call == (Call::PaneAlive { pane })
                    && rest[j].answer == Answer::Flag(true);
            assert(talk[j + length] == rest[j]);
        }
    }
}

proof fn lemma_restore_lives(
    tab: Seq<char>,
    pane: Seq<char>,
    placement: Option<StepView>,
    talk: Seq<Entry>,
    outcome: Result<bool, Failure>,
)
    requires
        recovery::restore_ran(tab, pane, placement, talk, outcome),
        placement matches Some(step) ==> step.pane == pane,
    ensures
        moves_what_lives(talk),
{
    if talk[0].answer == Answer::Flag(true) {
        let rest = talk.skip(1);
        assert(rest[0] == talk[1]);
        if placement is Some && rest[0].answer is Flag {
            assert(rest.skip(1)[0] == talk[2]);
        }
    }
}

proof fn lemma_relieve_lives(
    state: StateView,
    pane: Seq<char>,
    placement: Option<StepView>,
    talk: Seq<Entry>,
    outcome: Result<(), Failure>,
)
    requires
        recovery::relieve_ran(state, pane, placement, talk, outcome),
        placement matches Some(step) ==> step.pane == pane,
    ensures
        moves_what_lives(talk),
{
    if outcome is Err && recovery::restore_ran(
        state.tab,
        pane,
        placement,
        talk,
        Err::<bool, Failure>(outcome->Err_0),
    ) {
        lemma_restore_lives(
            state.tab,
            pane,
            placement,
            talk,
            Err::<bool, Failure>(outcome->Err_0),
        );
    } else {
        let (length, moved) = choose|length: int, moved: bool|
            {
                &&& #[trigger] recovery::restored_in(
                    state.tab,
                    pane,
                    placement,
                    talk,
                    length,
                    moved,
                )
                &&& log::follows(
                    talk.skip(length),
                    seq![Call::SaveState { state: recovery::relieved_state(state, pane) }],
                    outcome,
                )
            };
        lemma_restore_lives(
            state.tab,
            pane,
            placement,
            talk.take(length),
            Ok::<bool, Failure>(moved),
        );
        lemma_lives_joined(talk, length);
    }
}

proof fn lemma_gather_lives(
    tab: Seq<char>,
    state: StateView,
    panes: Seq<Seq<char>>,
    talk: Seq<Entry>,
    outcome: Result<(), Failure>,
)
    requires
        recovery::gather_ran(tab, state, panes, talk, outcome),
    ensures
        moves_what_lives(talk),
    decreases panes.len(),
{
    if panes.len() > 0 {
        if outcome is Err && recovery::relieve_ran(state, panes[0], None, talk, outcome) {
            lemma_relieve_lives(state, panes[0], None, talk, outcome);
        } else {
            let left = recovery::relieved_state(state, panes[0]);
            let length = choose|length: int|
                {
                    &&& #[trigger] recovery::relieved_in(state, panes[0], None, talk, length)
                    &&& recovery::gather_ran(
                        tab,
                        left,
                        panes.drop_first(),
                        talk.skip(length),
                        outcome,
                    )
                };
            lemma_relieve_lives(
                state,
                panes[0],
                None,
                talk.take(length),
                Ok::<(), Failure>(()),
            );
            lemma_gather_lives(tab, left, panes.drop_first(), talk.skip(length), outcome);
            lemma_lives_joined(talk, length);
        }
    }
}

proof fn lemma_replay_lives(
    tab: Seq<char>,
    state: StateView,
    steps: Seq<StepView>,
    talk: Seq<Entry>,
    outcome: Result<(), Failure>,
)
    requires
        recovery::replay_ran(tab, state, steps, talk, outcome),
    ensures
        moves_what_lives(talk),
    decreases steps.len(),
{
    if steps.len() == 0 {
        lemma_gather_lives(tab, state, state.parked, talk, outcome);
    } else if !state.parked.contains(steps[0].pane) {
        lemma_replay_lives(tab, state, steps.drop_first(), talk, outcome);
    } else {
        let pane = steps[0].pane;
        if outcome is Err && recovery::relieve_ran(state, pane, Some(steps[0]), talk, outcome) {
            lemma_relieve_lives(state, pane, Some(steps[0]), talk, outcome);
        } else {
            let left = recovery::relieved_state(state, pane);
            let length = choose|length: int|
                {
                    &&& #[trigger] recovery::relieved_in(state, pane, Some(steps[0]), talk, length)
                    &&& recovery::replay_ran(
                        tab,
                        left,
                        steps.drop_first(),
                        talk.skip(length),
                        outcome,
                    )
                };
            lemma_relieve_lives(
                state,
                pane,
                Some(steps[0]),
                talk.take(length),
                Ok::<(), Failure>(()),
            );
            lemma_replay_lives(tab, left, steps.drop_first(), talk.skip(length), outcome);
            lemma_lives_joined(talk, length);
        }
    }
}

/// A recovery never moves a pane that it has not found to exist.
pub proof fn recovery_moves_only_live_panes(
    tab: Seq<char>,
    talk: Seq<Entry>,
    outcome: Result<(), Failure>,
)
    requires
        recovery::recover_ran(tab, talk, outcome),
    ensures
        moves_what_lives(talk),
{
    if let Answer::State(found) = talk[0].answer {
        if let Some(record) = state::state_of(found) {
            if record.phase == Phase::Evacuating {
                let rest = talk.skip(1);
                if let Some(sidebar) = record.sidebar_pane {
                    if rest[0].answer == Answer::Flag(true) {
                        let last = rest.skip(1);
                        if last[0].answer is Done {
                            lemma_replay_lives(
                                tab,
                                record,
                                record.plan_steps,
                                last.skip(1),
                                outcome,
                            );
                            lemma_lives_joined(last, 1);
                        }
                        lemma_lives_joined(rest, 1);
                    } else if rest[0].answer == Answer::Flag(false) {
                        lemma_replay_lives(tab, record, record.plan_steps, rest.skip(1), outcome);
                        lemma_lives_joined(rest, 1);
                    }
                } else {
                    lemma_replay_lives(tab, record, record.plan_steps, rest, outcome);
                }
                lemma_lives_joined(talk, 1);
            }
        }
    }
}

/// What is on record for a tab after a conversation.
pub open spec fn record_after(record: Option<StateView>, talk: Seq<Entry>) -> Option<StateView>
    decreases talk.len(),
{
    if talk.len() == 0 {
        record
    } else {
        match talk.last() {
            Entry { call: Call::SaveState { state }, answer: Answer::Done } => Some(state),
            Entry { call: Call::RemoveState { .. }, answer: Answer::Done } => None,
            _ => record_after(record, talk.drop_last()),
        }
    }
}

pub proof fn lemma_record_joined(record: Option<StateView>, first: Seq<Entry>, second: Seq<Entry>)
    ensures
        record_after(record, first + second) == record_after(record_after(record, first), second),
    decreases second.len(),
{
    if second.len() == 0 {
        assert(first + second =~= first);
    } else {
        lemma_record_joined(record, first, second.drop_last());
        assert((first + second).drop_last() =~= first + second.drop_last());
        assert((first + second).last() == second.last());
    }
}

/// Whether a pane was moved into a tab, or found to be gone.
pub open spec fn settled(tab: Seq<char>, pane: Seq<char>, talk: Seq<Entry>) -> bool {
    exists|i: int| 0 <= i < talk.len() && settles(tab, pane, #[trigger] talk[i])
}

/// Whether an exchange moves a pane into a tab, or finds that it is gone.
pub open spec fn settles(tab: Seq<char>, pane: Seq<char>, entry: Entry) -> bool {
    ||| entry.call == (Call::PaneAlive { pane }) && entry.answer == Answer::Flag(false)
    ||| {
        &&& entry.call is MovePane
        &&& entry.call->MovePane_pane == pane
        &&& entry.call->MovePane_tab == tab
        &&& entry.answer is Done
    }
}

/// Whether a pane that was parked is settled, or still on record as parked.
pub open spec fn remembered(state: StateView, pane: Seq<char>, talk: Seq<Entry>) -> bool {
    ||| settled(state.tab, pane, talk)
    ||| {
        &&& record_after(Some(state), talk) is Some
        &&& record_after(Some(state), talk)->0.phase == Phase::Evacuating
        &&& record_after(Some(state), talk)->0.parked.contains(pane)
    }
}

/// Whether at every moment of a conversation every parked pane is settled or still on record.
pub open spec fn forgets_none(state: StateView, talk: Seq<Entry>) -> bool {
    forall|n: int, pane: Seq<char>|
        0 <= n <= talk.len() && state.parked.contains(pane) ==> #[trigger] remembered(
            state,
            pane,
            talk.take(n),
        )
}

proof fn lemma_settled_longer(tab: Seq<char>, pane: Seq<char>, talk: Seq<Entry>, n: int, m: int)
    requires
        0 <= n <= m <= talk.len(),
        settled(tab, pane, talk.take(n)),
    ensures
        settled(tab, pane, talk.take(m)),
{
    let i = choose|i: int| 0 <= i < n && settles(tab, pane, #[trigger] talk.take(n)[i]);
    assert(talk.take(m)[i] == talk.take(n)[i]);
}

/// While nothing is put on record or removed from it, the record stays.
pub proof fn lemma_record_kept(record: Option<StateView>, talk: Seq<Entry>)
    requires
        forall|i: int|
            0 <= i < talk.len() ==> !((#[trigger] talk[i]).call is SaveState)
                && !(talk[i].call is RemoveState),
    ensures
        record_after(record, talk) == record,
    decreases talk.len(),
{
    if talk.len() > 0 {
        assert(talk.last() == talk[talk.len() - 1]);
        lemma_record_kept(record, talk.drop_last());
    }
}

pub proof fn lemma_restore_settles(
    tab: Seq<char>,
    pane: Seq<char>,
    placement: Option<StepView>,
    talk: Seq<Entry>,
    outcome: Result<bool, Failure>,
)
    requires
        recovery::restore_ran(tab, pane, placement, talk, outcome),
        placement matches Some(step) ==> step.pane == pane,
    ensures
        forall|i: int|
            0 <= i < talk.len() ==> !((#[trigger] talk[i]).call is SaveState)
                && !(talk[i].call is RemoveState),
        outcome is Ok ==> settled(tab, pane, talk),
{
    assert(outcome is Ok && talk.len() == 1 ==> settles(tab, pane, talk[0]));
    if talk[0].answer == Answer::Flag(true) {
        let rest = talk.skip(1);
        assert(rest[0] == talk[1]);
        if placement is None {
            assert(outcome is Ok ==> settles(tab, pane, talk[1]));
        } else if rest[0].answer is Flag {
            assert(rest.skip(1)[0] == talk[2]);
            assert(outcome is Ok ==> settles(tab, pane, talk[2]));
        }
    }
}

proof fn lemma_untouched_forgets_none(state: StateView, talk: Seq<Entry>)
    requires
        state.phase == Phase::Evacuating,
        forall|i: int|
            0 <= i < talk.len() ==> !((#[trigger] talk[i]).call is SaveState)
                && !(talk[i].call is RemoveState),
    ensures
        forgets_none(state, talk),
{
    assert forall|n: int, pane: Seq<char>|
        0 <= n <= talk.len() && state.parked.contains(pane) implies #[trigger] remembered(
        state,
        pane,
        talk.take(n),
    ) by {
        lemma_record_kept(Some(state), talk.take(n));
    }
}

pub proof fn lemma_relieve_forgets_none(
    state: StateView,
    pane: Seq<char>,
    placement: Option<StepView>,
    talk: Seq<Entry>,
    outcome: Result<(), Failure>,
)
    requires
        recovery::relieve_ran(state, pane, placement, talk, outcome),
        placement matches Some(step) ==> step.pane == pane,
        state.phase == Phase::Evacuating,
    ensures
        forgets_none(state, talk),
        outcome is Ok ==> settled(state.tab, pane, talk),
        outcome is Ok ==> record_after(Some(state), talk) == Some(
            recovery::relieved_state(state, pane),
        ),
{
    let left = recovery::relieved_state(state, pane);
    if outcome is Err && recovery::restore_ran(
        state.tab,
        pane,
        placement,
        talk,
        Err::<bool, Failure>(outcome->Err_0),
    ) {
        lemma_restore_settles(
            state.tab,
            pane,
            placement,
            talk,
            Err::<bool, Failure>(outcome->Err_0),
        );
        lemma_untouched_forgets_none(state, talk);
    } else {
        let (length, moved) = choose|length: int, moved: bool|
            {
                &&& #[trigger] recovery::restored_in(
                    state.tab,
                    pane,
                    placement,
                    talk,
                    length,
                    moved,
                )
                &&& log::follows(
                    talk.skip(length),
                    seq![Call::SaveState { state: left }],
                    outcome,
                )
            };
        let start = talk.take(length);
        lemma_restore_settles(state.tab, pane, placement, start, Ok::<bool, Failure>(moved));
        lemma_untouched_forgets_none(state, start);
        lemma_record_kept(Some(state), start);
        assert(talk.skip(length)[0] == talk[length]);
        assert(talk =~= start.push(talk[length]));
        assert(talk.drop_last() =~= start);
        assert(talk.take(talk.len() as int) =~= talk);
        lemma_settled_longer(state.tab, pane, talk, length, talk.len() as int);
        assert forall|n: int, other: Seq<char>|
            0 <= n <= talk.len() && state.parked.contains(other) implies #[trigger] remembered(
            state,
            other,
            talk.take(n),
        ) by {
            if n <= length {
                assert(talk.take(n) =~= start.take(n));
                assert(remembered(state, other, start.take(n)));
            } else {
                text::lemma_without_contains(state.parked, pane, other);
            }
        }
    }
}

/// A stretch that forgets no pane, after a pane was put back and that was recorded.
proof fn lemma_forgets_none_joined(state: StateView, pane: Seq<char>, talk: Seq<Entry>, length: int)
    requires
        0 <= length <= talk.len(),
        forgets_none(state, talk.take(length)),
        settled(state.tab, pane, talk.take(length)),
        record_after(Some(state), talk.take(length)) == Some(
            recovery::relieved_state(state, pane),
        ),
        forgets_none(recovery::relieved_state(state, pane), talk.skip(length)),
    ensures
        forgets_none(state, talk),
{
    let left = recovery::relieved_state(state, pane);
    let start = talk.take(length);
    let rest = talk.skip(length);
    assert forall|n: int, other: Seq<char>|
        0 <= n <= talk.len() && state.parked.contains(other) implies #[trigger] remembered(
        state,
        other,
        talk.take(n),
    ) by {
        if n <= length {
            assert(talk.take(n) =~= start.take(n));
            assert(remembered(state, other, start.take(n)));
        } else if other == pane {
            lemma_settled_longer(state.tab, pane, talk, length, n);
        } else {
            text::lemma_without_contains(state.parked, pane, other);
            let tail = rest.take(n - length);
            assert(remembered(left, other, tail));
            assert(talk.take(n) =~= start + tail);
            lemma_record_joined(Some(state), start, tail);
            if settled(left.tab, other, tail) {
                let i = choose|i: int| 0 <= i < tail.len() && settles(
                    left.tab,
                    other,
                    #[trigger] tail[i],
                );
                assert(talk.take(n)[i + length] == tail[i]);
            }
        }
    }
}

proof fn lemma_gather_forgets_none(
    tab: Seq<char>,
    state: StateView,
    panes: Seq<Seq<char>>,
    talk: Seq<Entry>,
    outcome: Result<(), Failure>,
)
    requires
        recovery::gather_ran(tab, state, panes, talk, outcome),
        state.phase == Phase::Evacuating,
        forall|pane: Seq<char>| #[trigger]
            state.parked.contains(pane) ==> panes.contains(pane),
    ensures
        forgets_none(state, talk),
    decreases panes.len(),
{
    if panes.len() > 0 {
        let pane = panes[0];
        if outcome is Err && recovery::relieve_ran(state, pane, None, talk, outcome) {
            lemma_relieve_forgets_none(state, pane, None, talk, outcome);
        } else {
            let left = recovery::relieved_state(state, pane);
            let length = choose|length: int|
                {
                    &&& #[trigger] recovery::relieved_in(state, pane, None, talk, length)
                    &&& recovery::gather_ran(
                        tab,
                        left,
                        panes.drop_first(),
                        talk.skip(length),
                        outcome,
                    )
                };
            lemma_relieve_forgets_none(
                state,
                pane,
                None,
                talk.take(length),
                Ok::<(), Failure>(()),
            );
            assert forall|other: Seq<char>| #[trigger] left.parked.contains(other) implies
                panes.drop_first().contains(other) by {
                text::lemma_without_contains(state.parked, pane, other);
                assert(panes.contains(other));
                let i = choose|i: int| 0 <= i < panes.len() && panes[i] == other;
                assert(panes.drop_first()[i - 1] == other);
            }
            lemma_gather_forgets_none(tab, left, panes.drop_first(), talk.skip(length), outcome);
            lemma_forgets_none_joined(state, pane, talk, length);
        }
    }
}

proof fn lemma_replay_forgets_none(
    tab: Seq<char>,
    state: StateView,
    steps: Seq<StepView>,
    talk: Seq<Entry>,
    outcome: Result<(), Failure>,
)
    requires
        recovery::replay_ran(tab, state, steps, talk, outcome),
        state.phase == Phase::Evacuating,
    ensures
        forgets_none(state, talk),
    decreases steps.len(),
{
    if steps.len() == 0 {
        lemma_gather_forgets_none(tab, state, state.parked, talk, outcome);
    } else if !state.parked.contains(steps[0].pane) {
        lemma_replay_forgets_none(tab, state, steps.drop_first(), talk, outcome);
    } else {
        let pane = steps[0].pane;
        let step = Some(steps[0]);
        if outcome is Err && recovery::relieve_ran(state, pane, step, talk, outcome) {
            lemma_relieve_forgets_none(state, pane, step, talk, outcome);
        } else {
            let left = recovery::relieved_state(state, pane);
            let length = choose|length: int|
                {
                    &&& #[trigger] recovery::relieved_in(state, pane, Some(steps[0]), talk, length)
                    &&& recovery::replay_ran(
                        tab,
                        left,
                        steps.drop_first(),
                        talk.skip(length),
                        outcome,
                    )
                };
            lemma_relieve_forgets_none(
                state,
                pane,
                step,
                talk.take(length),
                Ok::<(), Failure>(()),
            );
            lemma_replay_forgets_none(tab, left, steps.drop_first(), talk.skip(length), outcome);
            lemma_forgets_none_joined(state, pane, talk, length);
        }
    }
}

proof fn lemma_untouched_start(state: StateView, talk: Seq<Entry>, length: int)
    requires
        0 <= length <= talk.len(),
        state.phase == Phase::Evacuating,
        forall|i: int|
            0 <= i < length ==> !((#[trigger] talk[i]).call is SaveState) && !(
            talk[i].call is RemoveState),
        forgets_none(state, talk.skip(length)),
    ensures
        forgets_none(state, talk),
{
    let start = talk.take(length);
    let rest = talk.skip(length);
    assert forall|n: int, pane: Seq<char>|
        0 <= n <= talk.len() && state.parked.contains(pane) implies #[trigger] remembered(
        state,
        pane,
        talk.take(n),
    ) by {
        if n <= length {
            lemma_record_kept(Some(state), talk.take(n));
        } else {
            let tail = rest.take(n - length);
            assert(remembered(state, pane, tail));
            assert(talk.take(n) =~= start + tail);
            lemma_record_kept(Some(state), start);
            lemma_record_joined(Some(state), start, tail);
            if settled(state.tab, pane, tail) {
                let i = choose|i: int| 0 <= i < tail.len() && settles(
                    state.tab,
                    pane,
                    #[trigger] tail[i],
                );
                assert(talk.take(n)[i + length] == tail[i]);
            }
        }
    }
}

/// A recovery forgets no pane. At every moment of it, and so also where it is cut short, each pane
/// that was parked has been moved back into its tab or found to be gone, or is still on record as
/// parked. A recovery that succeeds has moved back or found gone every one.
pub proof fn recovery_forgets_no_pane(
    tab: Seq<char>,
    record: StateView,
    talk: Seq<Entry>,
    outcome: Result<(), Failure>,
)
    requires
        recovery::recover_ran(tab, talk, outcome),
        talk[0].answer is State,
        state::state_of(talk[0].answer->State_0) == Some(record),
        record.phase == Phase::Evacuating,
    ensures
        forgets_none(record, talk),
        outcome is Ok ==> forall|pane: Seq<char>| #[trigger]
            record.parked.contains(pane) ==> settled(record.tab, pane, talk),
{
    let rest = talk.skip(1);
    if let Some(sidebar) = record.sidebar_pane {
        assert(rest[0] == talk[1]);
        if rest[0].answer == Answer::Flag(true) {
            let last = rest.skip(1);
            assert(last[0] == talk[2]);
            if last[0].answer is Done {
                lemma_replay_forgets_none(tab, record, record.plan_steps, last.skip(1), outcome);
                lemma_untouched_start(record, last, 1);
            } else {
                lemma_untouched_forgets_none(record, last);
            }
            lemma_untouched_start(record, rest, 1);
        } else if rest[0].answer == Answer::Flag(false) {
            lemma_replay_forgets_none(tab, record, record.plan_steps, rest.skip(1), outcome);
            lemma_untouched_start(record, rest, 1);
        } else {
            lemma_untouched_forgets_none(record, rest);
        }
    } else {
        lemma_replay_forgets_none(tab, record, record.plan_steps, rest, outcome);
    }
    lemma_untouched_start(record, talk, 1);
    if outcome is Ok {
        recovery_finishes(tab, talk, outcome);
        assert(talk.take(talk.len() as int) =~= talk);
        assert forall|pane: Seq<char>| #[trigger] record.parked.contains(pane) implies settled(
            record.tab,
            pane,
            talk,
        ) by {
            assert(remembered(record, pane, talk.take(talk.len() as int)));
        }
    }
}

/// A recovery closes the sidebar that the opening had got to before it moves any pane: by the time
/// of the first move the sidebar was found to be gone, or was closed.
pub proof fn orphaned_sidebar_is_closed_first(
    tab: Seq<char>,
    record: StateView,
    sidebar: Seq<char>,
    talk: Seq<Entry>,
    outcome: Result<(), Failure>,
    i: int,
)
    requires
        recovery::recover_ran(tab, talk, outcome),
        talk[0].answer is State,
        state::state_of(talk[0].answer->State_0) == Some(record),
        record.phase == Phase::Evacuating,
        record.sidebar_pane == Some(sidebar),
        0 <= i < talk.len(),
        talk[i].call is MovePane,
    ensures
        1 < i,
        talk[1].call == (Call::PaneAlive { pane: sidebar }),
        talk[1].answer == Answer::Flag(false) || {
            &&& 2 < i
            &&& talk[2].call == (Call::ClosePane { pane: sidebar })
            &&& talk[2].answer is Done
        },
{
    let rest = talk.skip(1);
    assert(rest[0] == talk[1]);
    if rest[0].answer == Answer::Flag(true) {
        assert(rest.skip(1)[0] == talk[2]);
    }
}

} // verus!
