//! What holds of a recovery that goes on where an earlier one was cut short.

use vstd::prelude::*;

use crate::failure::Failure;
use crate::log::{self, Answer, Call, Entry};
use crate::recovery;
use crate::recovery_laws;
use crate::state::{self, Phase, StateView, StepView};
use crate::text;

verus! {

/// A list without the texts of another, in the order that it had.
pub open spec fn leaving(list: Seq<Seq<char>>, gone: Seq<Seq<char>>) -> Seq<Seq<char>> {
    list.filter(|text: Seq<char>| !gone.contains(text))
}

/// A record without the panes of a list among those that are parked, and otherwise as it was.
pub open spec fn thinned(record: StateView, gone: Seq<Seq<char>>) -> StateView {
    StateView { parked: leaving(record.parked, gone), ..record }
}

/// Whether a recovery deals with a parked pane at exchange `i`: it is moved into its tab, or found
/// to be gone where the next thing is to record that.
pub open spec fn deals_with(tab: Seq<char>, pane: Seq<char>, talk: Seq<Entry>, i: int) -> bool {
    &&& 0 <= i < talk.len()
    &&& {
        ||| {
            &&& talk[i].call is MovePane
            &&& talk[i].call->MovePane_pane == pane
            &&& talk[i].call->MovePane_tab == tab
            &&& talk[i].answer is Done
        }
        ||| {
            &&& talk[i].call == (Call::PaneAlive { pane })
            &&& talk[i].answer == Answer::Flag(false)
            &&& i + 1 < talk.len()
            &&& talk[i + 1].call is SaveState
        }
    }
}

/// Whether a recovery deals with a parked pane.
pub open spec fn dealt_with(tab: Seq<char>, pane: Seq<char>, talk: Seq<Entry>) -> bool {
    exists|i: int| deals_with(tab, pane, talk, i)
}

/// Whether every record that is put down is kept.
pub open spec fn saves_succeed(talk: Seq<Entry>) -> bool {
    forall|i: int|
        0 <= i < talk.len() && (#[trigger] talk[i]).call is SaveState ==> talk[i].answer is Done
}

proof fn lemma_leaving_none(list: Seq<Seq<char>>)
    ensures
        leaving(list, Seq::empty()) == list,
    decreases list.len(),
{
    reveal(Seq::filter);
    if list.len() > 0 {
        lemma_leaving_none(list.drop_last());
        assert(list =~= list.drop_last().push(list.last()));
    }
}

proof fn lemma_leaving_more(list: Seq<Seq<char>>, item: Seq<char>, gone: Seq<Seq<char>>)
    ensures
        leaving(text::without(list, item), gone) == leaving(list, seq![item] + gone),
    decreases list.len(),
{
    reveal(Seq::filter);
    if list.len() > 0 {
        let rest = list.drop_last();
        let last = list.last();
        lemma_leaving_more(rest, item, gone);
        assert((seq![item] + gone).contains(last) == (last == item || gone.contains(last))) by {
            let all = seq![item] + gone;
            assert(all[0] == item);
            if gone.contains(last) {
                let i = choose|i: int| 0 <= i < gone.len() && gone[i] == last;
                assert(all[i + 1] == last);
            }
            if all.contains(last) && last != item {
                let i = choose|i: int| 0 <= i < all.len() && all[i] == last;
                assert(gone[i - 1] == last);
            }
        }
        if last != item {
            let kept = text::without(rest, item);
            assert(text::without(list, item) =~= kept.push(last));
            assert(kept.push(last).drop_last() =~= kept);
        }
    }
}

/// Exactly the texts of `gone` are left out.
pub proof fn lemma_leaving_contains(list: Seq<Seq<char>>, gone: Seq<Seq<char>>, text: Seq<char>)
    ensures
        leaving(list, gone).contains(text) == (list.contains(text) && !gone.contains(text)),
{
    let keep = |text: Seq<char>| !gone.contains(text);
    if leaving(list, gone).contains(text) {
        list.lemma_filter_contains_rev(keep, text);
        let i = choose|i: int|
            0 <= i < leaving(list, gone).len() && leaving(list, gone)[i] == text;
        list.lemma_filter_pred(keep, i);
    }
    if list.contains(text) && !gone.contains(text) {
        let i = choose|i: int| 0 <= i < list.len() && list[i] == text;
        assert(keep(list[i]));
        list.lemma_filter_contains(keep, i);
    }
}

/// What a recovery deals with in two stretches, where the first does not end with the look for a
/// pane whose end the second records.
proof fn lemma_dealt_joined(tab: Seq<char>, pane: Seq<char>, talk: Seq<Entry>, length: int)
    requires
        0 < length <= talk.len(),
        !(talk[length - 1].call is PaneAlive) || talk.len() == length || !(
        talk[length].call is SaveState),
    ensures
        dealt_with(tab, pane, talk) == (dealt_with(tab, pane, talk.take(length)) || dealt_with(
            tab,
            pane,
            talk.skip(length),
        )),
{
    let start = talk.take(length);
    let rest = talk.skip(length);
    if dealt_with(tab, pane, start) {
        let i = choose|i: int| deals_with(tab, pane, start, i);
        assert(start[i] == talk[i]);
        assert(i + 1 < length ==> start[i + 1] == talk[i + 1]);
        assert(deals_with(tab, pane, talk, i));
    }
    if dealt_with(tab, pane, rest) {
        let i = choose|i: int| deals_with(tab, pane, rest, i);
        assert(rest[i] == talk[i + length]);
        assert(i + 1 < rest.len() ==> rest[i + 1] == talk[i + 1 + length]);
        assert(deals_with(tab, pane, talk, i + length));
    }
    if dealt_with(tab, pane, talk) {
        let i = choose|i: int| deals_with(tab, pane, talk, i);
        if i < length {
            assert(start[i] == talk[i]);
            assert(i + 1 < length ==> start[i + 1] == talk[i + 1]);
            assert(deals_with(tab, pane, start, i));
        } else {
            assert(rest[i - length] == talk[i]);
            assert(i + 1 < talk.len() ==> rest[i + 1 - length] == talk[i + 1]);
            assert(deals_with(tab, pane, rest, i - length));
        }
    }
}

proof fn lemma_saves_split(talk: Seq<Entry>, length: int)
    requires
        0 <= length <= talk.len(),
        saves_succeed(talk),
    ensures
        saves_succeed(talk.take(length)),
        saves_succeed(talk.skip(length)),
{
    assert forall|i: int|
        0 <= i < talk.take(length).len() && (#[trigger] talk.take(length)[i]).call is SaveState
            implies talk.take(length)[i].answer is Done by {
        assert(talk.take(length)[i] == talk[i]);
    }
    assert forall|i: int|
        0 <= i < talk.skip(length).len() && (#[trigger] talk.skip(length)[i]).call is SaveState
            implies talk.skip(length)[i].answer is Done by {
        assert(talk.skip(length)[i] == talk[i + length]);
    }
}

proof fn lemma_restore_deals(
    tab: Seq<char>,
    pane: Seq<char>,
    placement: Option<StepView>,
    talk: Seq<Entry>,
    outcome: Result<bool, Failure>,
)
    requires
        recovery::restore_ran(tab, pane, placement, talk, outcome),
        placement matches Some(step) ==> step.pane == pane,
    ensures
        1 <= talk.len() <= 3,
        talk[0].call == (Call::PaneAlive { pane }),
        outcome == Ok::<bool, Failure>(false) ==> talk.len() == 1 && talk[0].answer
            == Answer::Flag(false),
        outcome == Ok::<bool, Failure>(true) ==> {
            &&& talk.last().call is MovePane
            &&& talk.last().call->MovePane_pane == pane
            &&& talk.last().call->MovePane_tab == tab
            &&& talk.last().answer is Done
            &&& talk[0].answer == Answer::Flag(true)
        },
        outcome is Err ==> talk.last().answer is Failed,
        forall|i: int| 0 < i < talk.len() - 1 ==> (#[trigger] talk[i]).call is PaneAlive,
        forall|i: int| 0 <= i < talk.len() ==> !((#[trigger] talk[i]).call is SaveState),
{
    if talk[0].answer == Answer::Flag(true) {
        let rest = talk.skip(1);
        assert(rest[0] == talk[1]);
        if placement is Some && rest[0].answer is Flag {
            assert(rest.skip(1)[0] == talk[2]);
        }
    }
}

proof fn lemma_relieve_deals(
    state: StateView,
    pane: Seq<char>,
    placement: Option<StepView>,
    talk: Seq<Entry>,
    outcome: Result<(), Failure>,
)
    requires
        recovery::relieve_ran(state, pane, placement, talk, outcome),
        placement matches Some(step) ==> step.pane == pane,
        state.phase == Phase::Evacuating,
        saves_succeed(talk),
    ensures
        talk.len() > 0,
        talk[0].call is PaneAlive,
        outcome is Ok ==> {
            &&& talk.last().call is SaveState
            &&& recovery_laws::record_after(Some(state), talk) == Some(
                recovery::relieved_state(state, pane),
            )
            &&& forall|other: Seq<char>| #[trigger]
                dealt_with(state.tab, other, talk) == (other == pane)
        },
        outcome is Err ==> {
            &&& recovery_laws::record_after(Some(state), talk) == Some(state)
            &&& forall|other: Seq<char>| !#[trigger] dealt_with(state.tab, other, talk)
        },
{
    recovery_laws::lemma_relieve_forgets_none(state, pane, placement, talk, outcome);
    if outcome is Err && recovery::restore_ran(
        state.tab,
        pane,
        placement,
        talk,
        Err::<bool, Failure>(outcome->Err_0),
    ) {
        let cause = Err::<bool, Failure>(outcome->Err_0);
        lemma_restore_deals(state.tab, pane, placement, talk, cause);
        recovery_laws::lemma_restore_settles(state.tab, pane, placement, talk, cause);
        recovery_laws::lemma_record_kept(Some(state), talk);
        assert forall|other: Seq<char>| !#[trigger] dealt_with(state.tab, other, talk) by {
            if dealt_with(state.tab, other, talk) {
                let i = choose|i: int| deals_with(state.tab, other, talk, i);
                assert(i == talk.len() - 1 ==> talk[i] == talk.last());
            }
        }
    } else {
        let (length, moved) = choose|length: int, moved: bool|
            {
                &&& #[trigger] recovery::restored_in(
                    state.tab,
                    pane,
                    placement,
                    talk,
                    length,
                    moved,
                )
                &&& log::follows(
                    talk.skip(length),
                    seq![Call::SaveState { state: recovery::relieved_state(state, pane) }],
                    outcome,
                )
            };
        let start = talk.take(length);
        let rest = talk.skip(length);
        lemma_restore_deals(state.tab, pane, placement, start, Ok::<bool, Failure>(moved));
        assert(start[0] == talk[0]);
        assert(rest[0] == talk[length]);
        assert(talk.len() == length + 1);
        assert(talk[length].call is SaveState);
        assert(rest.last() == rest[0]);
        assert(outcome is Ok);
        assert(start.last() == talk[length - 1]);
        assert(deals_with(state.tab, pane, talk, length - 1));
        assert forall|other: Seq<char>| #[trigger]
            dealt_with(state.tab, other, talk) == (other == pane) by {
            if dealt_with(state.tab, other, talk) {
                let i = choose|i: int| deals_with(state.tab, other, talk, i);
                if i < length - 1 {
                    assert(talk[i] == start[i]);
                    assert(talk[i + 1] == start[i + 1]);
                }
            }
        }
    }
}

proof fn lemma_gather_deals(
    tab: Seq<char>,
    state: StateView,
    panes: Seq<Seq<char>>,
    talk: Seq<Entry>,
    failure: Failure,
) -> (gone: Seq<Seq<char>>)
    requires
        recovery::gather_ran(tab, state, panes, talk, Err::<(), Failure>(failure)),
        state.phase == Phase::Evacuating,
        saves_succeed(talk),
    ensures
        talk.len() > 0,
        !(talk[0].call is SaveState),
        recovery_laws::record_after(Some(state), talk) == Some(thinned(state, gone)),
        forall|pane: Seq<char>| #[trigger]
            dealt_with(state.tab, pane, talk) == gone.contains(pane),
    decreases panes.len(),
{
    let outcome = Err::<(), Failure>(failure);
    if panes.len() == 0 {
        assert(talk.last() == talk[0]);
        recovery_laws::lemma_record_kept(Some(state), talk.drop_last());
        assert(recovery_laws::record_after(Some(state), talk) == Some(state));
        lemma_leaving_none(state.parked);
        assert forall|pane: Seq<char>| !#[trigger] dealt_with(state.tab, pane, talk) by {
            if dealt_with(state.tab, pane, talk) {
                let i = choose|i: int| deals_with(state.tab, pane, talk, i);
                assert(i == 0);
            }
        }
        Seq::empty()
    } else if recovery::relieve_ran(state, panes[0], None, talk, outcome) {
        lemma_relieve_deals(state, panes[0], None, talk, outcome);
        lemma_leaving_none(state.parked);
        Seq::empty()
    } else {
        let left = recovery::relieved_state(state, panes[0]);
        let length = choose|length: int|
            {
                &&& #[trigger] recovery::relieved_in(state, panes[0], None, talk, length)
                &&& recovery::gather_ran(
                    tab,
                    left,
                    panes.drop_first(),
                    talk.skip(length),
                    outcome,
                )
            };
        lemma_saves_split(talk, length);
        lemma_relieve_deals(state, panes[0], None, talk.take(length), Ok::<(), Failure>(()));
        let later = lemma_gather_deals(
            tab,
            left,
            panes.drop_first(),
            talk.skip(length),
            failure,
        );
        lemma_stretches_deal(state, panes[0], talk, length, later);
        seq![panes[0]] + later
    }
}

/// What is dealt with where one pane is put back first and `later` after it.
proof fn lemma_stretches_deal(
    state: StateView,
    pane: Seq<char>,
    talk: Seq<Entry>,
    length: int,
    later: Seq<Seq<char>>,
)
    requires
        0 < length <= talk.len(),
        talk.take(length)[0].call is PaneAlive,
        talk.take(length).last().call is SaveState,
        recovery_laws::record_after(Some(state), talk.take(length)) == Some(
            recovery::relieved_state(state, pane),
        ),
        forall|other: Seq<char>| #[trigger]
            dealt_with(state.tab, other, talk.take(length)) == (other == pane),
        recovery_laws::record_after(
            Some(recovery::relieved_state(state, pane)),
            talk.skip(length),
        ) == Some(thinned(recovery::relieved_state(state, pane), later)),
        forall|other: Seq<char>| #[trigger]
            dealt_with(state.tab, other, talk.skip(length)) == later.contains(other),
    ensures
        !(talk[0].call is SaveState),
        recovery_laws::record_after(Some(state), talk) == Some(
            thinned(state, seq![pane] + later),
        ),
        forall|other: Seq<char>| #[trigger]
            dealt_with(state.tab, other, talk) == (seq![pane] + later).contains(other),
{
    let start = talk.take(length);
    let rest = talk.skip(length);
    let gone = seq![pane] + later;
    assert(start[0] == talk[0]);
    assert(start.last() == talk[length - 1]);
    assert(talk =~= start + rest);
    recovery_laws::lemma_record_joined(Some(state), start, rest);
    lemma_leaving_more(state.parked, pane, later);
    assert forall|other: Seq<char>| #[trigger] dealt_with(state.tab, other, talk) == gone.contains(
        other,
    ) by {
        lemma_dealt_joined(state.tab, other, talk, length);
        assert(gone[0] == pane);
        if later.contains(other) {
            let i = choose|i: int| 0 <= i < later.len() && later[i] == other;
            assert(gone[i + 1] == other);
        }
        if gone.contains(other) && other != pane {
            let i = choose|i: int| 0 <= i < gone.len() && gone[i] == other;
            assert(later[i - 1] == other);
        }
    }
}

proof fn lemma_replay_deals(
    tab: Seq<char>,
    state: StateView,
    steps: Seq<StepView>,
    talk: Seq<Entry>,
    failure: Failure,
) -> (gone: Seq<Seq<char>>)
    requires
        recovery::replay_ran(tab, state, steps, talk, Err::<(), Failure>(failure)),
        state.phase == Phase::Evacuating,
        saves_succeed(talk),
    ensures
        talk.len() > 0,
        !(talk[0].call is SaveState),
        recovery_laws::record_after(Some(state), talk) == Some(thinned(state, gone)),
        forall|pane: Seq<char>| #[trigger]
            dealt_with(state.tab, pane, talk) == gone.contains(pane),
    decreases steps.len(),
{
    let outcome = Err::<(), Failure>(failure);
    if steps.len() == 0 {
        lemma_gather_deals(tab, state, state.parked, talk, failure)
    } else if !state.parked.contains(steps[0].pane) {
        lemma_replay_deals(tab, state, steps.drop_first(), talk, failure)
    } else {
        let pane = steps[0].pane;
        if recovery::relieve_ran(state, pane, Some(steps[0]), talk, outcome) {
            lemma_relieve_deals(state, pane, Some(steps[0]), talk, outcome);
            lemma_leaving_none(state.parked);
            Seq::empty()
        } else {
            let left = recovery::relieved_state(state, pane);
            let length = choose|length: int|
                {
                    &&& #[trigger] recovery::relieved_in(state, pane, Some(steps[0]), talk, length)
                    &&& recovery::replay_ran(
                        tab,
                        left,
                        steps.drop_first(),
                        talk.skip(length),
                        outcome,
                    )
                };
            lemma_saves_split(talk, length);
            lemma_relieve_deals(
                state,
                pane,
                Some(steps[0]),
                talk.take(length),
                Ok::<(), Failure>(()),
            );
            let later = lemma_replay_deals(
                tab,
                left,
                steps.drop_first(),
                talk.skip(length),
                failure,
            );
            lemma_stretches_deal(state, pane, talk, length, later);
            seq![pane] + later
        }
    }
}

/// An exchange before the first pane is put back deals with none and leaves the record.
proof fn lemma_deals_later(state: StateView, talk: Seq<Entry>, gone: Seq<Seq<char>>)
    requires
        talk.len() > 0,
        !(talk[0].call is SaveState),
        !(talk[0].call is RemoveState),
        !(talk[0].call is MovePane),
        talk.len() > 1 ==> !(talk[1].call is SaveState),
        recovery_laws::record_after(Some(state), talk.skip(1)) == Some(thinned(state, gone)),
        forall|pane: Seq<char>| #[trigger]
            dealt_with(state.tab, pane, talk.skip(1)) == gone.contains(pane),
    ensures
        recovery_laws::record_after(Some(state), talk) == Some(thinned(state, gone)),
        forall|pane: Seq<char>| #[trigger]
            dealt_with(state.tab, pane, talk) == gone.contains(pane),
{
    let start = talk.take(1);
    assert(start[0] == talk[0]);
    recovery_laws::lemma_record_kept(Some(state), start);
    assert(talk =~= start + talk.skip(1));
    recovery_laws::lemma_record_joined(Some(state), start, talk.skip(1));
    assert forall|pane: Seq<char>| #[trigger] dealt_with(state.tab, pane, talk) == gone.contains(
        pane,
    ) by {
        lemma_dealt_joined(state.tab, pane, talk, 1);
        if dealt_with(state.tab, pane, start) {
            let i = choose|i: int| deals_with(state.tab, pane, start, i);
            assert(i == 0);
        }
    }
}

/// A stretch of one exchange that failed deals with no pane and leaves the record.
proof fn lemma_deals_never(state: StateView, talk: Seq<Entry>)
    requires
        talk.len() == 1,
        talk[0].answer is Failed,
    ensures
        recovery_laws::record_after(Some(state), talk) == Some(thinned(state, Seq::empty())),
        forall|pane: Seq<char>| #[trigger]
            dealt_with(state.tab, pane, talk) == Seq::<Seq<char>>::empty().contains(pane),
{
    lemma_leaving_none(state.parked);
    assert(talk.last() == talk[0]);
    recovery_laws::lemma_record_kept(Some(state), talk.drop_last());
    assert forall|pane: Seq<char>| !#[trigger] dealt_with(state.tab, pane, talk) by {
        if dealt_with(state.tab, pane, talk) {
            let i = choose|i: int| deals_with(state.tab, pane, talk, i);
            assert(i == 0);
        }
    }
}

/// What a recovery that fails leaves on record: what was there before, still of an opening that is
/// under way, without exactly the panes that were dealt with, in the order that they had.
pub proof fn failed_recovery_leaves_the_rest(
    tab: Seq<char>,
    record: StateView,
    talk: Seq<Entry>,
    failure: Failure,
) -> (gone: Seq<Seq<char>>)
    requires
        recovery::recover_ran(tab, talk, Err::<(), Failure>(failure)),
        talk[0].answer is State,
        state::state_of(talk[0].answer->State_0) == Some(record),
        record.phase == Phase::Evacuating,
        saves_succeed(talk),
    ensures
        recovery_laws::record_after(Some(record), talk) == Some(thinned(record, gone)),
        thinned(record, gone).phase == Phase::Evacuating,
        forall|pane: Seq<char>| #[trigger]
            gone.contains(pane) == dealt_with(record.tab, pane, talk),
{
    let rest = talk.skip(1);
    lemma_saves_split(talk, 1);
    let gone = match record.sidebar_pane {
        Some(sidebar) => {
            assert(rest[0] == talk[1]);
            let last = rest.skip(1);
            lemma_saves_split(rest, 1);
            let gone = if rest[0].answer == Answer::Flag(true) {
                assert(last[0] == rest[1]);
                lemma_saves_split(last, 1);
                if last[0].answer is Done {
                    let gone = lemma_replay_deals(
                        tab,
                        record,
                        record.plan_steps,
                        last.skip(1),
                        failure,
                    );
                    assert(last.skip(1)[0] == last[1]);
                    lemma_deals_later(record, last, gone);
                    gone
                } else {
                    lemma_deals_never(record, last);
                    Seq::empty()
                }
            } else if rest[0].answer == Answer::Flag(false) {
                let gone = lemma_replay_deals(tab, record, record.plan_steps, last, failure);
                assert(last[0] == rest[1]);
                gone
            } else {
                Seq::empty()
            };
            if rest[0].answer is Flag {
                lemma_deals_later(record, rest, gone);
            } else {
                lemma_deals_never(record, rest);
            }
            gone
        },
        None => {
            let gone = lemma_replay_deals(tab, record, record.plan_steps, rest, failure);
            assert(rest[0] == talk[1]);
            gone
        },
    };
    lemma_deals_later(record, talk, gone);
    gone
}

/// Whether a pane is the neighbour that a pane which is still parked belongs next to.
pub open spec fn is_neighbour(record: StateView, pane: Seq<char>) -> bool {
    exists|i: int|
        0 <= i < record.plan_steps.len() && (#[trigger] record.plan_steps[i]).target == pane
            && record.parked.contains(record.plan_steps[i].pane)
}

/// Whether an exchange leaves alone all panes but those that a record names for it: only a parked
/// pane is moved, and only a parked pane, the sidebar, or the neighbour of a parked pane is looked
/// for.
pub open spec fn is_called_for(record: StateView, entry: Entry) -> bool {
    match entry.call {
        Call::MovePane { pane, .. } => record.parked.contains(pane),
        Call::PaneAlive { pane } => {
            ||| record.parked.contains(pane)
            ||| record.sidebar_pane == Some(pane)
            ||| is_neighbour(record, pane)
        },
        _ => true,
    }
}

/// Whether this holds of all exchanges of a conversation.
pub open spec fn all_called_for(record: StateView, talk: Seq<Entry>) -> bool {
    forall|i: int| 0 <= i < talk.len() ==> is_called_for(record, #[trigger] talk[i])
}

proof fn lemma_called_for_joined(record: StateView, talk: Seq<Entry>, length: int)
    requires
        0 <= length <= talk.len(),
        all_called_for(record, talk.take(length)),
        all_called_for(record, talk.skip(length)),
    ensures
        all_called_for(record, talk),
{
    assert forall|i: int| 0 <= i < talk.len() implies is_called_for(record, #[trigger] talk[i]) by {
        if i < length {
            assert(talk[i] == talk.take(length)[i]);
        } else {
            assert(talk[i] == talk.skip(length)[i - length]);
        }
    }
}

proof fn lemma_restore_called_for(
    record: StateView,
    tab: Seq<char>,
    pane: Seq<char>,
    placement: Option<StepView>,
    talk: Seq<Entry>,
    outcome: Result<bool, Failure>,
)
    requires
        recovery::restore_ran(tab, pane, placement, talk, outcome),
        record.parked.contains(pane),
        placement matches Some(step) ==> step.pane == pane && record.plan_steps.contains(step),
    ensures
        all_called_for(record, talk),
{
    if talk[0].answer == Answer::Flag(true) {
        let rest = talk.skip(1);
        assert(rest[0] == talk[1]);
        if let Some(step) = placement {
            let i = choose|i: int|
                0 <= i < record.plan_steps.len() && record.plan_steps[i] == step;
            assert(record.plan_steps[i].target == step.target);
            assert(is_neighbour(record, step.target));
            if rest[0].answer is Flag {
                assert(rest.skip(1)[0] == talk[2]);
            }
        }
    }
}

proof fn lemma_relieve_called_for(
    record: StateView,
    state: StateView,
    pane: Seq<char>,
    placement: Option<StepView>,
    talk: Seq<Entry>,
    outcome: Result<(), Failure>,
)
    requires
        recovery::relieve_ran(state, pane, placement, talk, outcome),
        record.parked.contains(pane),
        placement matches Some(step) ==> step.pane == pane && record.plan_steps.contains(step),
    ensures
        all_called_for(record, talk),
{
    if outcome is Err && recovery::restore_ran(
        state.tab,
        pane,
        placement,
        talk,
        Err::<bool, Failure>(outcome->Err_0),
    ) {
        lemma_restore_called_for(
            record,
            state.tab,
            pane,
            placement,
            talk,
            Err::<bool, Failure>(outcome->Err_0),
        );
    } else {
        let (length, moved) = choose|length: int, moved: bool|
            {
                &&& #[trigger] recovery::restored_in(
                    state.tab,
                    pane,
                    placement,
                    talk,
                    length,
                    moved,
                )
                &&& log::follows(
                    talk.skip(length),
                    seq![Call::SaveState { state: recovery::relieved_state(state, pane) }],
                    outcome,
                )
            };
        lemma_restore_called_for(
            record,
            state.tab,
            pane,
            placement,
            talk.take(length),
            Ok::<bool, Failure>(moved),
        );
        lemma_called_for_joined(record, talk, length);
    }
}

proof fn lemma_gather_called_for(
    record: StateView,
    tab: Seq<char>,
    state: StateView,
    panes: Seq<Seq<char>>,
    talk: Seq<Entry>,
    outcome: Result<(), Failure>,
)
    requires
        recovery::gather_ran(tab, state, panes, talk, outcome),
        forall|i: int| 0 <= i < panes.len() ==> record.parked.contains(#[trigger] panes[i]),
    ensures
        all_called_for(record, talk),
    decreases panes.len(),
{
    if panes.len() > 0 {
        assert(record.parked.contains(panes[0]));
        if outcome is Err && recovery::relieve_ran(state, panes[0], None, talk, outcome) {
            lemma_relieve_called_for(record, state, panes[0], None, talk, outcome);
        } else {
            let left = recovery::relieved_state(state, panes[0]);
            let length = choose|length: int|
                {
                    &&& #[trigger] recovery::relieved_in(state, panes[0], None, talk, length)
                    &&& recovery::gather_ran(
                        tab,
                        left,
                        panes.drop_first(),
                        talk.skip(length),
                        outcome,
                    )
                };
            lemma_relieve_called_for(
                record,
                state,
                panes[0],
                None,
                talk.take(length),
                Ok::<(), Failure>(()),
            );
            assert forall|i: int| 0 <= i < panes.drop_first().len() implies record.parked.contains(
                #[trigger] panes.drop_first()[i],
            ) by {
                assert(panes.drop_first()[i] == panes[i + 1]);
            }
            lemma_gather_called_for(
                record,
                tab,
                left,
                panes.drop_first(),
                talk.skip(length),
                outcome,
            );
            lemma_called_for_joined(record, talk, length);
        }
    }
}

proof fn lemma_replay_called_for(
    record: StateView,
    tab: Seq<char>,
    state: StateView,
    steps: Seq<StepView>,
    talk: Seq<Entry>,
    outcome: Result<(), Failure>,
)
    requires
        recovery::replay_ran(tab, state, steps, talk, outcome),
        forall|pane: Seq<char>| #[trigger]
            state.parked.contains(pane) ==> record.parked.contains(pane),
        forall|i: int| 0 <= i < steps.len() ==> record.plan_steps.contains(#[trigger] steps[i]),
    ensures
        all_called_for(record, talk),
    decreases steps.len(),
{
    if steps.len() == 0 {
        assert forall|i: int| 0 <= i < state.parked.len() implies record.parked.contains(
            #[trigger] state.parked[i],
        ) by {
            assert(state.parked.contains(state.parked[i]));
        }
        lemma_gather_called_for(record, tab, state, state.parked, talk, outcome);
    } else {
        let later = steps.drop_first();
        assert(record.plan_steps.contains(steps[0]));
        assert forall|i: int| 0 <= i < later.len() implies record.plan_steps.contains(
            #[trigger] later[i],
        ) by {
            assert(later[i] == steps[i + 1]);
        }
        let pane = steps[0].pane;
        if !state.parked.contains(pane) {
            lemma_replay_called_for(record, tab, state, later, talk, outcome);
        } else if outcome is Err && recovery::relieve_ran(
            state,
            pane,
            Some(steps[0]),
            talk,
            outcome,
        ) {
            lemma_relieve_called_for(record, state, pane, Some(steps[0]), talk, outcome);
        } else {
            let left = recovery::relieved_state(state, pane);
            let length = choose|length: int|
                {
                    &&& #[trigger] recovery::relieved_in(state, pane, Some(steps[0]), talk, length)
                    &&& recovery::replay_ran(tab, left, later, talk.skip(length), outcome)
                };
            lemma_relieve_called_for(
                record,
                state,
                pane,
                Some(steps[0]),
                talk.take(length),
                Ok::<(), Failure>(()),
            );
            assert forall|other: Seq<char>| #[trigger]
                left.parked.contains(other) implies record.parked.contains(other) by {
                text::lemma_without_contains(state.parked, pane, other);
            }
            lemma_replay_called_for(record, tab, left, later, talk.skip(length), outcome);
            lemma_called_for_joined(record, talk, length);
        }
    }
}

/// A recovery moves only panes that are on record as parked, and looks only for those, for the
/// sidebar, and for the neighbours that they belong next to.
pub proof fn recovery_touches_only_parked_panes(
    tab: Seq<char>,
    record: StateView,
    talk: Seq<Entry>,
    outcome: Result<(), Failure>,
)
    requires
        recovery::recover_ran(tab, talk, outcome),
        talk[0].answer is State,
        state::state_of(talk[0].answer->State_0) == Some(record),
    ensures
        all_called_for(record, talk),
{
    if record.phase == Phase::Evacuating {
        let rest = talk.skip(1);
        if let Some(sidebar) = record.sidebar_pane {
            if rest[0].answer == Answer::Flag(true) {
                let last = rest.skip(1);
                if last[0].answer is Done {
                    lemma_replay_called_for(
                        record,
                        tab,
                        record,
                        record.plan_steps,
                        last.skip(1),
                        outcome,
                    );
                    lemma_called_for_joined(record, last, 1);
                }
                lemma_called_for_joined(record, rest, 1);
            } else if rest[0].answer == Answer::Flag(false) {
                lemma_replay_called_for(
                    record,
                    tab,
                    record,
                    record.plan_steps,
                    rest.skip(1),
                    outcome,
                );
                lemma_called_for_joined(record, rest, 1);
            }
        } else {
            lemma_replay_called_for(record, tab, record, record.plan_steps, rest, outcome);
        }
        lemma_called_for_joined(record, talk, 1);
    }
}

/// A recovery leaves alone the panes that an earlier one has dealt with before it failed. Where the
/// record that the first one left is found again, no such pane is moved, and none is looked for,
/// unless it is on record as the sidebar or a pane that is still parked belongs next to it.
pub proof fn next_recovery_leaves_the_dealt_with_alone(
    tab: Seq<char>,
    record: StateView,
    first: Seq<Entry>,
    failure: Failure,
    second: Seq<Entry>,
    outcome: Result<(), Failure>,
    pane: Seq<char>,
    i: int,
)
    requires
        recovery::recover_ran(tab, first, Err::<(), Failure>(failure)),
        first[0].answer is State,
        state::state_of(first[0].answer->State_0) == Some(record),
        record.phase == Phase::Evacuating,
        saves_succeed(first),
        recovery::recover_ran(tab, second, outcome),
        second[0].answer is State,
        state::state_of(second[0].answer->State_0) == recovery_laws::record_after(
            Some(record),
            first,
        ),
        dealt_with(record.tab, pane, first),
        0 <= i < second.len(),
    ensures
        second[i].call is MovePane ==> second[i].call->MovePane_pane != pane,
        second[i].call == (Call::PaneAlive { pane }) ==> record.sidebar_pane == Some(pane)
            || is_neighbour(recovery_laws::record_after(Some(record), first)->0, pane),
{
    let gone = failed_recovery_leaves_the_rest(tab, record, first, failure);
    assert(gone.contains(pane));
    let left = thinned(record, gone);
    recovery_touches_only_parked_panes(tab, left, second, outcome);
    lemma_leaving_contains(record.parked, gone, pane);
    assert(is_called_for(left, second[i]));
}

} // verus!
