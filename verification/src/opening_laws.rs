//! What holds of every opening, whatever herdr answers.

use vstd::prelude::*;

use crate::action;
use crate::config::SidebarPosition;
use crate::context::CtxView;
use crate::failure::Failure;
use crate::herdr::{self, RectView};
use crate::log::{self, Answer, Call, Entry};
use crate::opening;
use crate::recovery_laws;
use crate::state::{Phase, PlanView, StateView, StepView};
use crate::text;

verus! {

/// The panes that are away from their tab after a conversation, if those of `away` were before.
pub open spec fn away_after(
    home: Seq<char>,
    away: Set<Seq<char>>,
    talk: Seq<Entry>,
) -> Set<Seq<char>>
    decreases talk.len(),
{
    if talk.len() == 0 {
        away
    } else {
        let before = away_after(home, away, talk.drop_last());
        match talk.last() {
            Entry { call: Call::MovePane { pane, tab, .. }, answer: Answer::Done } => if tab
                == home {
                before.remove(pane)
            } else {
                before.insert(pane)
            },
            _ => before,
        }
    }
}

/// Whether a record of an unfinished opening names every pane that is away, the anchor apart.
pub open spec fn accounted(
    anchor: Seq<char>,
    record: Option<StateView>,
    away: Set<Seq<char>>,
) -> bool {
    forall|pane: Seq<char>| #[trigger]
        away.contains(pane) && pane != anchor ==> {
            &&& record is Some
            &&& record->0.phase == Phase::Evacuating
            &&& record->0.parked.contains(pane)
        }
}

/// Whether at every moment of a conversation the panes that are away are accounted for.
pub open spec fn strands_none(
    home: Seq<char>,
    anchor: Seq<char>,
    record: Option<StateView>,
    away: Set<Seq<char>>,
    talk: Seq<Entry>,
) -> bool {
    forall|n: int|
        0 <= n <= talk.len() ==> accounted(
            anchor,
            recovery_laws::record_after(record, #[trigger] talk.take(n)),
            away_after(home, away, talk.take(n)),
        )
}

proof fn lemma_away_joined(
    home: Seq<char>,
    away: Set<Seq<char>>,
    first: Seq<Entry>,
    second: Seq<Entry>,
)
    ensures
        away_after(home, away, first + second) == away_after(
            home,
            away_after(home, away, first),
            second,
        ),
    decreases second.len(),
{
    if second.len() == 0 {
        assert(first + second =~= first);
    } else {
        lemma_away_joined(home, away, first, second.drop_last());
        assert((first + second).drop_last() =~= first + second.drop_last());
        assert((first + second).last() == second.last());
    }
}

proof fn lemma_strands_joined(
    home: Seq<char>,
    anchor: Seq<char>,
    record: Option<StateView>,
    away: Set<Seq<char>>,
    talk: Seq<Entry>,
    length: int,
)
    requires
        0 <= length <= talk.len(),
        strands_none(home, anchor, record, away, talk.take(length)),
        strands_none(
            home,
            anchor,
            recovery_laws::record_after(record, talk.take(length)),
            away_after(home, away, talk.take(length)),
            talk.skip(length),
        ),
    ensures
        strands_none(home, anchor, record, away, talk),
        away_after(home, away, talk) == away_after(
            home,
            away_after(home, away, talk.take(length)),
            talk.skip(length),
        ),
{
    let start = talk.take(length);
    let rest = talk.skip(length);
    assert(talk =~= start + rest);
    lemma_away_joined(home, away, start, rest);
    assert forall|n: int| 0 <= n <= talk.len() implies accounted(
        anchor,
        recovery_laws::record_after(record, #[trigger] talk.take(n)),
        away_after(home, away, talk.take(n)),
    ) by {
        if n <= length {
            assert(talk.take(n) =~= start.take(n));
        } else {
            let tail = rest.take(n - length);
            assert(talk.take(n) =~= start + tail);
            recovery_laws::lemma_record_joined(record, start, tail);
            lemma_away_joined(home, away, start, tail);
        }
    }
}

/// A first exchange that neither moves a pane nor touches the record.
proof fn lemma_strands_after_neutral(
    home: Seq<char>,
    anchor: Seq<char>,
    record: Option<StateView>,
    away: Set<Seq<char>>,
    talk: Seq<Entry>,
)
    requires
        talk.len() > 0,
        !(talk[0].call is MovePane),
        !(talk[0].call is SaveState),
        !(talk[0].call is RemoveState),
        accounted(anchor, record, away),
        strands_none(home, anchor, record, away, talk.skip(1)),
    ensures
        strands_none(home, anchor, record, away, talk),
        away_after(home, away, talk) == away_after(home, away, talk.skip(1)),
{
    lemma_first_taken(home, record, away, talk);
    let start = talk.take(1);
    assert forall|n: int| 0 <= n <= start.len() implies accounted(
        anchor,
        recovery_laws::record_after(record, #[trigger] start.take(n)),
        away_after(home, away, start.take(n)),
    ) by {
        if n == 1 {
            assert(start.take(n) =~= start);
        } else {
            assert(start.take(n) =~= Seq::empty());
        }
    }
    lemma_strands_joined(home, anchor, record, away, talk, 1);
}

proof fn lemma_first_taken(
    home: Seq<char>,
    record: Option<StateView>,
    away: Set<Seq<char>>,
    talk: Seq<Entry>,
)
    requires
        talk.len() > 0,
    ensures
        talk[0].call is SaveState && talk[0].answer is Done ==> recovery_laws::record_after(
            record,
            talk.take(1),
        ) == Some(talk[0].call->SaveState_state),
        !(talk[0].call is SaveState && talk[0].answer is Done) && !(talk[0].call is RemoveState)
            ==> recovery_laws::record_after(record, talk.take(1)) == record,
        !(talk[0].call is MovePane) ==> away_after(home, away, talk.take(1)) == away,
{
    let start = talk.take(1);
    assert(start.drop_last() =~= Seq::empty());
    assert(start.last() == talk[0]);
    assert(recovery_laws::record_after(record, Seq::empty()) == record);
    assert(away_after(home, away, Seq::empty()) == away);
}

/// A first exchange that puts a record down.
proof fn lemma_strands_after_save(
    home: Seq<char>,
    anchor: Seq<char>,
    record: Option<StateView>,
    away: Set<Seq<char>>,
    talk: Seq<Entry>,
)
    requires
        talk.len() > 0,
        talk[0].call is SaveState,
        accounted(anchor, record, away),
        talk[0].answer is Done ==> accounted(
            anchor,
            Some(talk[0].call->SaveState_state),
            away,
        ) && strands_none(
            home,
            anchor,
            Some(talk[0].call->SaveState_state),
            away,
            talk.skip(1),
        ),
        !(talk[0].answer is Done) ==> talk.len() == 1,
    ensures
        strands_none(home, anchor, record, away, talk),
        talk[0].answer is Done ==> away_after(home, away, talk) == away_after(
            home,
            away,
            talk.skip(1),
        ),
{
    lemma_first_taken(home, record, away, talk);
    let start = talk.take(1);
    let after = recovery_laws::record_after(record, start);
    assert forall|n: int| 0 <= n <= start.len() implies accounted(
        anchor,
        recovery_laws::record_after(record, #[trigger] start.take(n)),
        away_after(home, away, start.take(n)),
    ) by {
        if n == 1 {
            assert(start.take(n) =~= start);
        } else {
            assert(start.take(n) =~= Seq::empty());
        }
    }
    if !(talk[0].answer is Done) {
        assert(talk.skip(1) =~= Seq::empty());
        assert forall|n: int| 0 <= n <= 0 implies accounted(
            anchor,
            recovery_laws::record_after(after, #[trigger] talk.skip(1).take(n)),
            away_after(home, away, talk.skip(1).take(n)),
        ) by {
            assert(talk.skip(1).take(n) =~= Seq::empty());
        }
    }
    lemma_strands_joined(home, anchor, record, away, talk, 1);
}

/// After `n` exchanges of an evacuation, only panes that are on record as parked are away.
proof fn lemma_evacuation_prefix(
    home: Seq<char>,
    parking_tab: Seq<char>,
    record: Option<StateView>,
    state: StateView,
    talk: Seq<Entry>,
    outcome: Result<(), Failure>,
    n: int,
)
    requires
        log::follows(talk, opening::evacuation(state, parking_tab), outcome),
        0 <= n <= talk.len(),
    ensures
        n <= 1 ==> away_after(home, Set::empty(), talk.take(n)) == Set::<Seq<char>>::empty(),
        n > 1 || (n == 1 && talk[0].answer is Done) ==> recovery_laws::record_after(
            record,
            talk.take(n),
        ) == Some(state),
        forall|pane: Seq<char>| #[trigger]
            away_after(home, Set::empty(), talk.take(n)).contains(pane) ==> state.parked.contains(
                pane,
            ),
    decreases n,
{
    let calls = opening::evacuation(state, parking_tab);
    if n > 0 {
        lemma_evacuation_prefix(home, parking_tab, record, state, talk, outcome, n - 1);
        assert(talk.take(n).drop_last() =~= talk.take(n - 1));
        assert(talk.take(n).last() == talk[n - 1]);
        assert(talk[n - 1].call == calls[n - 1]);
        if n > 1 {
            assert(talk[0].answer is Done);
            assert(calls[n - 1] == action::drop_call(state.parked[n - 2], parking_tab));
            assert(state.parked.contains(state.parked[n - 2]));
        }
        let before = away_after(home, Set::empty(), talk.take(n - 1));
        assert forall|pane: Seq<char>| #[trigger]
            away_after(
                home,
                Set::empty(),
                talk.take(n),
            ).contains(pane) implies state.parked.contains(
            pane,
        ) by {
            assert(before.contains(pane) || (n > 1 && pane == state.parked[n - 2]));
        }
    } else {
        assert(talk.take(0) =~= Seq::empty());
    }
}

proof fn lemma_evacuation_strands_none(
    home: Seq<char>,
    anchor: Seq<char>,
    parking_tab: Seq<char>,
    record: Option<StateView>,
    state: StateView,
    talk: Seq<Entry>,
    outcome: Result<(), Failure>,
)
    requires
        log::follows(talk, opening::evacuation(state, parking_tab), outcome),
        state.phase == Phase::Evacuating,
    ensures
        strands_none(home, anchor, record, Set::empty(), talk),
        outcome is Ok ==> recovery_laws::record_after(record, talk) == Some(state),
        forall|pane: Seq<char>| #[trigger]
            away_after(home, Set::empty(), talk).contains(pane) ==> state.parked.contains(pane),
{
    assert forall|n: int| 0 <= n <= talk.len() implies accounted(
        anchor,
        recovery_laws::record_after(record, #[trigger] talk.take(n)),
        away_after(home, Set::empty(), talk.take(n)),
    ) by {
        lemma_evacuation_prefix(home, parking_tab, record, state, talk, outcome, n);
    }
    let end = talk.len() as int;
    lemma_evacuation_prefix(home, parking_tab, record, state, talk, outcome, end);
    assert(talk.take(end) =~= talk);
}

/// Whether a plan brings back every pane of a layout but the anchor.
pub open spec fn brings_back(plan: PlanView, rects: Seq<RectView>) -> bool {
    forall|pane: Seq<char>| #[trigger]
        opening::pane_ids(rects).contains(pane) && pane != plan.anchor ==> returned_by(
            plan.steps,
            plan.steps.len() as int,
            pane,
        )
}

/// Whether one of the first `count` moves is that of a pane.
pub open spec fn returned_by(steps: Seq<StepView>, count: int, pane: Seq<char>) -> bool {
    exists|k: int| 0 <= k < count && (#[trigger] steps[k]).pane == pane
}

/// How many exchanges the reordering of sidebar and anchor takes.
pub open spec fn turned_length(
    position: SidebarPosition,
    parking: Option<(Seq<char>, Seq<char>)>,
) -> int {
    if parking is Some && opening::is_inverse(position) {
        2
    } else {
        0
    }
}

/// After `n` exchanges of an arrangement that were all answered with success, the record is as
/// before and the panes away are those whose move is still to come, with the anchor while it is
/// being reordered.
proof fn lemma_arrangement_prefix(
    ctx: CtxView,
    position: SidebarPosition,
    plan: PlanView,
    state: StateView,
    parking: Option<(Seq<char>, Seq<char>)>,
    sidebar: Seq<char>,
    away: Set<Seq<char>>,
    talk: Seq<Entry>,
    n: int,
)
    requires
        talk.len() <= opening::arrangement(ctx, position, plan, state, parking, sidebar).len(),
        forall|i: int|
            0 <= i < talk.len() ==> (#[trigger] talk[i]).call == opening::arrangement(
                ctx,
                position,
                plan,
                state,
                parking,
                sidebar,
            )[i],
        0 <= n <= talk.len(),
        n < opening::arrangement(ctx, position, plan, state, parking, sidebar).len(),
        forall|i: int| 0 <= i < n ==> (#[trigger] talk[i]).answer is Done,
        !away.contains(plan.anchor),
    ensures
        recovery_laws::record_after(Some(state), talk.take(n)) == Some(state),
        forall|pane: Seq<char>| #[trigger]
            away_after(ctx.tab, away, talk.take(n)).contains(pane) ==> {
                ||| pane == plan.anchor && n == 1 && turned_length(position, parking) == 2
                ||| {
                    &&& pane != plan.anchor
                    &&& away.contains(pane)
                    &&& forall|k: int|
                        0 <= k < plan.steps.len() && k < n - turned_length(position, parking) ==> (
                        #[trigger] plan.steps[k]).pane != pane
                }
            },
    decreases n,
{
    let calls = opening::arrangement(ctx, position, plan, state, parking, sidebar);
    let turned = turned_length(position, parking);
    if n > 0 {
        lemma_arrangement_prefix(
            ctx,
            position,
            plan,
            state,
            parking,
            sidebar,
            away,
            talk,
            n - 1,
        );
        let entry = talk[n - 1];
        assert(talk.take(n).drop_last() =~= talk.take(n - 1));
        assert(talk.take(n).last() == entry);
        assert(entry.call == calls[n - 1]);
        let before = away_after(ctx.tab, away, talk.take(n - 1));
        if n - 1 < turned {
            if n - 1 == 0 {
                assert(calls[0] == action::drop_call(plan.anchor, (parking->0).0));
            } else {
                assert(calls[1] is MovePane && calls[1]->MovePane_pane == plan.anchor
                    && calls[1]->MovePane_tab == ctx.tab);
            }
        } else if n - 1 < turned + plan.steps.len() {
            let step = plan.steps[n - 1 - turned];
            assert(calls[n - 1] == action::place_call(ctx.tab, step));
        } else {
            assert(calls[n - 1] is ClosePane);
        }
    } else {
        assert(talk.take(0) =~= Seq::empty());
    }
}

proof fn lemma_arrangement_strands_none(
    ctx: CtxView,
    position: SidebarPosition,
    plan: PlanView,
    state: StateView,
    parking: Option<(Seq<char>, Seq<char>)>,
    sidebar: Seq<char>,
    away: Set<Seq<char>>,
    talk: Seq<Entry>,
    outcome: Result<(), Failure>,
)
    requires
        log::follows(
            talk,
            opening::arrangement(ctx, position, plan, state, parking, sidebar),
            outcome,
        ),
        !away.contains(plan.anchor),
        accounted(plan.anchor, Some(state), away),
        forall|pane: Seq<char>| #[trigger]
            away.contains(pane) ==> returned_by(plan.steps, plan.steps.len() as int, pane),
    ensures
        strands_none(ctx.tab, plan.anchor, Some(state), away, talk),
        outcome is Ok ==> away_after(ctx.tab, away, talk) == Set::<Seq<char>>::empty(),
{
    let calls = opening::arrangement(ctx, position, plan, state, parking, sidebar);
    let turned = turned_length(position, parking);
    let last = calls.len() - 1;
    assert(calls[last] is SaveState);
    assert(last >= turned + plan.steps.len());
    if talk.len() == calls.len() {
        lemma_arrangement_prefix(
            ctx,
            position,
            plan,
            state,
            parking,
            sidebar,
            away,
            talk,
            last,
        );
        let gone = away_after(ctx.tab, away, talk.take(last));
        assert(gone =~= Set::empty()) by {
            assert forall|pane: Seq<char>| !gone.contains(pane) by {
                if gone.contains(pane) {
                    if pane == plan.anchor {
                        assert(last > 1);
                    } else {
                        assert(away.contains(pane));
                        let k = choose|k: int|
                            0 <= k < plan.steps.len() && (#[trigger] plan.steps[k]).pane == pane;
                        assert(plan.steps[k].pane != pane);
                    }
                }
            }
        }
        assert(talk.drop_last() =~= talk.take(last));
        assert(talk.take(talk.len() as int) =~= talk);
    }
    assert forall|n: int| 0 <= n <= talk.len() implies accounted(
        plan.anchor,
        recovery_laws::record_after(Some(state), #[trigger] talk.take(n)),
        away_after(ctx.tab, away, talk.take(n)),
    ) by {
        if n > 0 && !(talk[n - 1].answer is Done) {
            assert(talk.take(n).drop_last() =~= talk.take(n - 1));
            assert(talk.take(n).last() == talk[n - 1]);
            assert(recovery_laws::record_after(Some(state), talk.take(n))
                == recovery_laws::record_after(Some(state), talk.take(n - 1)));
            assert(away_after(ctx.tab, away, talk.take(n)) == away_after(
                ctx.tab,
                away,
                talk.take(n - 1),
            ));
            lemma_arrangement_prefix(
                ctx,
                position,
                plan,
                state,
                parking,
                sidebar,
                away,
                talk,
                n - 1,
            );
        } else if n == calls.len() {
            assert(talk.take(n) =~= talk);
        } else {
            lemma_arrangement_prefix(
                ctx,
                position,
                plan,
                state,
                parking,
                sidebar,
                away,
                talk,
                n,
            );
        }
    }
}

/// One failed or neutral exchange, and no more.
proof fn lemma_strands_alone(
    home: Seq<char>,
    anchor: Seq<char>,
    record: Option<StateView>,
    away: Set<Seq<char>>,
    talk: Seq<Entry>,
)
    requires
        talk.len() == 1,
        !(talk[0].answer is Done),
        accounted(anchor, record, away),
    ensures
        strands_none(home, anchor, record, away, talk),
{
    assert forall|n: int| 0 <= n <= talk.len() implies accounted(
        anchor,
        recovery_laws::record_after(record, #[trigger] talk.take(n)),
        away_after(home, away, talk.take(n)),
    ) by {
        if n == 1 {
            assert(talk.take(n).last() == talk[0]);
            assert(talk.take(n).drop_last() =~= Seq::empty());
            assert(recovery_laws::record_after(record, talk.take(n).drop_last()) == record);
            assert(away_after(home, away, talk.take(n).drop_last()) == away);
        } else {
            assert(talk.take(n) =~= Seq::empty());
        }
    }
}

proof fn lemma_dock_strands_none(
    ctx: CtxView,
    position: SidebarPosition,
    plan: PlanView,
    state: StateView,
    parking: Option<(Seq<char>, Seq<char>)>,
    record: Option<StateView>,
    away: Set<Seq<char>>,
    talk: Seq<Entry>,
    outcome: Result<(), Failure>,
)
    requires
        opening::dock_ran(ctx, position, plan, state, parking, talk, outcome),
        !away.contains(plan.anchor),
        accounted(plan.anchor, record, away),
        accounted(plan.anchor, Some(state), away),
        forall|pane: Seq<char>| #[trigger]
            away.contains(pane) ==> returned_by(plan.steps, plan.steps.len() as int, pane),
    ensures
        strands_none(ctx.tab, plan.anchor, record, away, talk),
        outcome is Ok ==> away_after(ctx.tab, away, talk) == Set::<Seq<char>>::empty(),
{
    let home = ctx.tab;
    let anchor = plan.anchor;
    if talk[0].answer is Text {
        let sidebar = talk[0].answer->Text_0@;
        let docked = opening::docked_state(state, sidebar);
        let saved = talk.skip(1);
        assert(accounted(anchor, Some(docked), away));
        if saved[0].answer is Done {
            let rest = saved.skip(1);
            if opening::is_inverse(position) && parking is None {
                if rest[0].answer is Tab {
                    let made = Some((rest[0].answer->Tab_0@, rest[0].answer->Tab_1@));
                    lemma_arrangement_strands_none(
                        ctx,
                        position,
                        plan,
                        docked,
                        made,
                        sidebar,
                        away,
                        rest.skip(1),
                        outcome,
                    );
                    lemma_strands_after_neutral(home, anchor, Some(docked), away, rest);
                } else {
                    lemma_strands_alone(home, anchor, Some(docked), away, rest);
                }
            } else {
                lemma_arrangement_strands_none(
                    ctx,
                    position,
                    plan,
                    docked,
                    parking,
                    sidebar,
                    away,
                    rest,
                    outcome,
                );
            }
        }
        lemma_strands_after_save(home, anchor, record, away, saved);
        lemma_strands_after_neutral(home, anchor, record, away, talk);
    } else {
        lemma_strands_alone(home, anchor, record, away, talk);
    }
}

proof fn lemma_evacuate_strands_none(
    ctx: CtxView,
    position: SidebarPosition,
    rects: Seq<RectView>,
    plan: PlanView,
    record: Option<StateView>,
    talk: Seq<Entry>,
    outcome: Result<(), Failure>,
)
    requires
        opening::evacuate_ran(ctx, position, rects, plan, talk, outcome),
        brings_back(plan, rects),
    ensures
        strands_none(ctx.tab, plan.anchor, record, Set::empty(), talk),
        outcome is Ok ==> away_after(ctx.tab, Set::empty(), talk) == Set::<Seq<char>>::empty(),
{
    let home = ctx.tab;
    let anchor = plan.anchor;
    assert(accounted(anchor, record, Set::empty()));
    if talk[0].answer is Tab {
        let parking_tab = talk[0].answer->Tab_0@;
        let placeholder = talk[0].answer->Tab_1@;
        let state = opening::evacuated_state(ctx, rects, plan, parking_tab);
        let calls = opening::evacuation(state, parking_tab);
        let rest = talk.skip(1);
        if outcome is Err && log::follows(rest, calls, outcome) {
            lemma_evacuation_strands_none(home, anchor, parking_tab, record, state, rest, outcome);
        } else {
            let length = calls.len() as int;
            let start = rest.take(length);
            let away = away_after(home, Set::empty(), start);
            lemma_evacuation_strands_none(
                home,
                anchor,
                parking_tab,
                record,
                state,
                start,
                Ok::<(), Failure>(()),
            );
            assert forall|pane: Seq<char>| #[trigger] away.contains(pane) implies pane != anchor
                && returned_by(plan.steps, plan.steps.len() as int, pane) by {
                text::lemma_without_contains(opening::pane_ids(rects), anchor, pane);
            }
            lemma_dock_strands_none(
                ctx,
                position,
                plan,
                state,
                Some((parking_tab, placeholder)),
                Some(state),
                away,
                rest.skip(length),
                outcome,
            );
            lemma_strands_joined(home, anchor, record, Set::empty(), rest, length);
        }
        lemma_strands_after_neutral(home, anchor, record, Set::empty(), talk);
    } else {
        lemma_strands_alone(home, anchor, record, Set::empty(), talk);
    }
}

proof fn lemma_held_strands_none(
    ctx: CtxView,
    position: SidebarPosition,
    rects: Seq<RectView>,
    plan: PlanView,
    record: Option<StateView>,
    talk: Seq<Entry>,
    outcome: Result<(), Failure>,
)
    requires
        opening::held_ran(ctx, position, talk, outcome),
        talk[0].answer matches Answer::Rects(found) ==> herdr::rects_of(found@) == rects,
        talk.len() > 1 ==> (talk[1].answer matches Answer::Plan(found) ==> found@ == plan),
        brings_back(plan, rects),
    ensures
        strands_none(ctx.tab, plan.anchor, record, Set::empty(), talk),
        outcome is Ok ==> away_after(ctx.tab, Set::empty(), talk) == Set::<Seq<char>>::empty(),
{
    let home = ctx.tab;
    let anchor = plan.anchor;
    assert(accounted(anchor, record, Set::empty()));
    if talk[0].answer is Rects {
        let planned = talk.skip(1);
        assert(planned[0] == talk[1]);
        if planned[0].answer is Plan {
            let rest = planned.skip(1);
            if rects.len() > 1 {
                lemma_evacuate_strands_none(ctx, position, rects, plan, record, rest, outcome);
            } else {
                let plain = opening::plain_state(ctx, plan);
                assert(accounted(anchor, Some(plain), Set::empty()));
                lemma_dock_strands_none(
                    ctx,
                    position,
                    plan,
                    plain,
                    None,
                    record,
                    Set::empty(),
                    rest,
                    outcome,
                );
            }
            lemma_strands_after_neutral(home, anchor, record, Set::empty(), planned);
        } else {
            lemma_strands_alone(home, anchor, record, Set::empty(), planned);
        }
        lemma_strands_after_neutral(home, anchor, record, Set::empty(), talk);
    } else {
        lemma_strands_alone(home, anchor, record, Set::empty(), talk);
    }
}

/// An opening strands no pane. At every moment of it, and so also where it is cut short, every
/// pane but the anchor that is away from the tab is named as parked by a record from which a
/// recovery brings it back. After an opening that succeeds no pane is away, the anchor included.
///
/// This holds for a plan that brings back what it has to. The anchor is away for one moment while
/// it changes sides with a sidebar on the left or at the top, and is not on record then.
pub proof fn opening_strands_no_pane(
    ctx: CtxView,
    position: SidebarPosition,
    rects: Seq<RectView>,
    plan: PlanView,
    record: Option<StateView>,
    talk: Seq<Entry>,
    outcome: Result<(), Failure>,
)
    requires
        opening::open_ran(ctx, position, talk, outcome),
        talk[1].answer matches Answer::Rects(found) ==> herdr::rects_of(found@) == rects,
        talk.len() > 2 ==> (talk[2].answer matches Answer::Plan(found) ==> found@ == plan),
        brings_back(plan, rects),
    ensures
        strands_none(ctx.tab, plan.anchor, record, Set::empty(), talk),
        outcome is Ok ==> away_after(ctx.tab, Set::empty(), talk) == Set::<Seq<char>>::empty(),
{
    let home = ctx.tab;
    let anchor = plan.anchor;
    let held = talk.subrange(1, talk.len() - 1);
    let start = talk.drop_last();
    assert(accounted(anchor, record, Set::empty()));
    assert(start.skip(1) =~= held);
    assert(held[0] == talk[1]);
    assert(held.len() > 1 ==> held[1] == talk[2]);
    lemma_held_strands_none(ctx, position, rects, plan, record, held, outcome);
    lemma_strands_after_neutral(home, anchor, record, Set::empty(), start);
    assert(talk.take(talk.len() as int) =~= talk);
    assert forall|n: int| 0 <= n <= talk.len() implies accounted(
        anchor,
        recovery_laws::record_after(record, #[trigger] talk.take(n)),
        away_after(home, Set::empty(), talk.take(n)),
    ) by {
        if n < talk.len() {
            assert(talk.take(n) =~= start.take(n));
        } else {
            assert(start.take(start.len() as int) =~= start);
        }
    }
}

/// Whether a conversation opened a sidebar as this pane.
pub open spec fn opened(talk: Seq<Entry>, sidebar: Seq<char>) -> bool {
    exists|i: int|
        0 <= i < talk.len() && (#[trigger] talk[i]).call is OpenSidebarPane && (talk[i].answer
            matches Answer::Text(pane) && pane@ == sidebar)
}

/// Whether a conversation ends by putting on record that this sidebar is open and no pane parked.
pub open spec fn leaves_open(ctx: CtxView, talk: Seq<Entry>, sidebar: Seq<char>) -> bool {
    &&& talk.len() > 0
    &&& talk.last().answer is Done
    &&& talk.last().call is SaveState
    &&& ({
        let record = talk.last().call->SaveState_state;
        &&& record.phase == Phase::Open
        &&& record.workspace == ctx.workspace
        &&& record.tab == ctx.tab
        &&& record.parking_tab is None
        &&& record.parked.len() == 0
        &&& record.sidebar_pane == Some(sidebar)
    })
}

proof fn lemma_follows_ends(talk: Seq<Entry>, calls: Seq<Call>, outcome: Result<(), Failure>)
    requires
        log::follows(talk, calls, outcome),
        calls.len() > 0,
    ensures
        recovery_laws::ends_at_failure(talk, outcome),
{
}

proof fn lemma_dock_ends(
    ctx: CtxView,
    position: SidebarPosition,
    plan: PlanView,
    state: StateView,
    parking: Option<(Seq<char>, Seq<char>)>,
    talk: Seq<Entry>,
    outcome: Result<(), Failure>,
)
    requires
        opening::dock_ran(ctx, position, plan, state, parking, talk, outcome),
        state.workspace == ctx.workspace,
        state.tab == ctx.tab,
    ensures
        recovery_laws::ends_at_failure(talk, outcome),
        outcome is Ok ==> exists|sidebar: Seq<char>|
            opened(talk, sidebar) && #[trigger] leaves_open(ctx, talk, sidebar),
{
    if talk[0].answer is Text {
        let sidebar = talk[0].answer->Text_0@;
        let docked = opening::docked_state(state, sidebar);
        let saved = talk.skip(1);
        if saved[0].answer is Done {
            let rest = saved.skip(1);
            if opening::is_inverse(position) && parking is None {
                if rest[0].answer is Tab {
                    let made = Some((rest[0].answer->Tab_0@, rest[0].answer->Tab_1@));
                    let calls = opening::arrangement(ctx, position, plan, docked, made, sidebar);
                    lemma_follows_ends(rest.skip(1), calls, outcome);
                    recovery_laws::lemma_ends_later(rest, 1, outcome);
                    if outcome is Ok {
                        let last = rest.skip(1);
                        assert(last.last() == last[calls.len() - 1]);
                        assert(rest.last() == last.last());
                    }
                }
            } else {
                let calls = opening::arrangement(ctx, position, plan, docked, parking, sidebar);
                lemma_follows_ends(rest, calls, outcome);
                assert(outcome is Ok ==> rest.last() == rest[calls.len() - 1]);
            }
            recovery_laws::lemma_ends_later(saved, 1, outcome);
            assert(saved.last() == rest.last());
        }
        recovery_laws::lemma_ends_later(talk, 1, outcome);
        assert(talk.last() == saved.last());
        if outcome is Ok {
            assert(talk[0].call is OpenSidebarPane);
            assert(opened(talk, sidebar));
            assert(leaves_open(ctx, talk, sidebar));
        }
    }
}

proof fn lemma_opened_longer(talk: Seq<Entry>, length: int, sidebar: Seq<char>)
    requires
        0 <= length <= talk.len(),
        opened(talk.skip(length), sidebar),
    ensures
        opened(talk, sidebar),
{
    let rest = talk.skip(length);
    let i = choose|i: int|
        0 <= i < rest.len() && (#[trigger] rest[i]).call is OpenSidebarPane && (rest[i].answer
            matches Answer::Text(pane) && pane@ == sidebar);
    assert(talk[i + length] == rest[i]);
}

proof fn lemma_held_finishes(
    ctx: CtxView,
    position: SidebarPosition,
    talk: Seq<Entry>,
    outcome: Result<(), Failure>,
)
    requires
        opening::held_ran(ctx, position, talk, outcome),
    ensures
        recovery_laws::ends_at_failure(talk, outcome),
        outcome is Ok ==> exists|sidebar: Seq<char>|
            opened(talk, sidebar) && #[trigger] leaves_open(ctx, talk, sidebar),
{
    if talk[0].answer is Rects {
        let rects = herdr::rects_of(talk[0].answer->Rects_0@);
        let planned = talk.skip(1);
        if planned[0].answer is Plan {
            let plan = planned[0].answer->Plan_0@;
            let rest = planned.skip(1);
            if rects.len() > 1 {
                if rest[0].answer is Tab {
                    let parking_tab = rest[0].answer->Tab_0@;
                    let placeholder = rest[0].answer->Tab_1@;
                    let state = opening::evacuated_state(ctx, rects, plan, parking_tab);
                    let calls = opening::evacuation(state, parking_tab);
                    let parked = rest.skip(1);
                    if outcome is Err && log::follows(parked, calls, outcome) {
                        lemma_follows_ends(parked, calls, outcome);
                    } else {
                        let length = calls.len() as int;
                        let last = parked.skip(length);
                        lemma_follows_ends(parked.take(length), calls, Ok::<(), Failure>(()));
                        recovery_laws::lemma_none_failed(parked, length);
                        lemma_dock_ends(
                            ctx,
                            position,
                            plan,
                            state,
                            Some((parking_tab, placeholder)),
                            last,
                            outcome,
                        );
                        recovery_laws::lemma_ends_later(parked, length, outcome);
                        lemma_leaves_open_later(ctx, parked, length, outcome);
                    }
                    recovery_laws::lemma_ends_later(rest, 1, outcome);
                    lemma_leaves_open_later(ctx, rest, 1, outcome);
                }
            } else {
                lemma_dock_ends(
                    ctx,
                    position,
                    plan,
                    opening::plain_state(ctx, plan),
                    None,
                    rest,
                    outcome,
                );
            }
            recovery_laws::lemma_ends_later(planned, 1, outcome);
            lemma_leaves_open_later(ctx, planned, 1, outcome);
        }
        recovery_laws::lemma_ends_later(talk, 1, outcome);
        lemma_leaves_open_later(ctx, talk, 1, outcome);
    }
}

/// An opening ends with the first thing that fails, and reports that failure; only the lock is
/// given back after it. Where nothing fails it succeeds, and the last thing that it does under the
/// lock is to put on record that the sidebar which it opened is open and that no pane is parked.
pub proof fn opening_finishes(
    ctx: CtxView,
    position: SidebarPosition,
    talk: Seq<Entry>,
    outcome: Result<(), Failure>,
)
    requires
        opening::open_ran(ctx, position, talk, outcome),
    ensures
        recovery_laws::ends_at_failure(talk.subrange(1, talk.len() - 1), outcome),
        outcome is Ok ==> exists|sidebar: Seq<char>|
            opened(talk, sidebar) && #[trigger] leaves_open(ctx, talk.drop_last(), sidebar),
{
    let held = talk.subrange(1, talk.len() - 1);
    lemma_held_finishes(ctx, position, held, outcome);
    if outcome is Ok {
        let sidebar = choose|sidebar: Seq<char>|
            opened(held, sidebar) && #[trigger] leaves_open(ctx, held, sidebar);
        let i = choose|i: int|
            0 <= i < held.len() && (#[trigger] held[i]).call is OpenSidebarPane && (held[i].answer
                matches Answer::Text(pane) && pane@ == sidebar);
        assert(talk[i + 1] == held[i]);
        assert(opened(talk, sidebar));
        assert(talk.drop_last().last() == held.last());
        assert(leaves_open(ctx, talk.drop_last(), sidebar));
    }
}

proof fn lemma_leaves_open_later(
    ctx: CtxView,
    talk: Seq<Entry>,
    length: int,
    outcome: Result<(), Failure>,
)
    requires
        0 <= length <= talk.len(),
        outcome is Ok ==> exists|sidebar: Seq<char>|
            opened(talk.skip(length), sidebar) && #[trigger] leaves_open(
                ctx,
                talk.skip(length),
                sidebar,
            ),
    ensures
        outcome is Ok ==> exists|sidebar: Seq<char>|
            opened(talk, sidebar) && #[trigger] leaves_open(ctx, talk, sidebar),
{
    if outcome is Ok {
        let rest = talk.skip(length);
        let sidebar = choose|sidebar: Seq<char>|
            opened(rest, sidebar) && #[trigger] leaves_open(ctx, rest, sidebar);
        lemma_opened_longer(talk, length, sidebar);
        assert(talk.last() == rest.last());
        assert(leaves_open(ctx, talk, sidebar));
    }
}

/// The only pane of a tab never leaves it for a sidebar on the right or at the bottom: no tab is
/// created for parking, and nothing but what the plan has moved.
pub proof fn lone_pane_is_not_parked(
    ctx: CtxView,
    position: SidebarPosition,
    talk: Seq<Entry>,
    outcome: Result<(), Failure>,
    i: int,
)
    requires
        opening::open_ran(ctx, position, talk, outcome),
        talk[1].answer matches Answer::Rects(found) ==> found@.len() <= 1,
        !opening::is_inverse(position),
        0 <= i < talk.len(),
    ensures
        !(talk[i].call is CreateTab),
        talk[i].call is MovePane ==> talk[i].call->MovePane_tab == ctx.tab,
{
    let held = talk.subrange(1, talk.len() - 1);
    if 0 < i < talk.len() - 1 {
        assert(held[0] == talk[1]);
        assert(held[i - 1] == talk[i]);
        if i > 1 {
            let planned = held.skip(1);
            assert(planned[i - 2] == talk[i]);
            if i > 2 {
                let plan = planned[0].answer->Plan_0@;
                let docked = planned.skip(1);
                assert(docked[i - 3] == talk[i]);
                if i > 3 {
                    let sidebar = docked[0].answer->Text_0@;
                    let saved = docked.skip(1);
                    assert(saved[i - 4] == talk[i]);
                    if i > 4 {
                        let state = opening::docked_state(
                            opening::plain_state(ctx, plan),
                            sidebar,
                        );
                        let rest = saved.skip(1);
                        assert(rest[i - 5] == talk[i]);
                        let calls = opening::arrangement(
                            ctx,
                            position,
                            plan,
                            state,
                            None,
                            sidebar,
                        );
                        assert(rest[i - 5].call == calls[i - 5]);
                        if i - 5 < plan.steps.len() {
                            assert(calls[i - 5] == action::place_call(ctx.tab, plan.steps[i - 5]));
                        }
                    }
                }
            }
        }
    }
}

} // verus!
