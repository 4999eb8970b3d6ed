//! Where an opening puts the sidebar, and what it does to the panes of the tab on the way.
//!
//! All of this is said of the exchanges of an opening, whatever herdr answers. The layout, the
//! plan, the tab for parking and the sidebar are those that were answered in the conversation
//! itself.

use vstd::prelude::*;

use crate::action;
use crate::config::SidebarPosition;
use crate::context::CtxView;
use crate::failure::Failure;
use crate::herdr::{self, Dir, RectView};
use crate::log::{self, Answer, Call, Entry};
use crate::opening;
use crate::state::{Phase, PlanView, StateView};
use crate::text;

verus! {

/// The layout that was answered in an opening.
pub open spec fn layout_told(talk: Seq<Entry>) -> Seq<RectView> {
    herdr::rects_of(talk[1].answer->Rects_0@)
}

/// The plan that was answered in an opening.
pub open spec fn plan_told(talk: Seq<Entry>) -> PlanView {
    talk[2].answer->Plan_0@
}

/// The panes that have to leave their tab for an opening: all but the anchor.
spec fn leaving(talk: Seq<Entry>) -> Seq<Seq<char>> {
    text::without(opening::pane_ids(layout_told(talk)), plan_told(talk).anchor)
}

spec fn crowded(talk: Seq<Entry>) -> bool {
    layout_told(talk).len() > 1
}

spec fn turned(position: SidebarPosition) -> bool {
    position == SidebarPosition::Left || position == SidebarPosition::Top
}

/// Where the sidebar is asked for.
spec fn dock_at(talk: Seq<Entry>) -> int {
    if crowded(talk) {
        leaving(talk).len() + 5int
    } else {
        3
    }
}

/// Where a tab is asked for, if one is.
spec fn made_at(talk: Seq<Entry>) -> int {
    if crowded(talk) {
        3
    } else {
        5
    }
}

/// Where the anchor leaves, if it does.
spec fn turn_at(talk: Seq<Entry>) -> int {
    if crowded(talk) {
        dock_at(talk) + 2
    } else {
        6
    }
}

/// Where the first step of the plan is made.
spec fn steps_at(position: SidebarPosition, talk: Seq<Entry>) -> int {
    if turned(position) {
        turn_at(talk) + 2
    } else {
        dock_at(talk) + 2
    }
}

/// Where the exchanges about panes end.
spec fn steps_end(position: SidebarPosition, talk: Seq<Entry>) -> int {
    steps_at(position, talk) + plan_told(talk).steps.len()
}

/// Where the record is put down for the last time.
spec fn settled_at(position: SidebarPosition, talk: Seq<Entry>) -> int {
    if crowded(talk) || turned(position) {
        steps_end(position, talk) + 1
    } else {
        steps_end(position, talk)
    }
}

/// The sidebar that was answered in an opening.
spec fn sidebar_told(talk: Seq<Entry>) -> Seq<char> {
    talk[dock_at(talk)].answer->Text_0@
}

/// What stands at one place of the conversation of an opening.
spec fn stands_at(ctx: CtxView, position: SidebarPosition, talk: Seq<Entry>, i: int) -> bool {
    let call = talk[i].call;
    let plan = plan_told(talk);
    let dock = dock_at(talk);
    let made = talk[made_at(talk)].answer;
    if i == 1 {
        call == (Call::PaneRects { tab: ctx.tab })
    } else if i == 2 {
        call == (Call::PlanRebuild { rects: layout_told(talk) })
    } else if i == made_at(talk) && (crowded(talk) || turned(position)) {
        call == (Call::CreateTab { workspace: ctx.workspace })
    } else if i < dock {
        if i == 4 {
            &&& call is SaveState
            &&& call->SaveState_state.phase == Phase::Evacuating
            &&& call->SaveState_state.workspace == ctx.workspace
            &&& call->SaveState_state.tab == ctx.tab
            &&& call->SaveState_state.anchor == plan.anchor
            &&& call->SaveState_state.parking_tab == Some(made->Tab_0@)
            &&& call->SaveState_state.parked == leaving(talk)
            &&& call->SaveState_state.plan_steps == plan.steps
            &&& call->SaveState_state.sidebar_pane is None
        } else {
            call == (Call::MovePane {
                pane: leaving(talk)[i - 5],
                tab: made->Tab_0@,
                dir: Dir::Right,
                target: None,
                ratio: None,
                focus: false,
            })
        }
    } else if i == dock {
        call == (Call::OpenSidebarPane {
            anchor: plan.anchor,
            dir: if position == SidebarPosition::Top || position == SidebarPosition::Bottom {
                Dir::Down
            } else {
                Dir::Right
            },
            cwd: ctx.cwd,
            focus: true,
        })
    } else if i == dock + 1 {
        &&& call is SaveState
        &&& (call->SaveState_state.phase == Phase::Evacuating) == crowded(talk)
        &&& call->SaveState_state.workspace == ctx.workspace
        &&& call->SaveState_state.tab == ctx.tab
        &&& call->SaveState_state.anchor == plan.anchor
        &&& call->SaveState_state.parking_tab == if crowded(talk) {
            Some(made->Tab_0@)
        } else {
            None
        }
        &&& call->SaveState_state.parked == if crowded(talk) {
            leaving(talk)
        } else {
            Seq::empty()
        }
        &&& call->SaveState_state.plan_steps == plan.steps
        &&& call->SaveState_state.sidebar_pane == Some(sidebar_told(talk))
    } else if turned(position) && i == turn_at(talk) {
        call == (Call::MovePane {
            pane: plan.anchor,
            tab: made->Tab_0@,
            dir: Dir::Right,
            target: None,
            ratio: None,
            focus: false,
        })
    } else if turned(position) && i == turn_at(talk) + 1 {
        call == (Call::MovePane {
            pane: plan.anchor,
            tab: ctx.tab,
            dir: if position == SidebarPosition::Top {
                Dir::Down
            } else {
                Dir::Right
            },
            target: Some(sidebar_told(talk)),
            ratio: Some("0.5"@),
            focus: false,
        })
    } else if i < steps_end(position, talk) {
        let step = plan.steps[i - steps_at(position, talk)];
        call == (Call::MovePane {
            pane: step.pane,
            tab: ctx.tab,
            dir: step.dir,
            target: Some(step.target),
            ratio: Some(step.ratio),
            focus: false,
        })
    } else if i < settled_at(position, talk) {
        call == (Call::ClosePane { pane: made->Tab_1@ })
    } else {
        &&& i == settled_at(position, talk)
        &&& call is SaveState
        &&& call->SaveState_state.phase == Phase::Open
        &&& call->SaveState_state.workspace == ctx.workspace
        &&& call->SaveState_state.tab == ctx.tab
        &&& call->SaveState_state.anchor == plan.anchor
        &&& call->SaveState_state.parking_tab is None
        &&& call->SaveState_state.parked.len() == 0
        &&& call->SaveState_state.plan_steps == plan.steps
        &&& call->SaveState_state.sidebar_pane == Some(sidebar_told(talk))
    }
}

/// Whether the exchange at a place of an opening was answered with what the rest of it needs.
spec fn answered_at(position: SidebarPosition, talk: Seq<Entry>, i: int) -> bool {
    let answer = talk[i].answer;
    if i == 1 {
        answer is Rects
    } else if i == 2 {
        answer is Plan
    } else if i == made_at(talk) && (crowded(talk) || turned(position)) {
        answer is Tab
    } else if i == dock_at(talk) {
        answer is Text
    } else {
        answer is Done
    }
}

/// The same from the sidebar on.
proof fn lemma_dock_laid_out(
    ctx: CtxView,
    position: SidebarPosition,
    state: StateView,
    parking: Option<(Seq<char>, Seq<char>)>,
    talk: Seq<Entry>,
    docked: Seq<Entry>,
    outcome: Result<(), Failure>,
    i: int,
)
    requires
        opening::dock_ran(ctx, position, plan_told(talk), state, parking, docked, outcome),
        docked.len() == talk.len() - 1 - dock_at(talk),
        forall|k: int|
            0 <= k < docked.len() ==> #[trigger] docked[k] == talk[k + dock_at(talk)],
        crowded(talk) ==> parking == Some(
            (talk[3].answer->Tab_0@, talk[3].answer->Tab_1@),
        ) && state == opening::evacuated_state(
            ctx,
            layout_told(talk),
            plan_told(talk),
            talk[3].answer->Tab_0@,
        ),
        !crowded(talk) ==> parking is None && state == opening::plain_state(ctx, plan_told(talk)),
    ensures
        dock_at(talk) <= i < talk.len() - 1 ==> {
            &&& stands_at(ctx, position, talk, i)
            &&& outcome is Ok || i < talk.len() - 2 ==> answered_at(position, talk, i)
            &&& outcome is Err && i == talk.len() - 2 ==> talk[i].answer == Answer::Failed(
                outcome->Err_0,
            )
        },
        outcome is Ok ==> talk.len() == settled_at(position, talk) + 2,
{
    let plan = plan_told(talk);
    let dock = dock_at(talk);
    assert(docked[0] == talk[dock]);
    if docked[0].answer is Text {
        let sidebar = sidebar_told(talk);
        let after = opening::docked_state(state, sidebar);
        let saved = docked.skip(1);
        assert(saved[0] == docked[1]);
        if saved[0].answer is Done {
            let rest = saved.skip(1);
            if turned(position) && parking is None {
                assert(rest[0] == docked[2]);
                if rest[0].answer is Tab {
                    let made = Some((rest[0].answer->Tab_0@, rest[0].answer->Tab_1@));
                    let last = rest.skip(1);
                    lemma_arranged(ctx, position, plan, after, made, sidebar, last, outcome);
                    if i >= dock + 3 && i < talk.len() - 1 {
                        assert(last[i - dock - 3] == docked[i - dock]);
                    }
                }
            } else {
                lemma_arranged(ctx, position, plan, after, parking, sidebar, rest, outcome);
                if i >= dock + 2 && i < talk.len() - 1 {
                    assert(rest[i - dock - 2] == docked[i - dock]);
                }
            }
        }
    }
    if dock <= i < talk.len() - 1 {
        assert(docked[i - dock] == talk[i]);
    }
}

/// What stands at every place from the reordering of sidebar and anchor on.
proof fn lemma_arranged(
    ctx: CtxView,
    position: SidebarPosition,
    plan: PlanView,
    state: StateView,
    parking: Option<(Seq<char>, Seq<char>)>,
    sidebar: Seq<char>,
    talk: Seq<Entry>,
    outcome: Result<(), Failure>,
)
    requires
        log::follows(
            talk,
            opening::arrangement(ctx, position, plan, state, parking, sidebar),
            outcome,
        ),
        turned(position) ==> parking is Some,
    ensures
        ({
            let start: int = if turned(position) {
                2
            } else {
                0
            };
            let end = start + plan.steps.len();
            let settled = if parking is Some {
                end + 1
            } else {
                end
            };
            &&& talk.len() <= settled + 1
            &&& outcome is Ok ==> talk.len() == settled + 1
            &&& forall|i: int|
                0 <= i < talk.len() && (outcome is Ok || i < talk.len() - 1) ==> (
                #[trigger] talk[i]).answer is Done
            &&& outcome is Err ==> talk.len() > 0 && talk.last().answer == Answer::Failed(
                outcome->Err_0,
            )
            &&& turned(position) && talk.len() > 0 ==> talk[0].call == (Call::MovePane {
                pane: plan.anchor,
                tab: (parking->0).0,
                dir: Dir::Right,
                target: None,
                ratio: None,
                focus: false,
            })
            &&& turned(position) && talk.len() > 1 ==> talk[1].call == (Call::MovePane {
                pane: plan.anchor,
                tab: ctx.tab,
                dir: if position == SidebarPosition::Top {
                    Dir::Down
                } else {
                    Dir::Right
                },
                target: Some(sidebar),
                ratio: Some("0.5"@),
                focus: false,
            })
            &&& forall|i: int|
                start <= i < talk.len() && i < end ==> (#[trigger] talk[i]).call
                    == (Call::MovePane {
                    pane: plan.steps[i - start].pane,
                    tab: ctx.tab,
                    dir: plan.steps[i - start].dir,
                    target: Some(plan.steps[i - start].target),
                    ratio: Some(plan.steps[i - start].ratio),
                    focus: false,
                })
            &&& parking is Some && end < talk.len() ==> talk[end].call == (Call::ClosePane {
                pane: (parking->0).1,
            })
            &&& settled < talk.len() ==> talk[settled].call == (Call::SaveState {
                state: opening::settled_state(state),
            })
        }),
{
    let calls = opening::arrangement(ctx, position, plan, state, parking, sidebar);
    let start: int = if turned(position) {
        2
    } else {
        0
    };
    let end = start + plan.steps.len();
    assert(talk.len() > 0 ==> talk[0].call == calls[0]);
    assert(talk.len() > 1 ==> talk[1].call == calls[1]);
    assert forall|i: int| start <= i < talk.len() && i < end implies (#[trigger] talk[i]).call
        == (Call::MovePane {
        pane: plan.steps[i - start].pane,
        tab: ctx.tab,
        dir: plan.steps[i - start].dir,
        target: Some(plan.steps[i - start].target),
        ratio: Some(plan.steps[i - start].ratio),
        focus: false,
    }) by {
        assert(calls[i] == action::place_call(ctx.tab, plan.steps[i - start]));
    }
    assert(end < talk.len() ==> talk[end].call == calls[end]);
    assert(end + 1 < talk.len() ==> talk[end + 1].call == calls[end + 1]);
    assert forall|i: int|
        0 <= i < talk.len() && (outcome is Ok || i < talk.len() - 1) implies (
    #[trigger] talk[i]).answer is Done by {
        if i == talk.len() - 1 {
            assert(talk.last() == talk[i]);
        }
    }
}

/// What stands at every place of the conversation of an opening, and how it was answered there as
/// long as it went on.
proof fn lemma_opening_laid_out(
    ctx: CtxView,
    position: SidebarPosition,
    talk: Seq<Entry>,
    outcome: Result<(), Failure>,
    i: int,
)
    requires
        opening::open_ran(ctx, position, talk, outcome),
        0 < i < talk.len() - 1,
    ensures
        stands_at(ctx, position, talk, i),
        outcome is Ok || i < talk.len() - 2 ==> answered_at(position, talk, i),
        outcome is Err && i == talk.len() - 2 ==> talk[i].answer == Answer::Failed(
            outcome->Err_0,
        ),
        outcome is Ok ==> talk.len() == settled_at(position, talk) + 2,
{
    let held = talk.subrange(1, talk.len() - 1);
    assert(held[0] == talk[1]);
    assert(held[i - 1] == talk[i]);
    if held[0].answer is Rects {
        let rects = layout_told(talk);
        let planned = held.skip(1);
        assert(planned[0] == talk[2]);
        if planned[0].answer is Plan {
            let plan = plan_told(talk);
            let rest = planned.skip(1);
            if rects.len() > 1 {
                assert(rest[0] == talk[3]);
                if rest[0].answer is Tab {
                    let parking_tab = rest[0].answer->Tab_0@;
                    let placeholder = rest[0].answer->Tab_1@;
                    let state = opening::evacuated_state(ctx, rects, plan, parking_tab);
                    let calls = opening::evacuation(state, parking_tab);
                    let parked = rest.skip(1);
                    assert(calls.len() == leaving(talk).len() + 1);
                    if outcome is Err && log::follows(parked, calls, outcome) {
                        if i >= 4 {
                            assert(parked[i - 4] == talk[i]);
                            assert(parked[i - 4].call == calls[i - 4]);
                        }
                    } else {
                        let length = calls.len() as int;
                        let start = parked.take(length);
                        let last = parked.skip(length);
                        if 4 <= i < 4 + length {
                            assert(start[i - 4] == talk[i]);
                            assert(start[i - 4].call == calls[i - 4]);
                        }
                        assert(last.len() == talk.len() - 1 - dock_at(talk));
                        assert forall|k: int| 0 <= k < last.len() implies #[trigger] last[k]
                            == talk[k + dock_at(talk)] by {}
                        lemma_dock_laid_out(
                            ctx,
                            position,
                            state,
                            Some((parking_tab, placeholder)),
                            talk,
                            last,
                            outcome,
                            i,
                        );
                    }
                }
            } else {
                assert forall|k: int| 0 <= k < rest.len() implies #[trigger] rest[k] == talk[k
                    + 3] by {}
                lemma_dock_laid_out(
                    ctx,
                    position,
                    opening::plain_state(ctx, plan),
                    None,
                    talk,
                    rest,
                    outcome,
                    i,
                );
            }
        }
    }
}

/// Whether a plan leaves the pane alone that it rebuilds the layout around.
pub open spec fn spares_anchor(plan: PlanView) -> bool {
    forall|k: int| 0 <= k < plan.steps.len() ==> (#[trigger] plan.steps[k]).pane != plan.anchor
}

/// Whether every plan that was answered leaves its own anchor alone.
pub open spec fn plans_spare_the_anchor(talk: Seq<Entry>) -> bool {
    forall|p: int|
        0 <= p < talk.len() && (#[trigger] talk[p]).answer is Plan ==> spares_anchor(
            talk[p].answer->Plan_0@,
        )
}

/// Whether every tab that herdr says it has created is another than this one.
pub open spec fn creates_other_tabs(home: Seq<char>, talk: Seq<Entry>) -> bool {
    forall|c: int|
        0 <= c < talk.len() && (#[trigger] talk[c]).call is CreateTab && talk[c].answer is Tab
            ==> talk[c].answer->Tab_0@ != home
}

/// Whether an exchange moves this pane.
pub open spec fn moves_pane(entry: Entry, pane: Seq<char>) -> bool {
    entry.call is MovePane && entry.call->MovePane_pane == pane
}

proof fn lemma_leaving_spares(talk: Seq<Entry>, k: int)
    requires
        0 <= k < leaving(talk).len(),
    ensures
        leaving(talk)[k] != plan_told(talk).anchor,
        opening::pane_ids(layout_told(talk)).contains(leaving(talk)[k]),
{
    let ids = opening::pane_ids(layout_told(talk));
    text::lemma_without_contains(ids, plan_told(talk).anchor, leaving(talk)[k]);
    assert(leaving(talk).contains(leaving(talk)[k]));
}

/// An opening that succeeds opens one sidebar and no more. It is split off the anchor of the plan
/// that was answered, where the editor is to work, and is focused: downwards for the top and the
/// bottom, and to the right for the left and the right.
pub proof fn one_sidebar_is_opened(
    ctx: CtxView,
    position: SidebarPosition,
    talk: Seq<Entry>,
) -> (dock: int)
    requires
        opening::open_ran(ctx, position, talk, Ok::<(), Failure>(())),
    ensures
        2 < dock < talk.len(),
        talk[2].answer is Plan,
        talk[dock].answer is Text,
        talk[dock].call == (Call::OpenSidebarPane {
            anchor: plan_told(talk).anchor,
            dir: match position {
                SidebarPosition::Left | SidebarPosition::Right => Dir::Right,
                SidebarPosition::Top | SidebarPosition::Bottom => Dir::Down,
            },
            cwd: ctx.cwd,
            focus: true,
        }),
        forall|i: int|
            0 <= i < talk.len() && (#[trigger] talk[i]).call is OpenSidebarPane ==> i == dock,
{
    let ok = Ok::<(), Failure>(());
    let dock = dock_at(talk);
    let held = talk.subrange(1, talk.len() - 1);
    assert(held[0] == talk[1]);
    lemma_opening_laid_out(ctx, position, talk, ok, 1);
    lemma_opening_laid_out(ctx, position, talk, ok, 2);
    lemma_opening_laid_out(ctx, position, talk, ok, dock);
    assert forall|i: int|
        0 <= i < talk.len() && (#[trigger] talk[i]).call is OpenSidebarPane implies i == dock by {
        if 0 < i < talk.len() - 1 {
            lemma_opening_laid_out(ctx, position, talk, ok, i);
        }
    }
    dock
}

/// A sidebar on the left or at the top changes sides with the anchor, however many panes the tab
/// has. Once the sidebar stands, the anchor is moved away, to a tab that herdr created for this
/// opening, and then back into its tab, to the right of the sidebar or below it. That is the second
/// and last time that it is moved.
///
/// This holds for a plan that leaves its own anchor alone. The tab that herdr created is another
/// one where herdr does what it is asked for.
pub proof fn anchor_changes_sides(
    ctx: CtxView,
    position: SidebarPosition,
    talk: Seq<Entry>,
    dock: int,
) -> (moves: (int, int))
    requires
        opening::open_ran(ctx, position, talk, Ok::<(), Failure>(())),
        position == SidebarPosition::Left || position == SidebarPosition::Top,
        plans_spare_the_anchor(talk),
        0 <= dock < talk.len(),
        talk[dock].call is OpenSidebarPane,
    ensures
        talk[dock].answer is Text,
        dock < moves.0 < moves.1 < talk.len(),
        moves_pane(talk[moves.0], talk[dock].call->OpenSidebarPane_anchor),
        exists|c: int|
            0 <= c < moves.0 && (#[trigger] talk[c]).call is CreateTab && talk[c].answer is Tab
                && talk[moves.0].call->MovePane_tab == talk[c].answer->Tab_0@,
        creates_other_tabs(ctx.tab, talk) ==> talk[moves.0].call->MovePane_tab != ctx.tab,
        talk[moves.0].call->MovePane_target is None,
        talk[moves.0].answer is Done,
        talk[moves.1].call == (Call::MovePane {
            pane: talk[dock].call->OpenSidebarPane_anchor,
            tab: ctx.tab,
            dir: if position == SidebarPosition::Left {
                Dir::Right
            } else {
                Dir::Down
            },
            target: Some(talk[dock].answer->Text_0@),
            ratio: Some("0.5"@),
            focus: false,
        }),
        talk[moves.1].answer is Done,
        forall|i: int|
            0 <= i < talk.len() && #[trigger] moves_pane(
                talk[i],
                talk[dock].call->OpenSidebarPane_anchor,
            ) ==> i == moves.0 || i == moves.1,
{
    let ok = Ok::<(), Failure>(());
    let found = one_sidebar_is_opened(ctx, position, talk);
    assert(dock == found && dock == dock_at(talk)) by {
        lemma_opening_laid_out(ctx, position, talk, ok, dock_at(talk));
    }
    let turn = turn_at(talk);
    let anchor = plan_told(talk).anchor;
    assert(talk.len() == settled_at(position, talk) + 2) by {
        lemma_opening_laid_out(ctx, position, talk, ok, 1);
    }
    lemma_opening_laid_out(ctx, position, talk, ok, made_at(talk));
    lemma_opening_laid_out(ctx, position, talk, ok, turn);
    lemma_opening_laid_out(ctx, position, talk, ok, turn + 1);
    assert(talk[made_at(talk)].call is CreateTab);
    assert(spares_anchor(plan_told(talk)));
    assert forall|i: int| 0 <= i < talk.len() && #[trigger] moves_pane(talk[i], anchor) implies i
        == turn || i == turn + 1 by {
        if 0 < i < talk.len() - 1 {
            lemma_opening_laid_out(ctx, position, talk, ok, i);
            if 5 <= i < dock {
                lemma_leaving_spares(talk, i - 5);
            }
            if steps_at(position, talk) <= i < steps_end(position, talk) {
                let step = plan_told(talk).steps[i - steps_at(position, talk)];
                assert(step.pane != anchor);
            }
        }
    }
    (turn, turn + 1)
}

/// A sidebar on the right or at the bottom leaves the anchor where it is: no opening, whatever
/// comes of it, moves the anchor then.
///
/// This holds for a plan that leaves its own anchor alone.
pub proof fn anchor_stays(
    ctx: CtxView,
    position: SidebarPosition,
    talk: Seq<Entry>,
    outcome: Result<(), Failure>,
    i: int,
)
    requires
        opening::open_ran(ctx, position, talk, outcome),
        position == SidebarPosition::Right || position == SidebarPosition::Bottom,
        plans_spare_the_anchor(talk),
        0 <= i < talk.len(),
    ensures
        talk.len() > 2 && talk[2].answer is Plan ==> !moves_pane(
            talk[i],
            talk[2].answer->Plan_0@.anchor,
        ),
        !(talk.len() > 2 && talk[2].answer is Plan) ==> !(talk[i].call is MovePane),
{
    if 0 < i < talk.len() - 1 {
        lemma_opening_laid_out(ctx, position, talk, outcome, i);
        if i > 1 {
            lemma_opening_laid_out(ctx, position, talk, outcome, 1);
        }
        if i > 2 {
            lemma_opening_laid_out(ctx, position, talk, outcome, 2);
            assert(spares_anchor(plan_told(talk)));
            if 5 <= i < dock_at(talk) {
                lemma_leaving_spares(talk, i - 5);
            }
            if steps_at(position, talk) <= i < steps_end(position, talk) {
                let step = plan_told(talk).steps[i - steps_at(position, talk)];
                assert(step.pane != plan_told(talk).anchor);
            }
        }
    }
}

/// An opening looks at the layout of its own tab, and plans for exactly that layout, whatever comes
/// of it. It asks for at most one tab, in its own workspace, and for one only where the tab has
/// more than one pane or the sidebar belongs on the left or at the top.
pub proof fn layout_is_planned_for(
    ctx: CtxView,
    position: SidebarPosition,
    talk: Seq<Entry>,
    outcome: Result<(), Failure>,
    i: int,
)
    requires
        opening::open_ran(ctx, position, talk, outcome),
        0 <= i < talk.len(),
    ensures
        talk[1].call == (Call::PaneRects { tab: ctx.tab }),
        talk[i].call is PaneRects ==> i == 1,
        talk[i].call is PlanRebuild ==> {
            &&& i == 2
            &&& talk[1].answer is Rects
            &&& talk[2].call->PlanRebuild_rects == layout_told(talk)
        },
        talk[i].call is CreateTab ==> {
            &&& talk[i].call->CreateTab_workspace == ctx.workspace
            &&& layout_told(talk).len() > 1 || position == SidebarPosition::Left || position
                == SidebarPosition::Top
            &&& forall|j: int|
                0 <= j < talk.len() && (#[trigger] talk[j]).call is CreateTab ==> j == i
        },
        talk[i].call is HoldLock <==> i == 0,
        talk[i].call is ReleaseLock <==> i == talk.len() - 1,
        talk[0].answer is Lock,
        talk.last().call->ReleaseLock_taken == text::text_of(talk[0].answer->Lock_0.dir),
{
    let held = talk.subrange(1, talk.len() - 1);
    assert(held[0] == talk[1]);
    lemma_opening_laid_out(ctx, position, talk, outcome, 1);
    if 0 < i < talk.len() - 1 {
        lemma_opening_laid_out(ctx, position, talk, outcome, i);
        assert forall|j: int|
            0 <= j < talk.len() && (#[trigger] talk[j]).call is CreateTab implies j == made_at(
            talk,
        ) by {
            if 0 < j < talk.len() - 1 {
                lemma_opening_laid_out(ctx, position, talk, outcome, j);
            }
        }
    }
}

/// Before the sidebar of a tab with more than one pane is asked for, every pane of the layout but
/// the anchor is moved to the tab that herdr created, to wherever herdr puts it, and before the
/// first of them moves, a record is put down that names them all, the tab that they are parked on
/// and the plan that brings them back.
pub proof fn panes_are_parked_on_record(
    ctx: CtxView,
    position: SidebarPosition,
    talk: Seq<Entry>,
    pane: Seq<char>,
) -> (places: (int, int, int))
    requires
        opening::open_ran(ctx, position, talk, Ok::<(), Failure>(())),
        layout_told(talk).len() > 1,
        exists|k: int|
            0 <= k < layout_told(talk).len() && (#[trigger] layout_told(talk)[k]).pane_id == pane,
        pane != plan_told(talk).anchor,
    ensures
        0 < places.0 < places.1 < places.2 < talk.len(),
        talk[places.0].call is CreateTab,
        talk[places.0].answer is Tab,
        talk[places.1].call is SaveState,
        talk[places.1].answer is Done,
        ({
            let record = talk[places.1].call->SaveState_state;
            &&& record.phase == Phase::Evacuating
            &&& record.workspace == ctx.workspace
            &&& record.tab == ctx.tab
            &&& record.anchor == plan_told(talk).anchor
            &&& record.parking_tab == Some(talk[places.0].answer->Tab_0@)
            &&& record.parked.contains(pane)
            &&& record.plan_steps == plan_told(talk).steps
            &&& record.sidebar_pane is None
        }),
        forall|i: int| 0 <= i < places.1 ==> !((#[trigger] talk[i]).call is MovePane),
        talk[places.2] == (Entry {
            call: Call::MovePane {
                pane,
                tab: talk[places.0].answer->Tab_0@,
                dir: Dir::Right,
                target: None,
                ratio: None,
                focus: false,
            },
            answer: Answer::Done,
        }),
        forall|i: int|
            0 <= i < talk.len() && (#[trigger] talk[i]).call is OpenSidebarPane ==> places.2 < i,
{
    let ok = Ok::<(), Failure>(());
    let dock = one_sidebar_is_opened(ctx, position, talk);
    assert(dock == dock_at(talk)) by {
        lemma_opening_laid_out(ctx, position, talk, ok, dock_at(talk));
    }
    let ids = opening::pane_ids(layout_told(talk));
    let k = choose|k: int|
        0 <= k < layout_told(talk).len() && (#[trigger] layout_told(talk)[k]).pane_id == pane;
    assert(ids[k] == pane);
    text::lemma_without_contains(ids, plan_told(talk).anchor, pane);
    let m = choose|m: int| 0 <= m < leaving(talk).len() && leaving(talk)[m] == pane;
    lemma_opening_laid_out(ctx, position, talk, ok, 1);
    lemma_opening_laid_out(ctx, position, talk, ok, 2);
    lemma_opening_laid_out(ctx, position, talk, ok, 3);
    lemma_opening_laid_out(ctx, position, talk, ok, 4);
    lemma_opening_laid_out(ctx, position, talk, ok, m + 5);
    (3, 4, m + 5)
}

/// Once the sidebar stands, the steps of the plan are made one after the other, each as the plan
/// says and into the tab itself.
pub proof fn plan_is_carried_out(ctx: CtxView, position: SidebarPosition, talk: Seq<Entry>) -> (
    first: int)
    requires
        opening::open_ran(ctx, position, talk, Ok::<(), Failure>(())),
    ensures
        0 < first <= talk.len() - plan_told(talk).steps.len(),
        forall|k: int|
            0 <= k < plan_told(talk).steps.len() ==> #[trigger] talk[first + k] == (Entry {
                call: Call::MovePane {
                    pane: plan_told(talk).steps[k].pane,
                    tab: ctx.tab,
                    dir: plan_told(talk).steps[k].dir,
                    target: Some(plan_told(talk).steps[k].target),
                    ratio: Some(plan_told(talk).steps[k].ratio),
                    focus: false,
                },
                answer: Answer::Done,
            }),
        forall|i: int|
            0 <= i < talk.len() && (#[trigger] talk[i]).call is OpenSidebarPane ==> i < first,
        forall|i: int|
            first + plan_told(talk).steps.len() <= i < talk.len() ==> !((
            #[trigger] talk[i]).call is MovePane),
{
    let ok = Ok::<(), Failure>(());
    let dock = one_sidebar_is_opened(ctx, position, talk);
    assert(dock == dock_at(talk)) by {
        lemma_opening_laid_out(ctx, position, talk, ok, dock_at(talk));
    }
    let first = steps_at(position, talk);
    let plan = plan_told(talk);
    assert(talk.len() == settled_at(position, talk) + 2) by {
        lemma_opening_laid_out(ctx, position, talk, ok, 1);
    }
    assert forall|k: int| 0 <= k < plan.steps.len() implies #[trigger] talk[first + k] == (Entry {
        call: Call::MovePane {
            pane: plan.steps[k].pane,
            tab: ctx.tab,
            dir: plan.steps[k].dir,
            target: Some(plan.steps[k].target),
            ratio: Some(plan.steps[k].ratio),
            focus: false,
        },
        answer: Answer::Done,
    }) by {
        lemma_opening_laid_out(ctx, position, talk, ok, first + k);
    }
    assert forall|i: int| first + plan.steps.len() <= i < talk.len() implies !((
    #[trigger] talk[i]).call is MovePane) by {
        if i < talk.len() - 1 {
            lemma_opening_laid_out(ctx, position, talk, ok, i);
        }
    }
    first
}

/// Every move of an opening, whatever comes of it, takes a pane of the layout to the tab that herdr
/// created, or brings one into the tab itself. No move focuses a pane.
pub proof fn panes_go_nowhere_else(
    ctx: CtxView,
    position: SidebarPosition,
    talk: Seq<Entry>,
    outcome: Result<(), Failure>,
    i: int,
)
    requires
        opening::open_ran(ctx, position, talk, outcome),
        0 <= i < talk.len(),
        talk[i].call is MovePane,
    ensures
        !talk[i].call->MovePane_focus,
        talk[i].call->MovePane_target is Some <==> talk[i].call->MovePane_ratio is Some,
        talk[i].call->MovePane_target is Some ==> talk[i].call->MovePane_tab == ctx.tab,
        talk[i].call->MovePane_target is None ==> {
            &&& exists|c: int|
                0 <= c < i && (#[trigger] talk[c]).call is CreateTab && talk[c].answer is Tab
                    && talk[i].call->MovePane_tab == talk[c].answer->Tab_0@
            &&& talk[i].call->MovePane_pane == plan_told(talk).anchor || opening::pane_ids(
                layout_told(talk),
            ).contains(talk[i].call->MovePane_pane)
        },
{
    lemma_opening_laid_out(ctx, position, talk, outcome, i);
    lemma_opening_laid_out(ctx, position, talk, outcome, 1);
    if i > 2 {
        lemma_opening_laid_out(ctx, position, talk, outcome, 2);
        if talk[i].call->MovePane_target is None {
            assert(made_at(talk) < i);
            lemma_opening_laid_out(ctx, position, talk, outcome, made_at(talk));
            assert(talk[made_at(talk)].call is CreateTab);
            if 5 <= i < dock_at(talk) {
                lemma_leaving_spares(talk, i - 5);
            }
        }
    }
}

/// Every record that an opening puts down, whatever comes of it, is one of its own tab with its own
/// plan. One that says that panes are parked names the tab that herdr created and all panes of the
/// layout but the anchor, and no other, and one that says that the tab is settled names no parked
/// pane. From the sidebar on each names the sidebar that was opened, and before that none.
pub proof fn records_tell_the_truth(
    ctx: CtxView,
    position: SidebarPosition,
    talk: Seq<Entry>,
    outcome: Result<(), Failure>,
    i: int,
)
    requires
        opening::open_ran(ctx, position, talk, outcome),
        0 <= i < talk.len(),
        talk[i].call is SaveState,
    ensures
        ({
            let record = talk[i].call->SaveState_state;
            &&& record.workspace == ctx.workspace
            &&& record.tab == ctx.tab
            &&& record.anchor == plan_told(talk).anchor
            &&& record.plan_steps == plan_told(talk).steps
            &&& record.phase == Phase::Open ==> record.parked.len() == 0 && record.parking_tab
                is None
            &&& record.phase == Phase::Evacuating ==> {
                &&& forall|pane: Seq<char>| #[trigger]
                    record.parked.contains(pane) <==> {
                        &&& pane != plan_told(talk).anchor
                        &&& exists|k: int|
                            0 <= k < layout_told(talk).len() && (
                            #[trigger] layout_told(talk)[k]).pane_id == pane
                    }
                &&& exists|c: int|
                    0 <= c < i && (#[trigger] talk[c]).call is CreateTab && talk[c].answer is Tab
                        && record.parking_tab == Some(talk[c].answer->Tab_0@)
            }
            &&& match record.sidebar_pane {
                Some(sidebar) => exists|d: int|
                    0 <= d < i && (#[trigger] talk[d]).call is OpenSidebarPane && talk[d].answer
                        is Text && talk[d].answer->Text_0@ == sidebar,
                None => forall|d: int|
                    0 <= d < i ==> !((#[trigger] talk[d]).call is OpenSidebarPane),
            }
        }),
{
    lemma_opening_laid_out(ctx, position, talk, outcome, i);
    lemma_opening_laid_out(ctx, position, talk, outcome, 1);
    if i > 2 {
        lemma_opening_laid_out(ctx, position, talk, outcome, 2);
        let record = talk[i].call->SaveState_state;
        assert forall|pane: Seq<char>| #[trigger] leaving(talk).contains(pane) <==> {
            &&& pane != plan_told(talk).anchor
            &&& exists|k: int|
                0 <= k < layout_told(talk).len() && (#[trigger] layout_told(talk)[k]).pane_id
                    == pane
        } by {
            let ids = opening::pane_ids(layout_told(talk));
            text::lemma_without_contains(ids, plan_told(talk).anchor, pane);
            if ids.contains(pane) {
                let k = choose|k: int| 0 <= k < ids.len() && ids[k] == pane;
                assert(layout_told(talk)[k].pane_id == pane);
            }
            if exists|k: int|
                0 <= k < layout_told(talk).len() && (#[trigger] layout_told(talk)[k]).pane_id
                    == pane {
                let k = choose|k: int|
                    0 <= k < layout_told(talk).len() && (
                    #[trigger] layout_told(talk)[k]).pane_id == pane;
                assert(ids[k] == pane);
            }
        }
        if record.phase == Phase::Evacuating {
            lemma_opening_laid_out(ctx, position, talk, outcome, 3);
            assert(talk[3].call is CreateTab);
        }
        if dock_at(talk) < i {
            lemma_opening_laid_out(ctx, position, talk, outcome, dock_at(talk));
            assert(talk[dock_at(talk)].call is OpenSidebarPane);
        } else {
            assert forall|d: int| 0 <= d < i implies !((
            #[trigger] talk[d]).call is OpenSidebarPane) by {
                if d > 0 {
                    lemma_opening_laid_out(ctx, position, talk, outcome, d);
                }
            }
        }
    }
}

/// An opening closes nothing but the pane that came with the tab that herdr created, whatever comes
/// of it, and not before the last pane has left that tab. One that succeeds does close it, where
/// there is one.
pub proof fn only_the_placeholder_is_closed(
    ctx: CtxView,
    position: SidebarPosition,
    talk: Seq<Entry>,
    outcome: Result<(), Failure>,
    i: int,
)
    requires
        opening::open_ran(ctx, position, talk, outcome),
        0 <= i < talk.len(),
    ensures
        talk[i].call is ClosePane ==> {
            &&& exists|c: int|
                0 <= c < i && (#[trigger] talk[c]).call is CreateTab && talk[c].answer is Tab
                    && talk[i].call->ClosePane_pane == talk[c].answer->Tab_1@
            &&& forall|m: int| i <= m < talk.len() ==> !((#[trigger] talk[m]).call is MovePane)
        },
        outcome is Ok && talk[i].call is CreateTab ==> exists|m: int|
            i < m < talk.len() && #[trigger] talk[m] == (Entry {
                call: Call::ClosePane { pane: talk[i].answer->Tab_1@ },
                answer: Answer::Done,
            }),
{
    if 0 < i < talk.len() - 1 {
        lemma_opening_laid_out(ctx, position, talk, outcome, i);
        lemma_opening_laid_out(ctx, position, talk, outcome, 1);
        if talk[i].call is ClosePane {
            lemma_opening_laid_out(ctx, position, talk, outcome, 2);
            lemma_opening_laid_out(ctx, position, talk, outcome, made_at(talk));
            assert(talk[made_at(talk)].call is CreateTab);
            assert forall|m: int| i <= m < talk.len() implies !((
            #[trigger] talk[m]).call is MovePane) by {
                if m < talk.len() - 1 {
                    lemma_opening_laid_out(ctx, position, talk, outcome, m);
                }
            }
        }
        if outcome is Ok && talk[i].call is CreateTab {
            lemma_opening_laid_out(ctx, position, talk, outcome, steps_end(position, talk));
            assert(talk[steps_end(position, talk)].call is ClosePane);
        }
    }
}

/// Whether an opening in this place may ask for this.
pub open spec fn is_arrangement(ctx: CtxView, call: Call) -> bool {
    ||| call is HoldLock
    ||| call == (Call::PaneRects { tab: ctx.tab })
    ||| call is PlanRebuild
    ||| call == (Call::CreateTab { workspace: ctx.workspace })
    ||| call is SaveState && call->SaveState_state.tab == ctx.tab
        && call->SaveState_state.workspace == ctx.workspace
    ||| call is MovePane
    ||| call is OpenSidebarPane && call->OpenSidebarPane_cwd == ctx.cwd
    ||| call is ClosePane
    ||| call is ReleaseLock
}

/// An opening asks for nothing but what the arrangement of panes and its record need, and for that
/// only in the tab, the workspace and the directory that it is told.
pub proof fn opening_only_arranges(
    ctx: CtxView,
    position: SidebarPosition,
    talk: Seq<Entry>,
    outcome: Result<(), Failure>,
    i: int,
)
    requires
        opening::open_ran(ctx, position, talk, outcome),
        0 <= i < talk.len(),
    ensures
        is_arrangement(ctx, talk[i].call),
{
    if 0 < i < talk.len() - 1 {
        lemma_opening_laid_out(ctx, position, talk, outcome, i);
    }
}

/// The sidebar of every opening, whatever comes of it, is split off the anchor of the plan that was
/// answered, downwards for the top and the bottom and to the right for the left and the right,
/// where the editor is to work, and is focused.
pub proof fn position_tells_the_split(
    ctx: CtxView,
    position: SidebarPosition,
    talk: Seq<Entry>,
    outcome: Result<(), Failure>,
    dock: int,
)
    requires
        opening::open_ran(ctx, position, talk, outcome),
        0 <= dock < talk.len(),
        talk[dock].call is OpenSidebarPane,
    ensures
        talk[2].answer is Plan,
        talk[dock].call->OpenSidebarPane_anchor == talk[2].answer->Plan_0@.anchor,
        talk[dock].call->OpenSidebarPane_dir == Dir::Down <==> position == SidebarPosition::Top
            || position == SidebarPosition::Bottom,
        talk[dock].call->OpenSidebarPane_cwd == ctx.cwd,
        talk[dock].call->OpenSidebarPane_focus,
{
    lemma_opening_laid_out(ctx, position, talk, outcome, dock);
    lemma_opening_laid_out(ctx, position, talk, outcome, 1);
    lemma_opening_laid_out(ctx, position, talk, outcome, 2);
}

/// Whether an exchange moves one pane next to another.
pub open spec fn moves_next_to(entry: Entry, pane: Seq<char>, neighbour: Seq<char>) -> bool {
    &&& entry.call is MovePane
    &&& entry.call->MovePane_pane == pane
    &&& entry.call->MovePane_target == Some(neighbour)
}

/// Whether the anchor comes to stand behind its sidebar after it was opened: for the left and the
/// top it is moved next to the sidebar, to its right or below it, and for the right and the bottom
/// it is not moved at all.
pub open spec fn stands_on_its_side(
    home: Seq<char>,
    position: SidebarPosition,
    talk: Seq<Entry>,
    dock: int,
) -> bool {
    let behind = position == SidebarPosition::Left || position == SidebarPosition::Top;
    let anchor = talk[dock].call->OpenSidebarPane_anchor;
    let sidebar = talk[dock].answer->Text_0@;
    &&& talk[dock].answer is Text
    &&& behind <==> exists|k: int|
        dock < k < talk.len() && #[trigger] moves_next_to(talk[k], anchor, sidebar)
    &&& behind <==> exists|k: int| dock < k < talk.len() && #[trigger] moves_pane(talk[k], anchor)
    &&& forall|k: int|
        dock < k < talk.len() && #[trigger] moves_next_to(talk[k], anchor, sidebar) ==> {
            &&& talk[k].call->MovePane_tab == home
            &&& talk[k].call->MovePane_dir == if position == SidebarPosition::Top {
                Dir::Down
            } else {
                Dir::Right
            }
        }
}

/// An opening that succeeds puts the sidebar on the side that it was told to.
///
/// This holds for a plan that leaves its own anchor alone.
pub proof fn sidebar_stands_on_its_side(
    ctx: CtxView,
    position: SidebarPosition,
    talk: Seq<Entry>,
    dock: int,
)
    requires
        opening::open_ran(ctx, position, talk, Ok::<(), Failure>(())),
        plans_spare_the_anchor(talk),
        0 <= dock < talk.len(),
        talk[dock].call is OpenSidebarPane,
    ensures
        stands_on_its_side(ctx.tab, position, talk, dock),
{
    let ok = Ok::<(), Failure>(());
    let found = one_sidebar_is_opened(ctx, position, talk);
    assert(found == dock);
    let anchor = talk[dock].call->OpenSidebarPane_anchor;
    let sidebar = talk[dock].answer->Text_0@;
    if position == SidebarPosition::Left || position == SidebarPosition::Top {
        let moves = anchor_changes_sides(ctx, position, talk, dock);
        assert(moves_next_to(talk[moves.1], anchor, sidebar));
        assert(moves_pane(talk[moves.1], anchor));
        assert forall|k: int|
            dock < k < talk.len() && #[trigger] moves_next_to(talk[k], anchor, sidebar) implies k
            == moves.1 by {
            assert(moves_pane(talk[k], anchor));
        }
    } else {
        assert forall|k: int| dock < k < talk.len() implies !#[trigger] moves_pane(
            talk[k],
            anchor,
        ) by {
            anchor_stays(ctx, position, talk, ok, k);
        }
        assert forall|k: int| dock < k < talk.len() implies !#[trigger] moves_next_to(
            talk[k],
            anchor,
            sidebar,
        ) by {
            assert(!moves_pane(talk[k], anchor));
        }
    }
}

/// What was said of a sidebar at the end of a conversation can be said of it in the whole.
pub proof fn lemma_stands_later(
    home: Seq<char>,
    position: SidebarPosition,
    talk: Seq<Entry>,
    start: int,
    dock: int,
)
    requires
        0 <= start <= dock < talk.len(),
        stands_on_its_side(home, position, talk.skip(start), dock - start),
    ensures
        stands_on_its_side(home, position, talk, dock),
{
    let rest = talk.skip(start);
    let anchor = talk[dock].call->OpenSidebarPane_anchor;
    let sidebar = talk[dock].answer->Text_0@;
    assert(rest[dock - start] == talk[dock]);
    assert forall|k: int| dock < k < talk.len() implies #[trigger] talk[k] == rest[k - start] by {}
    assert forall|k: int|
        dock < k < talk.len() && #[trigger] moves_next_to(
            talk[k],
            anchor,
            sidebar,
        ) implies moves_next_to(rest[k - start], anchor, sidebar) by {}
    assert forall|k: int|
        dock < k < talk.len() && #[trigger] moves_pane(talk[k], anchor) implies moves_pane(
        rest[k - start],
        anchor,
    ) by {}
    if exists|k: int|
        dock - start < k < rest.len() && #[trigger] moves_next_to(rest[k], anchor, sidebar) {
        let k = choose|k: int|
            dock - start < k < rest.len() && #[trigger] moves_next_to(rest[k], anchor, sidebar);
        assert(moves_next_to(talk[k + start], anchor, sidebar));
        assert(moves_pane(talk[k + start], anchor));
    }
}

} // verus!
