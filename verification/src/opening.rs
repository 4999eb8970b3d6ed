//! Opening the sidebar of a tab.
//!
//! herdr cannot put a new pane beside a whole layout. So the panes of a tab are parked on another
//! tab, all but one, the sidebar is split off the one that stayed, and the parked panes are moved
//! back one by one. A record of the tab is kept while they are away, from which an opening that
//! was cut short is repaired.

use vstd::prelude::*;

use crate::action::{self, drop_action, perform, place_action, Action};
use crate::config::SidebarPosition;
use crate::context::{Ctx, CtxView};
use crate::failure::Failure;
use crate::herdr::{self, Dir, PaneRect, RectView};
use crate::host::Host;
use crate::log::{self, Answer, Call, Entry};
use crate::sidebar_lock::Guard;
use crate::state::{
    copied_steps, MoveStep, Phase, PlanView, RebuildPlan, StateFile, StateView, StepView,
};
use crate::text::{self, drop_item};

verus! {

/// Whether a sidebar on this side stands before the panes that herdr splits it from.
pub open spec fn is_inverse(position: SidebarPosition) -> bool {
    position == SidebarPosition::Left || position == SidebarPosition::Top
}

/// The split by which a sidebar comes to its side. herdr splits only to the right and down, so
/// for the left and the top this is the opposite side of the same axis.
pub open spec fn split_dir(position: SidebarPosition) -> Dir {
    match position {
        SidebarPosition::Left | SidebarPosition::Right => Dir::Right,
        SidebarPosition::Top | SidebarPosition::Bottom => Dir::Down,
    }
}

/// The pane ids of a list of rectangles.
pub open spec fn pane_ids(rects: Seq<RectView>) -> Seq<Seq<char>> {
    rects.map_values(|rect: RectView| rect.pane_id)
}

/// The record of a tab none of whose panes has to leave.
pub open spec fn plain_state(ctx: CtxView, plan: PlanView) -> StateView {
    StateView {
        phase: Phase::Open,
        workspace: ctx.workspace,
        tab: ctx.tab,
        anchor: plan.anchor,
        parking_tab: None,
        parked: Seq::empty(),
        plan_steps: plan.steps,
        sidebar_pane: None,
    }
}

/// The record of a tab whose panes are about to leave, all but the anchor.
pub open spec fn evacuated_state(
    ctx: CtxView,
    rects: Seq<RectView>,
    plan: PlanView,
    parking_tab: Seq<char>,
) -> StateView {
    StateView {
        phase: Phase::Evacuating,
        parking_tab: Some(parking_tab),
        parked: text::without(pane_ids(rects), plan.anchor),
        ..plain_state(ctx, plan)
    }
}

/// The record of a tab once its sidebar stands.
pub open spec fn docked_state(state: StateView, sidebar: Seq<char>) -> StateView {
    StateView { sidebar_pane: Some(sidebar), ..state }
}

/// The record of a tab once every pane is back.
pub open spec fn settled_state(state: StateView) -> StateView {
    StateView { phase: Phase::Open, parking_tab: None, parked: Seq::empty(), ..state }
}

/// Recording an evacuation, and then carrying it out.
pub open spec fn evacuation(state: StateView, parking_tab: Seq<char>) -> Seq<Call> {
    seq![Call::SaveState { state }] + state.parked.map_values(
        |pane: Seq<char>| action::drop_call(pane, parking_tab),
    )
}

/// Sending the anchor away and back to the other side of the sidebar, where the sidebar belongs
/// before it. Moving it directly would not reorder the two.
pub open spec fn reordering(
    ctx: CtxView,
    position: SidebarPosition,
    anchor: Seq<char>,
    parking_tab: Seq<char>,
    sidebar: Seq<char>,
) -> Seq<Call> {
    seq![
        action::drop_call(anchor, parking_tab),
        action::place_call(
            ctx.tab,
            StepView { pane: anchor, dir: split_dir(position), target: sidebar, ratio: "0.5"@ },
        ),
    ]
}

/// Everything that is left once the sidebar stands and is recorded: reorder it and the anchor
/// where needed, bring the panes back, close what holds the parking tab, and record the end.
pub open spec fn arrangement(
    ctx: CtxView,
    position: SidebarPosition,
    plan: PlanView,
    state: StateView,
    parking: Option<(Seq<char>, Seq<char>)>,
    sidebar: Seq<char>,
) -> Seq<Call> {
    let turned = match parking {
        Some((parking_tab, _)) => if is_inverse(position) {
            reordering(ctx, position, plan.anchor, parking_tab, sidebar)
        } else {
            Seq::empty()
        },
        None => Seq::empty(),
    };
    let returned = plan.steps.map_values(|step: StepView| action::place_call(ctx.tab, step));
    let closed = match parking {
        Some((_, placeholder)) => seq![Call::ClosePane { pane: placeholder }],
        None => Seq::empty(),
    };
    turned + returned + closed + seq![Call::SaveState { state: settled_state(state) }]
}

/// The conversation of an opening: the lock of the layout is held for the whole length of it, if it
/// can be had, and exactly what was taken is given back.
pub open spec fn open_ran(
    ctx: CtxView,
    position: SidebarPosition,
    talk: Seq<Entry>,
    outcome: Result<(), Failure>,
) -> bool {
    &&& talk.len() >= 2
    &&& talk[0].call == Call::HoldLock
    &&& talk[0].answer is Lock
    &&& held_ran(ctx, position, talk.subrange(1, talk.len() - 1), outcome)
    &&& talk.last() == (Entry {
        call: Call::ReleaseLock { taken: text::text_of(talk[0].answer->Lock_0.dir) },
        answer: Answer::Done,
    })
}

/// The conversation of an opening under the lock: first the layout is asked for.
pub open spec fn held_ran(
    ctx: CtxView,
    position: SidebarPosition,
    talk: Seq<Entry>,
    outcome: Result<(), Failure>,
) -> bool {
    log::asks(talk, Call::PaneRects { tab: ctx.tab }) && match talk[0].answer {
        Answer::Rects(rects) => plan_ran(
            ctx,
            position,
            herdr::rects_of(rects@),
            talk.skip(1),
            outcome,
        ),
        _ => log::stops(talk, outcome),
    }
}

/// The conversation of an opening from the plan on.
pub open spec fn plan_ran(
    ctx: CtxView,
    position: SidebarPosition,
    rects: Seq<RectView>,
    talk: Seq<Entry>,
    outcome: Result<(), Failure>,
) -> bool {
    log::asks(talk, Call::PlanRebuild { rects }) && match talk[0].answer {
        Answer::Plan(plan) => if rects.len() > 1 {
            evacuate_ran(ctx, position, rects, plan@, talk.skip(1), outcome)
        } else {
            dock_ran(ctx, position, plan@, plain_state(ctx, plan@), None, talk.skip(1), outcome)
        },
        _ => log::stops(talk, outcome),
    }
}

/// The conversation of an opening from the evacuation on.
pub open spec fn evacuate_ran(
    ctx: CtxView,
    position: SidebarPosition,
    rects: Seq<RectView>,
    plan: PlanView,
    talk: Seq<Entry>,
    outcome: Result<(), Failure>,
) -> bool {
    log::asks(talk, Call::CreateTab { workspace: ctx.workspace }) && match talk[0].answer {
        Answer::Tab(parking_tab, placeholder) => {
            let state = evacuated_state(ctx, rects, plan, parking_tab@);
            let calls = evacuation(state, parking_tab@);
            let rest = talk.skip(1);
            if outcome is Err && log::follows(rest, calls, outcome) {
                true
            } else {
                &&& calls.len() <= rest.len()
                &&& log::follows(rest.take(calls.len() as int), calls, Ok::<(), Failure>(()))
                &&& dock_ran(
                    ctx,
                    position,
                    plan,
                    state,
                    Some((parking_tab@, placeholder@)),
                    rest.skip(calls.len() as int),
                    outcome,
                )
            }
        },
        _ => log::stops(talk, outcome),
    }
}

/// The conversation of an opening from the sidebar on.
pub open spec fn dock_ran(
    ctx: CtxView,
    position: SidebarPosition,
    plan: PlanView,
    state: StateView,
    parking: Option<(Seq<char>, Seq<char>)>,
    talk: Seq<Entry>,
    outcome: Result<(), Failure>,
) -> bool {
    log::asks(
        talk,
        Call::OpenSidebarPane {
            anchor: plan.anchor,
            dir: split_dir(position),
            cwd: ctx.cwd,
            focus: true,
        },
    ) && match talk[0].answer {
        Answer::Text(sidebar) => checkpoint_ran(
            ctx,
            position,
            plan,
            docked_state(state, sidebar@),
            parking,
            sidebar@,
            talk.skip(1),
            outcome,
        ),
        _ => log::stops(talk, outcome),
    }
}

/// The conversation of an opening from the record of the sidebar on.
pub open spec fn checkpoint_ran(
    ctx: CtxView,
    position: SidebarPosition,
    plan: PlanView,
    state: StateView,
    parking: Option<(Seq<char>, Seq<char>)>,
    sidebar: Seq<char>,
    talk: Seq<Entry>,
    outcome: Result<(), Failure>,
) -> bool {
    log::asks(talk, Call::SaveState { state }) && match talk[0].answer {
        Answer::Done => if is_inverse(position) && parking is None {
            turn_ran(ctx, position, plan, state, sidebar, talk.skip(1), outcome)
        } else {
            log::follows(
                talk.skip(1),
                arrangement(ctx, position, plan, state, parking, sidebar),
                outcome,
            )
        },
        _ => log::stops(talk, outcome),
    }
}

/// The conversation of an opening from the tab that only the anchor passes through on.
pub open spec fn turn_ran(
    ctx: CtxView,
    position: SidebarPosition,
    plan: PlanView,
    state: StateView,
    sidebar: Seq<char>,
    talk: Seq<Entry>,
    outcome: Result<(), Failure>,
) -> bool {
    log::asks(talk, Call::CreateTab { workspace: ctx.workspace }) && match talk[0].answer {
        Answer::Tab(parking_tab, placeholder) => log::follows(
            talk.skip(1),
            arrangement(
                ctx,
                position,
                plan,
                state,
                Some((parking_tab@, placeholder@)),
                sidebar,
            ),
            outcome,
        ),
        _ => log::stops(talk, outcome),
    }
}

/// The pane ids of a list of rectangles, without that of the anchor.
fn other_panes(rects: &Vec<PaneRect>, anchor: &str) -> (panes: Vec<String>)
    ensures
        text::texts(panes@) == text::without(pane_ids(herdr::rects_of(rects@)), anchor@),
{
    let mut ids: Vec<String> = Vec::new();
    for i in 0..rects.len()
        invariant
            ids@.len() == i,
            forall|j: int| 0 <= j < i ==> #[trigger] ids@[j] == rects@[j].pane_id,
    {
        ids.push(rects[i].pane_id.clone());
    }
    assert(text::texts(ids@) =~= pane_ids(herdr::rects_of(rects@)));
    drop_item(&ids, anchor)
}

fn evacuation_actions(state: &StateFile, parking_tab: &str) -> (actions: Vec<Action>)
    ensures
        action::calls_of(actions@) == evacuation(state@, parking_tab@),
{
    let mut actions: Vec<Action> = Vec::new();
    actions.push(Action::Save { state: state.copy() });
    for i in 0..state.parked.len()
        invariant
            actions@.len() == i + 1,
            action::call_of(actions@[0]) == (Call::SaveState { state: state@ }),
            forall|j: int|
                0 <= j < i ==> action::call_of(#[trigger] actions@[j + 1]) == action::drop_call(
                    state.parked@[j]@,
                    parking_tab@,
                ),
    {
        actions.push(drop_action(state.parked[i].as_str(), parking_tab));
    }
    assert(action::calls_of(actions@) =~= evacuation(state@, parking_tab@)) by {
        let calls = action::calls_of(actions@);
        assert forall|k: int| 0 <= k < actions@.len() implies #[trigger] calls[k] == evacuation(
            state@,
            parking_tab@,
        )[k] by {
            if k > 0 {
                assert(actions@[(k - 1) + 1] == actions@[k]);
            }
        }
    }
    actions
}

fn inverse(position: SidebarPosition) -> (answer: bool)
    ensures
        answer == is_inverse(position),
{
    match position {
        SidebarPosition::Left | SidebarPosition::Top => true,
        SidebarPosition::Right | SidebarPosition::Bottom => false,
    }
}

fn direction(position: SidebarPosition) -> (dir: Dir)
    ensures
        dir == split_dir(position),
{
    match position {
        SidebarPosition::Left | SidebarPosition::Right => Dir::Right,
        SidebarPosition::Top | SidebarPosition::Bottom => Dir::Down,
    }
}

/// An optional pair of texts, as characters.
pub open spec fn pair_of(pair: Option<(String, String)>) -> Option<(Seq<char>, Seq<char>)> {
    match pair {
        Some((first, second)) => Some((first@, second@)),
        None => None,
    }
}

fn settled(state: &StateFile) -> (settled: StateFile)
    ensures
        settled@ == settled_state(state@),
{
    let mut settled: StateFile = state.copy();
    settled.phase = Phase::Open;
    settled.parking_tab = None;
    settled.parked = Vec::new();
    assert(text::texts(settled.parked@) =~= Seq::<Seq<char>>::empty());
    settled
}

fn arrangement_actions(
    ctx: &Ctx,
    position: SidebarPosition,
    plan: &RebuildPlan,
    state: &StateFile,
    parking: &Option<(String, String)>,
    sidebar: &str,
) -> (actions: Vec<Action>)
    ensures
        action::calls_of(actions@) == arrangement(
            ctx@,
            position,
            plan@,
            state@,
            pair_of(*parking),
            sidebar@,
        ),
{
    let mut actions: Vec<Action> = Vec::new();
    let ghost turned = match pair_of(*parking) {
        Some((parking_tab, _)) => if is_inverse(position) {
            reordering(ctx@, position, plan@.anchor, parking_tab, sidebar@)
        } else {
            Seq::empty()
        },
        None => Seq::empty(),
    };
    if let Some((parking_tab, _)) = parking {
        if inverse(position) {
            actions.push(drop_action(plan.anchor.as_str(), parking_tab.as_str()));
            actions.push(
                place_action(
                    ctx.tab.as_str(),
                    &MoveStep {
                        pane: plan.anchor.clone(),
                        dir: direction(position),
                        target: sidebar.to_owned(),
                        ratio: "0.5".to_owned(),
                    },
                ),
            );
        }
    }
    assert(action::calls_of(actions@) =~= turned);
    let ghost returned = plan@.steps.map_values(
        |step: StepView| action::place_call(ctx@.tab, step),
    );
    for i in 0..plan.steps.len()
        invariant
            returned == plan@.steps.map_values(|step: StepView| action::place_call(ctx@.tab, step)),
            action::calls_of(actions@) == turned + returned.take(i as int),
    {
        let ghost before = actions@;
        actions.push(place_action(ctx.tab.as_str(), &plan.steps[i]));
        assert(action::calls_of(actions@) =~= action::calls_of(before).push(returned[i as int]));
        assert(returned.take(i + 1) =~= returned.take(i as int).push(returned[i as int]));
        assert(action::calls_of(actions@) =~= turned + returned.take(i + 1));
    }
    assert(returned.take(plan.steps@.len() as int) =~= returned);
    let ghost before = actions@;
    if let Some((_, placeholder)) = parking {
        actions.push(Action::Close { pane: placeholder.clone() });
    }
    actions.push(Action::Save { state: settled(state) });
    assert(action::calls_of(actions@) =~= arrangement(
        ctx@,
        position,
        plan@,
        state@,
        pair_of(*parking),
        sidebar@,
    ));
    actions
}

/// Open a sidebar in the tab of `ctx`.
pub fn open<H: Host>(
    h: &mut H,
    ctx: &Ctx,
    position: SidebarPosition,
) -> (outcome: Result<(), Failure>)
    ensures
        log::extends(old(h).log(), final(h).log()),
        open_ran(ctx@, position, log::since(old(h).log(), final(h).log()), outcome),
{
    let ghost before = h.log();
    let guard: Guard = h.hold_lock();
    let ghost locked = h.log();
    let outcome: Result<(), Failure> = open_held(h, ctx, position);
    let ghost done = h.log();
    h.release_lock(&guard);
    proof {
        log::lemma_first(before, locked.last(), done);
        log::lemma_since_push(before, done, h.log().last());
        let talk = log::since(before, h.log());
        assert(talk.subrange(1, talk.len() - 1) =~= log::since(before, done).skip(1));
    }
    outcome
}

fn open_held<H: Host>(
    h: &mut H,
    ctx: &Ctx,
    position: SidebarPosition,
) -> (outcome: Result<(), Failure>)
    ensures
        log::extends(old(h).log(), final(h).log()),
        held_ran(ctx@, position, log::since(old(h).log(), final(h).log()), outcome),
{
    let ghost before = h.log();
    match h.pane_rects(ctx.tab.as_str()) {
        Ok(rects) => {
            let ghost entry = h.log().last();
            let outcome: Result<(), Failure> = open_planned(h, ctx, position, &rects);
            proof {
                log::lemma_first(before, entry, h.log());
            }
            outcome
        },
        Err(failure) => {
            proof {
                log::lemma_one(before, h.log().last());
            }
            Err(failure)
        },
    }
}

fn open_planned<H: Host>(
    h: &mut H,
    ctx: &Ctx,
    position: SidebarPosition,
    rects: &Vec<PaneRect>,
) -> (outcome: Result<(), Failure>)
    ensures
        log::extends(old(h).log(), final(h).log()),
        plan_ran(
            ctx@,
            position,
            herdr::rects_of(rects@),
            log::since(old(h).log(), final(h).log()),
            outcome,
        ),
{
    let ghost before = h.log();
    match h.plan_rebuild(rects) {
        Ok(plan) => {
            let ghost entry = h.log().last();
            let state: StateFile = StateFile {
                phase: Phase::Open,
                workspace: ctx.workspace.clone(),
                tab: ctx.tab.clone(),
                anchor: plan.anchor.clone(),
                parking_tab: None,
                parked: Vec::new(),
                plan_steps: copied_steps(&plan.steps),
                sidebar_pane: None,
            };
            assert(text::texts(state.parked@) =~= Seq::<Seq<char>>::empty());
            let outcome: Result<(), Failure> = if rects.len() > 1 {
                open_evacuated(h, ctx, position, rects, &plan, state)
            } else {
                open_docked(h, ctx, position, &plan, state, None)
            };
            proof {
                log::lemma_first(before, entry, h.log());
            }
            outcome
        },
        Err(failure) => {
            proof {
                log::lemma_one(before, h.log().last());
            }
            Err(failure)
        },
    }
}

fn open_evacuated<H: Host>(
    h: &mut H,
    ctx: &Ctx,
    position: SidebarPosition,
    rects: &Vec<PaneRect>,
    plan: &RebuildPlan,
    state: StateFile,
) -> (outcome: Result<(), Failure>)
    requires
        state@ == plain_state(ctx@, plan@),
    ensures
        log::extends(old(h).log(), final(h).log()),
        evacuate_ran(
            ctx@,
            position,
            herdr::rects_of(rects@),
            plan@,
            log::since(old(h).log(), final(h).log()),
            outcome,
        ),
{
    let ghost before = h.log();
    match h.create_tab(ctx.workspace.as_str()) {
        Ok((parking_tab, placeholder)) => {
            let ghost entry = h.log().last();
            let ghost created = h.log();
            let mut state: StateFile = state;
            state.phase = Phase::Evacuating;
            state.parking_tab = Some(parking_tab.clone());
            state.parked = other_panes(rects, plan.anchor.as_str());
            assert(state@ == evacuated_state(ctx@, herdr::rects_of(rects@), plan@, parking_tab@));
            let actions: Vec<Action> = evacuation_actions(&state, parking_tab.as_str());
            let outcome: Result<(), Failure> = match perform(h, &actions) {
                Ok(_) => {
                    let ghost parked = h.log();
                    let outcome: Result<(), Failure> = open_docked(
                        h,
                        ctx,
                        position,
                        plan,
                        state,
                        Some((parking_tab, placeholder)),
                    );
                    proof {
                        let calls = action::calls_of(actions@);
                        log::lemma_since_join(created, parked, h.log());
                        let talk = log::since(created, h.log());
                        assert(talk.take(calls.len() as int) =~= log::since(created, parked));
                        assert(talk.skip(calls.len() as int) =~= log::since(parked, h.log()));
                    }
                    outcome
                },
                Err(failure) => Err(failure),
            };
            proof {
                log::lemma_first(before, entry, h.log());
            }
            outcome
        },
        Err(failure) => {
            proof {
                log::lemma_one(before, h.log().last());
            }
            Err(failure)
        },
    }
}

fn open_docked<H: Host>(
    h: &mut H,
    ctx: &Ctx,
    position: SidebarPosition,
    plan: &RebuildPlan,
    state: StateFile,
    parking: Option<(String, String)>,
) -> (outcome: Result<(), Failure>)
    ensures
        log::extends(old(h).log(), final(h).log()),
        dock_ran(
            ctx@,
            position,
            plan@,
            state@,
            pair_of(parking),
            log::since(old(h).log(), final(h).log()),
            outcome,
        ),
{
    let ghost before = h.log();
    let ghost bare = state@;
    match h.open_sidebar_pane(plan.anchor.as_str(), direction(position), ctx.cwd.as_str(), true) {
        Ok(sidebar) => {
            let ghost entry = h.log().last();
            let mut state: StateFile = state;
            state.sidebar_pane = Some(sidebar.clone());
            assert(state@ == docked_state(bare, sidebar@));
            let outcome: Result<(), Failure> = open_recorded(
                h,
                ctx,
                position,
                plan,
                &state,
                parking,
                sidebar.as_str(),
            );
            proof {
                log::lemma_first(before, entry, h.log());
            }
            outcome
        },
        Err(failure) => {
            proof {
                log::lemma_one(before, h.log().last());
            }
            Err(failure)
        },
    }
}

fn open_recorded<H: Host>(
    h: &mut H,
    ctx: &Ctx,
    position: SidebarPosition,
    plan: &RebuildPlan,
    state: &StateFile,
    parking: Option<(String, String)>,
    sidebar: &str,
) -> (outcome: Result<(), Failure>)
    ensures
        log::extends(old(h).log(), final(h).log()),
        checkpoint_ran(
            ctx@,
            position,
            plan@,
            state@,
            pair_of(parking),
            sidebar@,
            log::since(old(h).log(), final(h).log()),
            outcome,
        ),
{
    let ghost before = h.log();
    match h.save_state(state) {
        Ok(_) => {
            let ghost entry = h.log().last();
            let outcome: Result<(), Failure> = if inverse(position) && parking.is_none() {
                open_turned(h, ctx, position, plan, state, sidebar)
            } else {
                perform(h, &arrangement_actions(ctx, position, plan, state, &parking, sidebar))
            };
            proof {
                log::lemma_first(before, entry, h.log());
            }
            outcome
        },
        Err(failure) => {
            proof {
                log::lemma_one(before, h.log().last());
            }
            Err(failure)
        },
    }
}

fn open_turned<H: Host>(
    h: &mut H,
    ctx: &Ctx,
    position: SidebarPosition,
    plan: &RebuildPlan,
    state: &StateFile,
    sidebar: &str,
) -> (outcome: Result<(), Failure>)
    ensures
        log::extends(old(h).log(), final(h).log()),
        turn_ran(
            ctx@,
            position,
            plan@,
            state@,
            sidebar@,
            log::since(old(h).log(), final(h).log()),
            outcome,
        ),
{
    let ghost before = h.log();
    match h.create_tab(ctx.workspace.as_str()) {
        Ok(parking) => {
            let ghost entry = h.log().last();
            let parking: Option<(String, String)> = Some(parking);
            let outcome: Result<(), Failure> = perform(
                h,
                &arrangement_actions(ctx, position, plan, state, &parking, sidebar),
            );
            proof {
                log::lemma_first(before, entry, h.log());
            }
            outcome
        },
        Err(failure) => {
            proof {
                log::lemma_one(before, h.log().last());
            }
            Err(failure)
        },
    }
}

} // verus!
