//! What a toggle does to a tab as a whole, from the settings to the last exchange.

use vstd::prelude::*;

use crate::config::SidebarPosition;
use crate::context::{self, Ctx, CtxView, Environment};
use crate::failure::Failure;
use crate::herdr::Dir;
use crate::json;
use crate::log::{self, Answer, Call, Entry};
use crate::maneuver;
use crate::opening;
use crate::pick_laws;
use crate::placement_laws;
use crate::recovery;
use crate::recovery_laws;
use crate::restoring_laws;
use crate::state::{self, Phase, StateView, StepView};
use crate::text;

verus! {

/// Whether nothing is asked for but what the repair of a tab needs.
pub open spec fn repairs_only(tab: Seq<char>, talk: Seq<Entry>) -> bool {
    forall|i: int| 0 <= i < talk.len() ==> is_repair(tab, (#[trigger] talk[i]).call)
}

/// Whether the repair of a tab may ask for this. No record is read or dropped but that of the tab.
pub open spec fn is_repair(tab: Seq<char>, call: Call) -> bool {
    ||| call == (Call::LoadState { tab })
    ||| call is PaneAlive
    ||| call is ClosePane
    ||| call is MovePane
    ||| call is SaveState
    ||| call == (Call::RemoveState { tab })
}

proof fn lemma_repairs_joined(home: Seq<char>, talk: Seq<Entry>, length: int)
    requires
        0 <= length <= talk.len(),
        repairs_only(home, talk.take(length)),
        repairs_only(home, talk.skip(length)),
    ensures
        repairs_only(home, talk),
{
    assert forall|i: int| 0 <= i < talk.len() implies is_repair(
        home,
        (#[trigger] talk[i]).call,
    ) by {
        if i < length {
            assert(talk.take(length)[i] == talk[i]);
        } else {
            assert(talk.skip(length)[i - length] == talk[i]);
        }
    }
}

proof fn lemma_restore_repairs(
    home: Seq<char>,
    tab: Seq<char>,
    pane: Seq<char>,
    placement: Option<StepView>,
    talk: Seq<Entry>,
    outcome: Result<bool, Failure>,
)
    requires
        recovery::restore_ran(tab, pane, placement, talk, outcome),
    ensures
        repairs_only(home, talk),
{
    if talk[0].answer == Answer::Flag(true) {
        let rest = talk.skip(1);
        assert(rest[0] == talk[1]);
        if placement is Some && rest[0].answer is Flag {
            assert(rest.skip(1)[0] == talk[2]);
        }
    }
}

proof fn lemma_relieve_repairs(
    home: Seq<char>,
    state: StateView,
    pane: Seq<char>,
    placement: Option<StepView>,
    talk: Seq<Entry>,
    outcome: Result<(), Failure>,
)
    requires
        recovery::relieve_ran(state, pane, placement, talk, outcome),
    ensures
        repairs_only(home, talk),
{
    if outcome is Err && recovery::restore_ran(
        state.tab,
        pane,
        placement,
        talk,
        Err::<bool, Failure>(outcome->Err_0),
    ) {
        lemma_restore_repairs(
            home,
            state.tab,
            pane,
            placement,
            talk,
            Err::<bool, Failure>(outcome->Err_0),
        );
    } else {
        let calls = seq![Call::SaveState { state: recovery::relieved_state(state, pane) }];
        let (length, moved) = choose|length: int, moved: bool|
            {
                &&& #[trigger] recovery::restored_in(
                    state.tab,
                    pane,
                    placement,
                    talk,
                    length,
                    moved,
                )
                &&& log::follows(
                    talk.skip(length),
                    seq![Call::SaveState { state: recovery::relieved_state(state, pane) }],
                    outcome,
                )
            };
        lemma_restore_repairs(
            home,
            state.tab,
            pane,
            placement,
            talk.take(length),
            Ok::<bool, Failure>(moved),
        );
        let rest = talk.skip(length);
        assert forall|i: int| 0 <= i < rest.len() implies is_repair(
            home,
            (#[trigger] rest[i]).call,
        ) by {
            assert(rest[i].call == calls[i]);
        }
        lemma_repairs_joined(home, talk, length);
    }
}

proof fn lemma_gather_repairs(
    tab: Seq<char>,
    state: StateView,
    panes: Seq<Seq<char>>,
    talk: Seq<Entry>,
    outcome: Result<(), Failure>,
)
    requires
        recovery::gather_ran(tab, state, panes, talk, outcome),
    ensures
        repairs_only(tab, talk),
    decreases panes.len(),
{
    if panes.len() > 0 {
        if outcome is Err && recovery::relieve_ran(state, panes[0], None, talk, outcome) {
            lemma_relieve_repairs(tab, state, panes[0], None, talk, outcome);
        } else {
            let left = recovery::relieved_state(state, panes[0]);
            let length = choose|length: int|
                {
                    &&& #[trigger] recovery::relieved_in(state, panes[0], None, talk, length)
                    &&& recovery::gather_ran(
                        tab,
                        left,
                        panes.drop_first(),
                        talk.skip(length),
                        outcome,
                    )
                };
            lemma_relieve_repairs(
                tab,
                state,
                panes[0],
                None,
                talk.take(length),
                Ok::<(), Failure>(()),
            );
            lemma_gather_repairs(tab, left, panes.drop_first(), talk.skip(length), outcome);
            lemma_repairs_joined(tab, talk, length);
        }
    } else {
        let calls = seq![Call::RemoveState { tab }];
        assert forall|i: int| 0 <= i < talk.len() implies is_repair(
            tab,
            (#[trigger] talk[i]).call,
        ) by {
            assert(talk[i].call == calls[i]);
        }
    }
}

proof fn lemma_replay_repairs(
    tab: Seq<char>,
    state: StateView,
    steps: Seq<StepView>,
    talk: Seq<Entry>,
    outcome: Result<(), Failure>,
)
    requires
        recovery::replay_ran(tab, state, steps, talk, outcome),
    ensures
        repairs_only(tab, talk),
    decreases steps.len(),
{
    if steps.len() == 0 {
        lemma_gather_repairs(tab, state, state.parked, talk, outcome);
    } else if !state.parked.contains(steps[0].pane) {
        lemma_replay_repairs(tab, state, steps.drop_first(), talk, outcome);
    } else {
        let pane = steps[0].pane;
        if outcome is Err && recovery::relieve_ran(state, pane, Some(steps[0]), talk, outcome) {
            lemma_relieve_repairs(tab, state, pane, Some(steps[0]), talk, outcome);
        } else {
            let left = recovery::relieved_state(state, pane);
            let length = choose|length: int|
                {
                    &&& #[trigger] recovery::relieved_in(state, pane, Some(steps[0]), talk, length)
                    &&& recovery::replay_ran(
                        tab,
                        left,
                        steps.drop_first(),
                        talk.skip(length),
                        outcome,
                    )
                };
            lemma_relieve_repairs(
                tab,
                state,
                pane,
                Some(steps[0]),
                talk.take(length),
                Ok::<(), Failure>(()),
            );
            lemma_replay_repairs(tab, left, steps.drop_first(), talk.skip(length), outcome);
            lemma_repairs_joined(tab, talk, length);
        }
    }
}

/// A recovery looks at panes and records, moves and closes panes, and writes and drops records. It
/// opens nothing and starts nothing.
pub proof fn recovery_only_repairs(tab: Seq<char>, talk: Seq<Entry>, outcome: Result<(), Failure>)
    requires
        recovery::recover_ran(tab, talk, outcome),
    ensures
        repairs_only(tab, talk),
{
    if let Answer::State(found) = talk[0].answer {
        if let Some(record) = state::state_of(found) {
            if record.phase == Phase::Evacuating {
                let rest = talk.skip(1);
                if let Some(sidebar) = record.sidebar_pane {
                    assert(rest[0] == talk[1]);
                    if rest[0].answer == Answer::Flag(true) {
                        let last = rest.skip(1);
                        assert(last[0] == talk[2]);
                        if last[0].answer is Done {
                            lemma_replay_repairs(
                                tab,
                                record,
                                record.plan_steps,
                                last.skip(1),
                                outcome,
                            );
                            lemma_repairs_joined(tab, last, 1);
                        }
                        lemma_repairs_joined(tab, rest, 1);
                    } else if rest[0].answer == Answer::Flag(false) {
                        lemma_replay_repairs(
                            tab,
                            record,
                            record.plan_steps,
                            rest.skip(1),
                            outcome,
                        );
                        lemma_repairs_joined(tab, rest, 1);
                    }
                } else {
                    lemma_replay_repairs(tab, record, record.plan_steps, rest, outcome);
                }
                lemma_repairs_joined(tab, talk, 1);
            }
        }
    }
}

/// Whether a toggle may ask for this before it opens a sidebar, and where it opens none.
spec fn is_quiet(tab: Seq<char>, call: Call) -> bool {
    ||| is_repair(tab, call)
    ||| call is HasDaemons
    ||| call is ListTabs
    ||| call is CollectDaemons
}

/// Where the opening of a sidebar starts in a toggle, and that nothing is opened before. Where none
/// is opened this is the end.
proof fn lemma_toggle_parts(ctx: CtxView, talk: Seq<Entry>, outcome: Result<(), Failure>) -> (
    start: int)
    requires
        maneuver::toggle_ran(ctx, talk, outcome),
    ensures
        0 < start <= talk.len(),
        talk[0].call == Call::LoadConfig,
        talk[0].answer is Settings,
        forall|i: int| 0 < i < start ==> is_quiet(ctx.tab, (#[trigger] talk[i]).call),
        start < talk.len() ==> opening::open_ran(
            ctx,
            talk[0].answer->Settings_0.sidebar.position,
            talk.skip(start),
            outcome,
        ),
{
    let sidebar = talk[0].answer->Settings_0.sidebar@;
    let tail = talk.skip(1);
    let collected = choose|length: int|
        {
            &&& #[trigger] maneuver::collected_in(sidebar, tail, length)
            &&& maneuver::switch_ran(ctx, sidebar.position, tail.skip(length), outcome)
        };
    assert forall|i: int| 0 < i < collected + 1 implies is_quiet(
        ctx.tab,
        (#[trigger] talk[i]).call,
    ) by {
        assert(tail.take(collected)[i - 1] == talk[i]);
    }
    let rest = tail.skip(collected);
    let found = lemma_switch_parts(ctx, sidebar.position, rest, outcome);
    let start = collected + 1 + found;
    assert forall|i: int| 0 < i < start implies is_quiet(ctx.tab, (#[trigger] talk[i]).call) by {
        if i > collected {
            assert(rest[i - collected - 1] == talk[i]);
        }
    }
    assert(rest.skip(found) =~= talk.skip(start));
    start
}

proof fn lemma_live_repairs(
    tab: Seq<char>,
    talk: Seq<Entry>,
    outcome: Result<Option<String>, Failure>,
)
    requires
        maneuver::live_ran(tab, talk, outcome),
    ensures
        repairs_only(tab, talk),
        talk.len() > 0,
{
    if talk.len() > 1 {
        assert(talk.skip(1)[0] == talk[1]);
    }
}

/// The same from the repair of the tab on.
proof fn lemma_reopen_parts(
    ctx: CtxView,
    position: SidebarPosition,
    talk: Seq<Entry>,
    outcome: Result<(), Failure>,
) -> (start: int)
    requires
        maneuver::reopen_ran(ctx, position, talk, outcome),
    ensures
        0 <= start <= talk.len(),
        repairs_only(ctx.tab, talk.take(start)),
        start < talk.len() ==> opening::open_ran(ctx, position, talk.skip(start), outcome),
{
    if outcome is Err && recovery::recover_ran(ctx.tab, talk, outcome) {
        recovery_only_repairs(ctx.tab, talk, outcome);
        assert(talk.take(talk.len() as int) =~= talk);
        talk.len() as int
    } else {
        let length = choose|length: int|
            {
                &&& #[trigger] maneuver::recovered_in(ctx.tab, talk, length)
                &&& opening::open_ran(ctx, position, talk.skip(length), outcome)
            };
        recovery_only_repairs(ctx.tab, talk.take(length), Ok::<(), Failure>(()));
        length
    }
}

/// The same from the search for a sidebar on.
#[verifier::spinoff_prover]
#[verifier::rlimit(40)]
proof fn lemma_switch_parts(
    ctx: CtxView,
    position: SidebarPosition,
    talk: Seq<Entry>,
    outcome: Result<(), Failure>,
) -> (start: int)
    requires
        maneuver::switch_ran(ctx, position, talk, outcome),
    ensures
        0 < start <= talk.len(),
        forall|i: int| 0 <= i < start ==> is_repair(ctx.tab, (#[trigger] talk[i]).call),
        start < talk.len() ==> opening::open_ran(ctx, position, talk.skip(start), outcome),
{
    if outcome is Err && maneuver::live_ran(
        ctx.tab,
        talk,
        Err::<Option<String>, Failure>(outcome->Err_0),
    ) {
        lemma_live_repairs(ctx.tab, talk, Err::<Option<String>, Failure>(outcome->Err_0));
        talk.len() as int
    } else {
        let (length, found) = choose|length: int, found: Option<String>|
            {
                &&& #[trigger] maneuver::sought_in(ctx.tab, talk, length, found)
                &&& match found {
                    Some(sidebar) => log::follows(
                        talk.skip(length),
                        maneuver::closing(sidebar@, ctx.tab),
                        outcome,
                    ),
                    None => maneuver::reopen_ran(ctx, position, talk.skip(length), outcome),
                }
            };
        let head = talk.take(length);
        let rest = talk.skip(length);
        lemma_live_repairs(ctx.tab, head, Ok::<Option<String>, Failure>(found));
        let more = if let Some(sidebar) = found {
            lemma_closing_repairs(sidebar@, ctx.tab, rest, outcome);
            assert(rest.take(rest.len() as int) =~= rest);
            rest.len() as int
        } else {
            lemma_reopen_parts(ctx, position, rest, outcome)
        };
        lemma_parts_joined(ctx.tab, talk, length, more);
        length + more
    }
}

proof fn lemma_parts_joined(tab: Seq<char>, talk: Seq<Entry>, length: int, more: int)
    requires
        0 <= length <= talk.len(),
        0 <= more <= talk.skip(length).len(),
        repairs_only(tab, talk.take(length)),
        repairs_only(tab, talk.skip(length).take(more)),
    ensures
        forall|i: int| 0 <= i < length + more ==> is_repair(tab, (#[trigger] talk[i]).call),
        talk.skip(length).skip(more) == talk.skip(length + more),
{
    assert forall|i: int| 0 <= i < length + more implies is_repair(
        tab,
        (#[trigger] talk[i]).call,
    ) by {
        if i < length {
            assert(talk.take(length)[i] == talk[i]);
        } else {
            assert(talk.skip(length).take(more)[i - length] == talk[i]);
        }
    }
    assert(talk.skip(length).skip(more) =~= talk.skip(length + more));
}

proof fn lemma_closing_repairs(
    sidebar: Seq<char>,
    tab: Seq<char>,
    talk: Seq<Entry>,
    outcome: Result<(), Failure>,
)
    requires
        log::follows(talk, maneuver::closing(sidebar, tab), outcome),
    ensures
        repairs_only(tab, talk),
{
    let calls = maneuver::closing(sidebar, tab);
    assert forall|i: int| 0 <= i < talk.len() implies is_repair(tab, (#[trigger] talk[i]).call) by {
        assert(talk[i].call == calls[i]);
    }
}

/// Where a toggle opens a sidebar, the settings that it read decide how the sidebar is split off,
/// whatever comes of the toggle: downwards exactly for the top and the bottom.
pub proof fn settings_tell_the_split(
    ctx: CtxView,
    talk: Seq<Entry>,
    outcome: Result<(), Failure>,
    loaded: int,
    dock: int,
)
    requires
        maneuver::toggle_ran(ctx, talk, outcome),
        0 <= loaded < talk.len(),
        talk[loaded].call is LoadConfig,
        0 <= dock < talk.len(),
        talk[dock].call is OpenSidebarPane,
    ensures
        talk[loaded].answer is Settings,
        talk[dock].call->OpenSidebarPane_dir == Dir::Down <==> {
            ||| talk[loaded].answer->Settings_0.sidebar.position == SidebarPosition::Top
            ||| talk[loaded].answer->Settings_0.sidebar.position == SidebarPosition::Bottom
        },
        talk[dock].call->OpenSidebarPane_cwd == ctx.cwd,
        talk[dock].call->OpenSidebarPane_focus,
{
    let start = lemma_toggle_parts(ctx, talk, outcome);
    let position = talk[0].answer->Settings_0.sidebar.position;
    assert(start <= dock);
    lemma_opened_by_split(ctx, position, talk, outcome, start, dock);
}

proof fn lemma_opened_by_split(
    ctx: CtxView,
    position: SidebarPosition,
    talk: Seq<Entry>,
    outcome: Result<(), Failure>,
    start: int,
    dock: int,
)
    requires
        0 <= start <= dock < talk.len(),
        opening::open_ran(ctx, position, talk.skip(start), outcome),
        talk[dock].call is OpenSidebarPane,
    ensures
        talk[dock].call->OpenSidebarPane_dir == Dir::Down <==> position == SidebarPosition::Top
            || position == SidebarPosition::Bottom,
        talk[dock].call->OpenSidebarPane_cwd == ctx.cwd,
        talk[dock].call->OpenSidebarPane_focus,
        forall|i: int| start <= i < talk.len() ==> !((#[trigger] talk[i]).call is LoadConfig),
{
    let opened = talk.skip(start);
    assert(opened[dock - start] == talk[dock]);
    placement_laws::position_tells_the_split(ctx, position, opened, outcome, dock - start);
    assert forall|i: int| start <= i < talk.len() implies !((
    #[trigger] talk[i]).call is LoadConfig) by {
        placement_laws::opening_only_arranges(ctx, position, opened, outcome, i - start);
        assert(opened[i - start] == talk[i]);
    }
}

/// Where a toggle opens a sidebar and succeeds, the settings that it read decide on which side it
/// stands: after the sidebar was opened the anchor, which it is split off, is moved next to it
/// exactly for the left and the top.
///
/// This holds for a plan that leaves its own anchor alone.
pub proof fn settings_place_the_sidebar(ctx: CtxView, talk: Seq<Entry>, loaded: int, dock: int)
    requires
        maneuver::toggle_ran(ctx, talk, Ok::<(), Failure>(())),
        placement_laws::plans_spare_the_anchor(talk),
        0 <= loaded < talk.len(),
        talk[loaded].call is LoadConfig,
        0 <= dock < talk.len(),
        talk[dock].call is OpenSidebarPane,
    ensures
        talk[loaded].answer is Settings,
        placement_laws::stands_on_its_side(
            ctx.tab,
            talk[loaded].answer->Settings_0.sidebar.position,
            talk,
            dock,
        ),
{
    let ok = Ok::<(), Failure>(());
    let start = lemma_toggle_parts(ctx, talk, ok);
    let position = talk[0].answer->Settings_0.sidebar.position;
    assert(start <= dock);
    lemma_opened_on_its_side(ctx, position, talk, start, dock);
}

proof fn lemma_opened_on_its_side(
    ctx: CtxView,
    position: SidebarPosition,
    talk: Seq<Entry>,
    start: int,
    dock: int,
)
    requires
        0 <= start <= dock < talk.len(),
        opening::open_ran(ctx, position, talk.skip(start), Ok::<(), Failure>(())),
        placement_laws::plans_spare_the_anchor(talk),
        talk[dock].call is OpenSidebarPane,
    ensures
        placement_laws::stands_on_its_side(ctx.tab, position, talk, dock),
        forall|i: int| start <= i < talk.len() ==> !((#[trigger] talk[i]).call is LoadConfig),
{
    let ok = Ok::<(), Failure>(());
    let opened = talk.skip(start);
    assert forall|i: int| start <= i < talk.len() implies !((
    #[trigger] talk[i]).call is LoadConfig) by {
        placement_laws::opening_only_arranges(ctx, position, opened, ok, i - start);
        assert(opened[i - start] == talk[i]);
    }
    assert(opened[dock - start] == talk[dock]);
    assert(placement_laws::plans_spare_the_anchor(opened)) by {
        assert forall|p: int|
            0 <= p < opened.len() && (
            #[trigger] opened[p]).answer is Plan implies placement_laws::spares_anchor(
            opened[p].answer->Plan_0@,
        ) by {
            assert(talk[p + start] == opened[p]);
        }
    }
    placement_laws::sidebar_stands_on_its_side(ctx, position, opened, dock - start);
    placement_laws::lemma_stands_later(ctx.tab, position, talk, start, dock);
}

/// Whether a toggle in this place may ask for this.
pub open spec fn is_toggling(ctx: CtxView, call: Call) -> bool {
    ||| call is LoadConfig
    ||| call is HasDaemons
    ||| call is ListTabs
    ||| call is CollectDaemons
    ||| is_repair(ctx.tab, call)
    ||| placement_laws::is_arrangement(ctx, call)
}

/// A toggle asks for the settings, stops daemons, repairs the tab and arranges its panes, and asks
/// for nothing else: it runs no editor and reads no screen. No layout is asked for and no record is
/// read or dropped but that of its tab, and other tabs are created in its workspace only.
pub proof fn toggle_only_arranges(
    ctx: CtxView,
    talk: Seq<Entry>,
    outcome: Result<(), Failure>,
    i: int,
)
    requires
        maneuver::toggle_ran(ctx, talk, outcome),
        0 <= i < talk.len(),
    ensures
        is_toggling(ctx, talk[i].call),
{
    let start = lemma_toggle_parts(ctx, talk, outcome);
    if i >= start {
        let position = talk[0].answer->Settings_0.sidebar.position;
        let opened = talk.skip(start);
        placement_laws::opening_only_arranges(ctx, position, opened, outcome, i - start);
        assert(opened[i - start] == talk[i]);
    }
}

/// The toggle command works where it was invoked: in the tab, the workspace and the pane that the
/// environment tells of, in the directory that the plugin context names where it names one. At most
/// the directory of that pane is asked for besides.
#[verifier::spinoff_prover]
#[verifier::rlimit(40)]
pub proof fn toggles_happen_where_they_are_invoked(
    environment: Environment,
    talk: Seq<Entry>,
    outcome: Result<(), Failure>,
    i: int,
) -> (ctx: CtxView)
    requires
        maneuver::toggle_cmd_ran(environment, talk, outcome),
        0 <= i < talk.len(),
    ensures
        ({
            ||| environment.pane is Ok && i == 0 && talk[i].call == (Call::PaneCwd {
                pane: environment.pane->Ok_0@,
            })
            ||| {
                &&& pick_laws::tells_place(
                    environment,
                    ctx.workspace,
                    ctx.tab,
                    ctx.focused_pane,
                )
                &&& context::cwd_in(
                    json::parsed_text(environment.plugin_context->Ok_0@)->Ok_0,
                ) matches Some(cwd) ==> ctx.cwd == cwd
                &&& is_toggling(ctx, talk[i].call)
            }
        }),
{
    if outcome is Err && context::read_ran(
        environment,
        talk,
        Err::<Ctx, Failure>(outcome->Err_0),
    ) {
        pick_laws::environment_is_read(environment, talk, Err::<Ctx, Failure>(outcome->Err_0));
        CtxView {
            workspace: Seq::empty(),
            tab: Seq::empty(),
            focused_pane: Seq::empty(),
            cwd: Seq::empty(),
        }
    } else {
        let (length, ctx) = choose|length: int, ctx: Ctx|
            {
                &&& #[trigger] context::read_in(environment, talk, length, ctx)
                &&& maneuver::toggle_ran(ctx@, talk.skip(length), outcome)
            };
        let head = talk.take(length);
        pick_laws::environment_is_read(environment, head, Ok::<Ctx, Failure>(ctx));
        if i < length {
            assert(head[i] == talk[i]);
        } else {
            toggle_only_arranges(ctx@, talk.skip(length), outcome, i - length);
            assert(talk.skip(length)[i - length] == talk[i]);
        }
        ctx@
    }
}

/// A search for a sidebar looks at the record of the tab and at one pane at most, and what it finds
/// is the sidebar that the record names.
pub proof fn search_finds_what_is_recorded(
    tab: Seq<char>,
    talk: Seq<Entry>,
    outcome: Result<Option<String>, Failure>,
)
    requires
        maneuver::live_ran(tab, talk, outcome),
    ensures
        1 <= talk.len() <= 2,
        talk[0].call == (Call::LoadState { tab }),
        talk.len() > 1 ==> talk[1].call is PaneAlive,
        outcome matches Ok(Some(sidebar)) ==> {
            &&& talk[0].answer is State
            &&& talk[0].answer->State_0 is Some
            &&& talk[0].answer->State_0->0@.phase == Phase::Open
            &&& talk[0].answer->State_0->0@.sidebar_pane == Some(sidebar@)
            &&& talk.len() == 2
            &&& talk[1] == (Entry {
                call: Call::PaneAlive { pane: sidebar@ },
                answer: Answer::Flag(true),
            })
        },
{
    if talk.len() > 1 {
        assert(talk.skip(1)[0] == talk[1]);
    }
}

/// The conversation of a toggle from the search for a sidebar on.
#[verifier::opaque]
spec fn switched(
    ctx: CtxView,
    position: SidebarPosition,
    talk: Seq<Entry>,
    outcome: Result<(), Failure>,
) -> bool {
    maneuver::switch_ran(ctx, position, talk, outcome)
}

/// Where the search for a sidebar starts in a toggle, and that no record was looked at before.
proof fn lemma_switch_found(ctx: CtxView, talk: Seq<Entry>, outcome: Result<(), Failure>) -> (
    start: int)
    requires
        maneuver::toggle_ran(ctx, talk, outcome),
    ensures
        1 < start < talk.len(),
        talk[start].call == (Call::LoadState { tab: ctx.tab }),
        forall|i: int| 0 <= i < start ==> !((#[trigger] talk[i]).call is LoadState),
        forall|i: int|
            0 < i < start ==> {
                ||| (#[trigger] talk[i]).call is HasDaemons
                ||| talk[i].call is ListTabs
                ||| talk[i].call is CollectDaemons && i == 3 && talk[1].answer == Answer::Flag(
                    true,
                ) && talk[2].call is ListTabs && talk[2].answer is Tabs && talk[i].call
                    == (Call::CollectDaemons {
                    tabs: text::texts(talk[2].answer->Tabs_0@),
                    sidebar: talk[0].answer->Settings_0.sidebar@,
                })
            },
        talk[0].answer is Settings,
        talk[1].call is HasDaemons,
        talk[1].answer == Answer::Flag(true) ==> start > 2 && talk[2].call is ListTabs,
        talk[1].answer == Answer::Flag(true) && talk[2].answer is Tabs ==> start == 4,
        switched(
            ctx,
            talk[0].answer->Settings_0.sidebar.position,
            talk.skip(start),
            outcome,
        ),
{
    reveal(switched);
    let sidebar = talk[0].answer->Settings_0.sidebar@;
    let tail = talk.skip(1);
    let collected = choose|length: int|
        {
            &&& #[trigger] maneuver::collected_in(sidebar, tail, length)
            &&& maneuver::switch_ran(ctx, sidebar.position, tail.skip(length), outcome)
        };
    let head = tail.take(collected);
    assert(head[0] == talk[1]);
    if collected > 1 {
        assert(head[1] == talk[2]);
    }
    if collected > 2 {
        assert(head[2] == talk[3]);
    }
    let rest = tail.skip(collected);
    lemma_switch_starts(ctx, sidebar.position, rest, outcome);
    assert(rest[0] == talk[collected + 1]);
    assert(rest =~= talk.skip(collected + 1));
    collected + 1
}

proof fn lemma_switch_starts(
    ctx: CtxView,
    position: SidebarPosition,
    talk: Seq<Entry>,
    outcome: Result<(), Failure>,
)
    requires
        maneuver::switch_ran(ctx, position, talk, outcome),
    ensures
        talk.len() > 0,
        talk[0].call == (Call::LoadState { tab: ctx.tab }),
{
    if !(outcome is Err && maneuver::live_ran(
        ctx.tab,
        talk,
        Err::<Option<String>, Failure>(outcome->Err_0),
    )) {
        let (length, found) = choose|length: int, found: Option<String>|
            #[trigger] maneuver::sought_in(ctx.tab, talk, length, found);
        assert(talk.take(length)[0] == talk[0]);
    }
}

/// A toggle stops the daemons of tabs that are gone by naming the tabs that there are, as herdr has
/// just answered, and the settings that were read. It does so exactly if there are daemons and
/// herdr tells of its tabs.
pub proof fn only_lost_daemons_are_stopped(
    ctx: CtxView,
    talk: Seq<Entry>,
    outcome: Result<(), Failure>,
    i: int,
)
    requires
        maneuver::toggle_ran(ctx, talk, outcome),
        0 <= i < talk.len(),
    ensures
        talk[i].call is CollectDaemons ==> {
            &&& i == 3
            &&& talk[1].call is HasDaemons
            &&& talk[1].answer == Answer::Flag(true)
            &&& talk[2].call is ListTabs
            &&& talk[2].answer is Tabs
            &&& talk[3].call == (Call::CollectDaemons {
                tabs: text::texts(talk[2].answer->Tabs_0@),
                sidebar: talk[0].answer->Settings_0.sidebar@,
            })
        },
        talk[1].answer == Answer::Flag(true) && talk[2].answer is Tabs
            ==> talk[3].call is CollectDaemons,
{
    let start = lemma_switch_found(ctx, talk, outcome);
    let position = talk[0].answer->Settings_0.sidebar.position;
    let rest = talk.skip(start);
    if i >= start {
        lemma_switched_collects_none(ctx, position, rest, outcome, i - start);
        assert(rest[i - start] == talk[i]);
    }
    if talk[1].answer == Answer::Flag(true) && talk[2].answer is Tabs {
        lemma_third_collects(ctx, talk, outcome);
    }
}

proof fn lemma_third_collects(ctx: CtxView, talk: Seq<Entry>, outcome: Result<(), Failure>)
    requires
        maneuver::toggle_ran(ctx, talk, outcome),
        talk[1].answer == Answer::Flag(true),
        talk[2].answer is Tabs,
    ensures
        talk[3].call is CollectDaemons,
{
    let sidebar = talk[0].answer->Settings_0.sidebar@;
    let tail = talk.skip(1);
    let collected = choose|length: int| #[trigger] maneuver::collected_in(sidebar, tail, length);
    let head = tail.take(collected);
    assert(head[0] == talk[1]);
    assert(head[1] == talk[2]);
    assert(head[2] == talk[3]);
}

proof fn lemma_switched_collects_none(
    ctx: CtxView,
    position: SidebarPosition,
    talk: Seq<Entry>,
    outcome: Result<(), Failure>,
    i: int,
)
    requires
        switched(ctx, position, talk, outcome),
        0 <= i < talk.len(),
    ensures
        !(talk[i].call is CollectDaemons),
{
    reveal(switched);
    let start = lemma_switch_parts(ctx, position, talk, outcome);
    if i >= start {
        let opened = talk.skip(start);
        placement_laws::opening_only_arranges(ctx, position, opened, outcome, i - start);
        assert(opened[i - start] == talk[i]);
    }
}

/// Whether the first look at the record of a tab, at exchange `look`, finds an open sidebar whose
/// pane is there.
pub open spec fn finds_open(talk: Seq<Entry>, look: int) -> bool {
    &&& talk[look].answer is State
    &&& talk[look].answer->State_0 is Some
    &&& talk[look].answer->State_0->0@.phase == Phase::Open
    &&& talk[look].answer->State_0->0@.sidebar_pane is Some
    &&& look + 1 < talk.len()
    &&& talk[look + 1].answer == Answer::Flag(true)
}

/// A toggle of a tab whose sidebar is open and there closes exactly that pane and then drops the
/// record of the tab, and does nothing else. It succeeds exactly if both are done, and stops at the
/// first that is not.
pub proof fn open_sidebar_is_toggled_off(
    ctx: CtxView,
    talk: Seq<Entry>,
    outcome: Result<(), Failure>,
    look: int,
)
    requires
        maneuver::toggle_ran(ctx, talk, outcome),
        0 <= look < talk.len(),
        talk[look].call is LoadState,
        forall|i: int| 0 <= i < look ==> !((#[trigger] talk[i]).call is LoadState),
        finds_open(talk, look),
    ensures
        talk[look].call == (Call::LoadState { tab: ctx.tab }),
        talk[look + 1].call == (Call::PaneAlive {
            pane: talk[look].answer->State_0->0@.sidebar_pane->0,
        }),
        look + 3 <= talk.len() <= look + 4,
        talk[look + 2].call == (Call::ClosePane {
            pane: talk[look].answer->State_0->0@.sidebar_pane->0,
        }),
        talk.len() == look + 4 <==> talk[look + 2].answer is Done,
        talk.len() == look + 4 ==> talk[look + 3].call == (Call::RemoveState { tab: ctx.tab }),
        outcome is Ok <==> talk.len() == look + 4 && talk[look + 3].answer is Done,
        outcome is Err ==> talk.last().answer == Answer::Failed(outcome->Err_0),
{
    let start = lemma_switch_found(ctx, talk, outcome);
    assert(start == look) by {
        if start < look {
            assert(!(talk[start].call is LoadState));
        }
    }
    let rest = talk.skip(look);
    assert(rest[0] == talk[look]);
    assert(rest[1] == talk[look + 1]);
    lemma_switched_off(ctx, talk[0].answer->Settings_0.sidebar.position, rest, outcome);
    assert(rest[2] == talk[look + 2]);
    if talk.len() > look + 3 {
        assert(rest[3] == talk[look + 3]);
    }
    assert(rest.last() == talk.last());
}

proof fn lemma_switched_off(
    ctx: CtxView,
    position: SidebarPosition,
    talk: Seq<Entry>,
    outcome: Result<(), Failure>,
)
    requires
        switched(ctx, position, talk, outcome),
        finds_open(talk, 0),
    ensures
        ({
            let sidebar = talk[0].answer->State_0->0@.sidebar_pane->0;
            &&& 3 <= talk.len() <= 4
            &&& talk[1].call == (Call::PaneAlive { pane: sidebar })
            &&& talk[2].call == (Call::ClosePane { pane: sidebar })
            &&& talk.len() == 4 <==> talk[2].answer is Done
            &&& talk.len() == 4 ==> talk[3].call == (Call::RemoveState { tab: ctx.tab })
            &&& outcome is Ok <==> talk.len() == 4 && talk[3].answer is Done
            &&& outcome is Err ==> talk.last().answer == Answer::Failed(outcome->Err_0)
        }),
{
    reveal(switched);
    let sidebar = talk[0].answer->State_0->0@.sidebar_pane->0;
    maneuver::open_sidebar_is_closed(ctx, position, sidebar, talk, outcome);
    let calls = maneuver::closing(sidebar, ctx.tab);
    let rest = talk.skip(2);
    if outcome is Err && maneuver::live_ran(
        ctx.tab,
        talk,
        Err::<Option<String>, Failure>(outcome->Err_0),
    ) {
        assert(talk.skip(1)[0] == talk[1]);
    } else {
        let (length, found) = choose|length: int, found: Option<String>|
            #[trigger] maneuver::sought_in(ctx.tab, talk, length, found);
        let head = talk.take(length);
        assert(head[0] == talk[0]);
        assert(head.skip(1)[0] == talk[1]);
    }
    assert(rest[0] == talk[2]);
    assert(rest[0].call == calls[0]);
    if rest.len() > 1 {
        assert(rest[1] == talk[3]);
        assert(rest[1].call == calls[1]);
    }
    assert(rest.last() == talk.last());
}

/// A toggle that succeeds opens a sidebar exactly if the first look at the record found no open one
/// whose pane is there: a tab without a record, one of an unfinished opening, and one whose sidebar
/// is gone all get a new one.
pub proof fn toggle_opens_where_none_is_open(ctx: CtxView, talk: Seq<Entry>, look: int)
    requires
        maneuver::toggle_ran(ctx, talk, Ok::<(), Failure>(())),
        0 <= look < talk.len(),
        talk[look].call is LoadState,
        forall|i: int| 0 <= i < look ==> !((#[trigger] talk[i]).call is LoadState),
    ensures
        (exists|i: int| 0 <= i < talk.len() && (#[trigger] talk[i]).call is OpenSidebarPane) <==> !(
        finds_open(talk, look)),
{
    let ok = Ok::<(), Failure>(());
    let start = lemma_switch_found(ctx, talk, ok);
    assert(start == look) by {
        if start < look {
            assert(!(talk[start].call is LoadState));
        }
    }
    if finds_open(talk, look) {
        open_sidebar_is_toggled_off(ctx, talk, ok, look);
        assert forall|i: int| 0 <= i < talk.len() implies !((
        #[trigger] talk[i]).call is OpenSidebarPane) by {
            if i >= look {
                assert(i == look || i == look + 1 || i == look + 2 || i == look + 3);
            }
        }
    } else {
        let rest = talk.skip(look);
        let dock = lemma_switched_on(ctx, talk[0].answer->Settings_0.sidebar.position, rest);
        assert(rest[dock] == talk[dock + look]);
    }
}

proof fn lemma_switched_on(ctx: CtxView, position: SidebarPosition, talk: Seq<Entry>) -> (dock: int)
    requires
        switched(ctx, position, talk, Ok::<(), Failure>(())),
        !finds_open(talk, 0),
    ensures
        0 <= dock < talk.len(),
        talk[dock].call is OpenSidebarPane,
{
    reveal(switched);
    let ok = Ok::<(), Failure>(());
    let (length, found) = choose|length: int, found: Option<String>|
        {
            &&& #[trigger] maneuver::sought_in(ctx.tab, talk, length, found)
            &&& match found {
                Some(sidebar) => log::follows(
                    talk.skip(length),
                    maneuver::closing(sidebar@, ctx.tab),
                    ok,
                ),
                None => maneuver::reopen_ran(ctx, position, talk.skip(length), ok),
            }
        };
    let head = talk.take(length);
    search_finds_what_is_recorded(ctx.tab, head, Ok::<Option<String>, Failure>(found));
    assert(head[0] == talk[0]);
    if head.len() > 1 {
        assert(head[1] == talk[1]);
    }
    let rest = talk.skip(length);
    let more = lemma_reopened(ctx, position, rest);
    assert(rest[more] == talk[more + length]);
    more + length
}

proof fn lemma_reopened(ctx: CtxView, position: SidebarPosition, talk: Seq<Entry>) -> (dock: int)
    requires
        maneuver::reopen_ran(ctx, position, talk, Ok::<(), Failure>(())),
    ensures
        0 <= dock < talk.len(),
        talk[dock].call is OpenSidebarPane,
{
    let ok = Ok::<(), Failure>(());
    let length = choose|length: int|
        {
            &&& #[trigger] maneuver::recovered_in(ctx.tab, talk, length)
            &&& opening::open_ran(ctx, position, talk.skip(length), ok)
        };
    let opened = talk.skip(length);
    let dock = placement_laws::one_sidebar_is_opened(ctx, position, opened);
    assert(opened[dock] == talk[dock + length]);
    dock + length
}

/// Whether a stretch of a conversation repairs a tab: it starts with a look at its record, and
/// where that is of an unfinished opening, every pane that is parked by it is put back where the
/// record says or found to be gone, and then the record is dropped.
pub open spec fn repairs_tab(tab: Seq<char>, talk: Seq<Entry>) -> bool {
    &&& talk.len() > 0
    &&& talk[0].call == (Call::LoadState { tab })
    &&& talk[0].answer is State
    &&& talk[0].answer->State_0 matches Some(found) ==> {
        let record = found@;
        &&& restoring_laws::puts_back(record, talk)
        &&& record.phase == Phase::Evacuating ==> {
            &&& talk.last() == (Entry { call: Call::RemoveState { tab }, answer: Answer::Done })
            &&& forall|pane: Seq<char>| #[trigger]
                record.parked.contains(pane) ==> recovery_laws::settled(record.tab, pane, talk)
        }
        &&& record.phase == Phase::Open ==> talk.len() == 1
    }
}

proof fn lemma_repaired(tab: Seq<char>, talk: Seq<Entry>)
    requires
        recovery::recover_ran(tab, talk, Ok::<(), Failure>(())),
    ensures
        repairs_tab(tab, talk),
{
    let ok = Ok::<(), Failure>(());
    if talk[0].answer is State {
        if let Some(found) = talk[0].answer->State_0 {
            restoring_laws::recovery_puts_panes_back(tab, found@, talk, ok);
            if found@.phase == Phase::Evacuating {
                recovery_laws::recovery_finishes(tab, talk, ok);
                recovery_laws::recovery_forgets_no_pane(tab, found@, talk, ok);
            }
        }
    }
}

/// A toggle that opens a sidebar and succeeds repairs the tab before it takes the lock and arranges
/// anything, with a look of its own at the record.
pub proof fn toggle_repairs_before_it_opens(
    ctx: CtxView,
    talk: Seq<Entry>,
    look: int,
) -> (stretch: (int, int))
    requires
        maneuver::toggle_ran(ctx, talk, Ok::<(), Failure>(())),
        0 <= look < talk.len(),
        talk[look].call is LoadState,
        forall|i: int| 0 <= i < look ==> !((#[trigger] talk[i]).call is LoadState),
        !finds_open(talk, look),
    ensures
        look < stretch.0 < stretch.1 < talk.len(),
        repairs_tab(ctx.tab, talk.subrange(stretch.0, stretch.1)),
        talk[stretch.1].call is HoldLock,
        forall|i: int|
            0 <= i < talk.len() && (#[trigger] talk[i]).call is OpenSidebarPane ==> stretch.1 < i,
{
    let ok = Ok::<(), Failure>(());
    let start = lemma_switch_found(ctx, talk, ok);
    assert(start == look) by {
        if start < look {
            assert(!(talk[start].call is LoadState));
        }
    }
    let rest = talk.skip(look);
    let found = lemma_switched_repairs(
        ctx,
        talk[0].answer->Settings_0.sidebar.position,
        rest,
    );
    assert(rest.subrange(found.0, found.1) =~= talk.subrange(found.0 + look, found.1 + look));
    assert(rest[found.1] == talk[found.1 + look]);
    assert forall|i: int|
        0 <= i < talk.len() && (#[trigger] talk[i]).call is OpenSidebarPane implies found.1 + look
        < i by {
        if i >= look {
            assert(rest[i - look] == talk[i]);
        }
    }
    (found.0 + look, found.1 + look)
}

proof fn lemma_switched_repairs(ctx: CtxView, position: SidebarPosition, talk: Seq<Entry>) -> (
    stretch: (int, int))
    requires
        switched(ctx, position, talk, Ok::<(), Failure>(())),
        !finds_open(talk, 0),
    ensures
        0 < stretch.0 < stretch.1 < talk.len(),
        repairs_tab(ctx.tab, talk.subrange(stretch.0, stretch.1)),
        talk[stretch.1].call is HoldLock,
        forall|i: int|
            0 <= i < talk.len() && (#[trigger] talk[i]).call is OpenSidebarPane ==> stretch.1 < i,
{
    reveal(switched);
    let ok = Ok::<(), Failure>(());
    let (length, found) = choose|length: int, found: Option<String>|
        {
            &&& #[trigger] maneuver::sought_in(ctx.tab, talk, length, found)
            &&& match found {
                Some(sidebar) => log::follows(
                    talk.skip(length),
                    maneuver::closing(sidebar@, ctx.tab),
                    ok,
                ),
                None => maneuver::reopen_ran(ctx, position, talk.skip(length), ok),
            }
        };
    let head = talk.take(length);
    search_finds_what_is_recorded(ctx.tab, head, Ok::<Option<String>, Failure>(found));
    assert(head[0] == talk[0]);
    if head.len() > 1 {
        assert(head[1] == talk[1]);
    }
    let rest = talk.skip(length);
    let more = lemma_reopen_repairs(ctx, position, rest);
    assert(rest.take(more) =~= talk.subrange(length, length + more));
    assert(rest[more] == talk[length + more]);
    assert forall|i: int|
        0 <= i < talk.len() && (#[trigger] talk[i]).call is OpenSidebarPane implies length + more
        < i by {
        if i < length {
            assert(head[i] == talk[i]);
            assert(i == 0 || i == 1);
        } else {
            assert(rest[i - length] == talk[i]);
        }
    }
    (length, length + more)
}

proof fn lemma_reopen_repairs(ctx: CtxView, position: SidebarPosition, talk: Seq<Entry>) -> (
    length: int)
    requires
        maneuver::reopen_ran(ctx, position, talk, Ok::<(), Failure>(())),
    ensures
        0 < length < talk.len(),
        repairs_tab(ctx.tab, talk.take(length)),
        talk[length].call is HoldLock,
        forall|i: int|
            0 <= i < talk.len() && (#[trigger] talk[i]).call is OpenSidebarPane ==> length < i,
{
    let ok = Ok::<(), Failure>(());
    let length = choose|length: int|
        {
            &&& #[trigger] maneuver::recovered_in(ctx.tab, talk, length)
            &&& opening::open_ran(ctx, position, talk.skip(length), ok)
        };
    let head = talk.take(length);
    lemma_repaired(ctx.tab, head);
    recovery_only_repairs(ctx.tab, head, ok);
    let opened = talk.skip(length);
    assert(opened[0] == talk[length]);
    assert forall|i: int|
        0 <= i < talk.len() && (#[trigger] talk[i]).call is OpenSidebarPane implies length < i by {
        if i < length {
            assert(head[i] == talk[i]);
        }
    }
    length
}

} // verus!
