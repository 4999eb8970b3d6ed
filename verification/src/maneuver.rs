//! Toggling the sidebar of a tab.

use vstd::prelude::*;

use crate::config::{Config, Sidebar, SidebarPosition, SidebarView};
use crate::context::{self, read_ctx, Ctx, CtxView, Environment};
use crate::failure::Failure;
use crate::host::Host;
use crate::log::{self, Answer, Call, Entry};
use crate::opening::{self, open};
use crate::opening_laws;
use crate::recovery::{self, recover};
use crate::state::{self, copied_option, Phase};
use crate::text;

verus! {

/// The conversation of a search for the sidebar of a tab. Only one that is recorded as open, and
/// not one of an opening that is still under way, is looked for.
pub open spec fn live_ran(
    tab: Seq<char>,
    talk: Seq<Entry>,
    outcome: Result<Option<String>, Failure>,
) -> bool {
    log::asks(talk, Call::LoadState { tab }) && match talk[0].answer {
        Answer::State(found) => match state::state_of(found) {
            Some(state) => match (state.phase, state.sidebar_pane) {
                (Phase::Open, Some(sidebar)) => alive_ran(sidebar, talk.skip(1), outcome),
                _ => talk.len() == 1 && outcome == Ok::<Option<String>, Failure>(None),
            },
            None => talk.len() == 1 && outcome == Ok::<Option<String>, Failure>(None),
        },
        _ => log::stops(talk, outcome),
    }
}

/// The conversation of a search for a sidebar that is recorded as open.
pub open spec fn alive_ran(
    sidebar: Seq<char>,
    talk: Seq<Entry>,
    outcome: Result<Option<String>, Failure>,
) -> bool {
    log::asks(talk, Call::PaneAlive { pane: sidebar }) && match talk[0].answer {
        Answer::Flag(alive) => {
            &&& talk.len() == 1
            &&& outcome is Ok
            &&& text::text_of(outcome->Ok_0) == if alive {
                Some(sidebar)
            } else {
                None
            }
        },
        _ => log::stops(talk, outcome),
    }
}

/// The pane of a tab's sidebar, if one is recorded as open and still there.
pub fn live_open_sidebar<H: Host>(h: &mut H, tab: &str) -> (outcome: Result<
    Option<String>,
    Failure,
>)
    ensures
        log::extends(old(h).log(), final(h).log()),
        live_ran(tab@, log::since(old(h).log(), final(h).log()), outcome),
{
    let ghost before = h.log();
    match h.load_state(tab) {
        Ok(found) => {
            let ghost entry = h.log().last();
            match found {
                Some(state) => match (state.phase, copied_option(&state.sidebar_pane)) {
                    (Phase::Open, Some(sidebar)) => {
                        let outcome: Result<Option<String>, Failure> = if_alive(h, sidebar);
                        proof {
                            log::lemma_first(before, entry, h.log());
                        }
                        return outcome;
                    },
                    _ => {},
                },
                None => {},
            }
            proof {
                log::lemma_one(before, entry);
            }
            Ok(None)
        },
        Err(failure) => {
            proof {
                log::lemma_one(before, h.log().last());
            }
            Err(failure)
        },
    }
}

fn if_alive<H: Host>(h: &mut H, sidebar: String) -> (outcome: Result<Option<String>, Failure>)
    ensures
        log::extends(old(h).log(), final(h).log()),
        alive_ran(sidebar@, log::since(old(h).log(), final(h).log()), outcome),
{
    let ghost before = h.log();
    let answer: Result<bool, Failure> = h.pane_alive(sidebar.as_str());
    proof {
        log::lemma_one(before, h.log().last());
    }
    match answer {
        Ok(alive) => Ok(
            if alive {
                Some(sidebar)
            } else {
                None
            },
        ),
        Err(failure) => Err(failure),
    }
}

/// Whether the first `length` exchanges are those of a search for a sidebar with this result.
pub open spec fn sought_in(
    tab: Seq<char>,
    talk: Seq<Entry>,
    length: int,
    found: Option<String>,
) -> bool {
    &&& 0 <= length <= talk.len()
    &&& live_ran(tab, talk.take(length), Ok::<Option<String>, Failure>(found))
}

/// Whether the first `length` exchanges are those of a recovery that succeeds.
pub open spec fn recovered_in(tab: Seq<char>, talk: Seq<Entry>, length: int) -> bool {
    &&& 0 <= length <= talk.len()
    &&& recovery::recover_ran(tab, talk.take(length), Ok::<(), Failure>(()))
}

/// The conversation of stopping the editor daemons of tabs that are gone. Where there is a
/// directory for daemons, herdr tells which tabs there are, and the daemons of all others are
/// stopped. Nothing of this can fail.
pub open spec fn collect_ran(sidebar: SidebarView, talk: Seq<Entry>) -> bool {
    log::asks(talk, Call::HasDaemons) && match talk[0].answer {
        Answer::Flag(false) => talk.len() == 1,
        Answer::Flag(true) => {
            &&& talk.len() > 1
            &&& talk[1].call == Call::ListTabs
            &&& match talk[1].answer {
                Answer::Tabs(tabs) => {
                    &&& talk.len() == 3
                    &&& talk[2].call == (Call::CollectDaemons {
                        tabs: text::texts(tabs@),
                        sidebar,
                    })
                },
                Answer::Failed(_) => talk.len() == 2,
                _ => false,
            }
        },
        _ => false,
    }
}

/// Stop the editor daemons of tabs that are gone, as far as that can be done.
fn collect<H: Host>(h: &mut H, sidebar: &Sidebar)
    ensures
        log::extends(old(h).log(), final(h).log()),
        collect_ran(sidebar@, log::since(old(h).log(), final(h).log())),
{
    let ghost before = h.log();
    let present: bool = h.has_daemons();
    let ghost asked = h.log();
    proof {
        log::lemma_one(before, asked.last());
    }
    if !present {
        return;
    }
    let answer: Result<Vec<String>, Failure> = h.list_tabs();
    let ghost listed = h.log();
    proof {
        log::lemma_since_push(before, asked, listed.last());
    }
    match answer {
        Ok(tabs) => {
            let _collected: Result<(), Failure> = h.collect_daemons(&tabs, sidebar);
            proof {
                log::lemma_since_push(before, listed, h.log().last());
            }
        },
        Err(_) => {},
    }
}

/// Whether the first `length` exchanges stop the editor daemons of tabs that are gone.
pub open spec fn collected_in(sidebar: SidebarView, talk: Seq<Entry>, length: int) -> bool {
    &&& 0 <= length <= talk.len()
    &&& collect_ran(sidebar, talk.take(length))
}

/// The conversation of a toggle: first the settings are read.
pub open spec fn toggle_ran(
    ctx: CtxView,
    talk: Seq<Entry>,
    outcome: Result<(), Failure>,
) -> bool {
    &&& log::asks(talk, Call::LoadConfig)
    &&& talk[0].answer is Settings
    &&& tidied_ran(ctx, talk[0].answer->Settings_0.sidebar@, talk.skip(1), outcome)
}

/// The conversation of a toggle from the stopping of editor daemons on. Whatever comes of that, the
/// toggle goes on.
pub open spec fn tidied_ran(
    ctx: CtxView,
    sidebar: SidebarView,
    talk: Seq<Entry>,
    outcome: Result<(), Failure>,
) -> bool {
    exists|length: int|
        {
            &&& #[trigger] collected_in(sidebar, talk, length)
            &&& switch_ran(ctx, sidebar.position, talk.skip(length), outcome)
        }
}

/// Closing a sidebar and dropping the record of its tab.
pub open spec fn closing(sidebar: Seq<char>, tab: Seq<char>) -> Seq<Call> {
    seq![Call::ClosePane { pane: sidebar }, Call::RemoveState { tab }]
}

/// The conversation of a toggle from the search for a sidebar on.
pub open spec fn switch_ran(
    ctx: CtxView,
    position: SidebarPosition,
    talk: Seq<Entry>,
    outcome: Result<(), Failure>,
) -> bool {
    ||| outcome is Err && live_ran(
        ctx.tab,
        talk,
        Err::<Option<String>, Failure>(outcome->Err_0),
    )
    ||| exists|length: int, found: Option<String>|
        {
            &&& #[trigger] sought_in(ctx.tab, talk, length, found)
            &&& match found {
                Some(sidebar) => log::follows(
                    talk.skip(length),
                    closing(sidebar@, ctx.tab),
                    outcome,
                ),
                None => reopen_ran(ctx, position, talk.skip(length), outcome),
            }
        }
}

/// The conversation of a toggle that finds no sidebar: the tab is repaired where needed, and a
/// sidebar opened.
pub open spec fn reopen_ran(
    ctx: CtxView,
    position: SidebarPosition,
    talk: Seq<Entry>,
    outcome: Result<(), Failure>,
) -> bool {
    ||| outcome is Err && recovery::recover_ran(ctx.tab, talk, outcome)
    ||| exists|length: int|
        {
            &&& #[trigger] recovered_in(ctx.tab, talk, length)
            &&& opening::open_ran(ctx, position, talk.skip(length), outcome)
        }
}

fn reopen<H: Host>(h: &mut H, ctx: &Ctx, position: SidebarPosition) -> (outcome: Result<
    (),
    Failure,
>)
    ensures
        log::extends(old(h).log(), final(h).log()),
        reopen_ran(ctx@, position, log::since(old(h).log(), final(h).log()), outcome),
{
    let ghost before = h.log();
    match recover(h, ctx.tab.as_str()) {
        Ok(done) => {
            assert(done == ());
            let ghost middle = h.log();
            let outcome: Result<(), Failure> = open(h, ctx, position);
            proof {
                log::lemma_split(before, middle, h.log());
                let length = log::since(before, middle).len() as int;
                assert(recovered_in(ctx@.tab, log::since(before, h.log()), length));
            }
            outcome
        },
        Err(failure) => Err(failure),
    }
}

fn switch<H: Host>(
    h: &mut H,
    ctx: &Ctx,
    position: SidebarPosition,
) -> (outcome: Result<(), Failure>)
    ensures
        log::extends(old(h).log(), final(h).log()),
        switch_ran(ctx@, position, log::since(old(h).log(), final(h).log()), outcome),
{
    let ghost before = h.log();
    match live_open_sidebar(h, ctx.tab.as_str()) {
        Ok(found) => {
            let ghost middle = h.log();
            let ghost answer = found;
            let outcome: Result<(), Failure> = match found {
                Some(sidebar) => close_and_forget(h, sidebar.as_str(), ctx.tab.as_str()),
                None => reopen(h, ctx, position),
            };
            proof {
                log::lemma_split(before, middle, h.log());
                let length = log::since(before, middle).len() as int;
                assert(sought_in(ctx@.tab, log::since(before, h.log()), length, answer));
            }
            outcome
        },
        Err(failure) => Err(failure),
    }
}

fn close_and_forget<H: Host>(h: &mut H, sidebar: &str, tab: &str) -> (outcome: Result<(), Failure>)
    ensures
        log::extends(old(h).log(), final(h).log()),
        log::follows(
            log::since(old(h).log(), final(h).log()),
            closing(sidebar@, tab@),
            outcome,
        ),
{
    let ghost before = h.log();
    match h.close_pane(sidebar) {
        Ok(_) => {
            let ghost middle = h.log();
            let outcome: Result<(), Failure> = h.remove_state(tab);
            proof {
                log::lemma_one(before, middle.last());
                log::lemma_since_push(before, middle, h.log().last());
            }
            outcome
        },
        Err(failure) => {
            proof {
                log::lemma_one(before, h.log().last());
            }
            Err(failure)
        },
    }
}

/// Close the sidebar of the tab of `ctx` where one is open, and open one where none is.
///
/// Daemons of tabs that are gone are stopped on the way; that this fails keeps nothing from
/// happening.
pub fn toggle<H: Host>(h: &mut H, ctx: &Ctx) -> (outcome: Result<(), Failure>)
    ensures
        log::extends(old(h).log(), final(h).log()),
        toggle_ran(ctx@, log::since(old(h).log(), final(h).log()), outcome),
{
    let ghost before = h.log();
    let config: Config = h.load_config();
    let ghost loaded = h.log();
    collect(h, &config.sidebar);
    let ghost collected = h.log();
    let outcome: Result<(), Failure> = switch(h, ctx, config.sidebar.position);
    proof {
        log::lemma_split(loaded, collected, h.log());
        let length = log::since(loaded, collected).len() as int;
        assert(collected_in(config.sidebar@, log::since(loaded, h.log()), length));
        log::lemma_first(before, loaded.last(), h.log());
    }
    outcome
}

/// The conversation of the toggle command.
pub open spec fn toggle_cmd_ran(
    environment: Environment,
    talk: Seq<Entry>,
    outcome: Result<(), Failure>,
) -> bool {
    ||| outcome is Err && context::read_ran(environment, talk, Err::<Ctx, Failure>(outcome->Err_0))
    ||| exists|length: int, ctx: Ctx|
        {
            &&& #[trigger] context::read_in(environment, talk, length, ctx)
            &&& toggle_ran(ctx@, talk.skip(length), outcome)
        }
}

/// The toggle command: read where it was invoked, and toggle the sidebar there.
pub fn toggle_cmd<H: Host>(h: &mut H, environment: &Environment) -> (outcome: Result<(), Failure>)
    ensures
        log::extends(old(h).log(), final(h).log()),
        toggle_cmd_ran(*environment, log::since(old(h).log(), final(h).log()), outcome),
{
    let ghost before = h.log();
    match read_ctx(h, environment) {
        Ok(ctx) => {
            let ghost middle = h.log();
            let outcome: Result<(), Failure> = toggle(h, &ctx);
            proof {
                log::lemma_split(before, middle, h.log());
                let length = log::since(before, middle).len() as int;
                assert(context::read_in(*environment, log::since(before, h.log()), length, ctx));
            }
            outcome
        },
        Err(failure) => Err(failure),
    }
}

/// The record of an opening that is still under way never leads a toggle to close its sidebar and
/// drop the record, which would strand the parked panes: such a tab is always repaired first.
pub proof fn unfinished_opening_is_repaired(
    ctx: CtxView,
    position: SidebarPosition,
    talk: Seq<Entry>,
    outcome: Result<(), Failure>,
)
    requires
        switch_ran(ctx, position, talk, outcome),
        talk[0].answer is State,
        state::state_of(talk[0].answer->State_0) matches Some(record) && record.phase
            == Phase::Evacuating,
    ensures
        reopen_ran(ctx, position, talk.skip(1), outcome),
{
    if outcome is Err && live_ran(
        ctx.tab,
        talk,
        Err::<Option<String>, Failure>(outcome->Err_0),
    ) {
        assert(false);
    } else {
        let (length, found) = choose|length: int, found: Option<String>|
            {
                &&& #[trigger] sought_in(ctx.tab, talk, length, found)
                &&& match found {
                    Some(sidebar) => log::follows(
                        talk.skip(length),
                        closing(sidebar@, ctx.tab),
                        outcome,
                    ),
                    None => reopen_ran(ctx, position, talk.skip(length), outcome),
                }
            };
        assert(talk.take(length)[0] == talk[0]);
    }
}

/// A toggle that finds the sidebar of its tab on record as open, and the pane still there, closes
/// that pane and drops the record, and does nothing else.
pub proof fn open_sidebar_is_closed(
    ctx: CtxView,
    position: SidebarPosition,
    sidebar: Seq<char>,
    talk: Seq<Entry>,
    outcome: Result<(), Failure>,
)
    requires
        switch_ran(ctx, position, talk, outcome),
        talk[0].answer is State,
        state::state_of(talk[0].answer->State_0) matches Some(record) && record.phase
            == Phase::Open && record.sidebar_pane == Some(sidebar),
        talk.len() > 1,
        talk[1].answer == Answer::Flag(true),
    ensures
        log::follows(
            talk.skip(2),
            closing(sidebar, ctx.tab),
            outcome,
        ),
{
    if outcome is Err && live_ran(
        ctx.tab,
        talk,
        Err::<Option<String>, Failure>(outcome->Err_0),
    ) {
        assert(talk.skip(1)[0] == talk[1]);
    } else {
        let (length, found) = choose|length: int, found: Option<String>|
            {
                &&& #[trigger] sought_in(ctx.tab, talk, length, found)
                &&& match found {
                    Some(sidebar) => log::follows(
                        talk.skip(length),
                        closing(sidebar@, ctx.tab),
                        outcome,
                    ),
                    None => reopen_ran(ctx, position, talk.skip(length), outcome),
                }
            };
        let start = talk.take(length);
        assert(start[0] == talk[0]);
        assert(start.skip(1)[0] == talk[1]);
    }
}

/// A toggle undoes an opening. Where the record that the opening left is found again, once the
/// `length` exchanges about editor daemons are over, and its sidebar is still there, exactly that
/// sidebar is closed, and the record dropped.
pub proof fn toggle_undoes_opening(
    ctx: CtxView,
    position: SidebarPosition,
    opened: Seq<Entry>,
    talk: Seq<Entry>,
    length: int,
    outcome: Result<(), Failure>,
)
    requires
        opening::open_ran(ctx, position, opened, Ok::<(), Failure>(())),
        toggle_ran(ctx, talk, outcome),
        collected_in(talk[0].answer->Settings_0.sidebar@, talk.skip(1), length),
        talk.len() > length + 2,
        talk[length + 1].answer is State,
        state::state_of(
            talk[length + 1].answer->State_0,
        ) matches Some(record) && opened.drop_last().last().call
            == (Call::SaveState { state: record }),
        talk[length + 2].answer == Answer::Flag(true),
    ensures
        exists|sidebar: Seq<char>|
            #[trigger] opening_laws::opened(opened, sidebar) && log::follows(
                talk.skip(length + 3),
                closing(sidebar, ctx.tab),
                outcome,
            ),
{
    opening_laws::opening_finishes(ctx, position, opened, Ok::<(), Failure>(()));
    let sidebar = choose|sidebar: Seq<char>|
        opening_laws::opened(opened, sidebar) && #[trigger] opening_laws::leaves_open(
            ctx,
            opened.drop_last(),
            sidebar,
        );
    let settings = talk[0].answer->Settings_0.sidebar@;
    let tail = talk.skip(1);
    let other = choose|other: int|
        {
            &&& #[trigger] collected_in(settings, tail, other)
            &&& switch_ran(ctx, settings.position, tail.skip(other), outcome)
        };
    lemma_collect_length(settings, tail, length, other);
    let rest = tail.skip(length);
    assert(rest[0] == talk[length + 1]);
    assert(rest[1] == talk[length + 2]);
    open_sidebar_is_closed(ctx, settings.position, sidebar, rest, outcome);
    assert(rest.skip(2) =~= talk.skip(length + 3));
}

/// Where a conversation about editor daemons ends is told by what was answered in it.
proof fn lemma_collect_length(sidebar: SidebarView, talk: Seq<Entry>, length: int, other: int)
    requires
        collected_in(sidebar, talk, length),
        collected_in(sidebar, talk, other),
    ensures
        length == other,
{
    let left = talk.take(length);
    let right = talk.take(other);
    assert(left[0] == talk[0] && right[0] == talk[0]);
    if talk[0].answer == Answer::Flag(true) {
        assert(left[1] == talk[1] && right[1] == talk[1]);
    }
}

/// What comes of the stopping of editor daemons makes no difference to a toggle: with any other
/// conversation about it, the rest of the toggle may go the same way.
pub proof fn collecting_daemons_never_blocks(
    ctx: CtxView,
    sidebar: SidebarView,
    collected: Seq<Entry>,
    other: Seq<Entry>,
    rest: Seq<Entry>,
    outcome: Result<(), Failure>,
)
    requires
        collect_ran(sidebar, collected),
        collect_ran(sidebar, other),
        tidied_ran(ctx, sidebar, collected + rest, outcome),
    ensures
        tidied_ran(ctx, sidebar, other + rest, outcome),
{
    let talk = collected + rest;
    let length = choose|length: int|
        {
            &&& #[trigger] collected_in(sidebar, talk, length)
            &&& switch_ran(ctx, sidebar.position, talk.skip(length), outcome)
        };
    assert(talk.take(collected.len() as int) =~= collected);
    assert(collected_in(sidebar, talk, collected.len() as int));
    lemma_collect_length(sidebar, talk, length, collected.len() as int);
    assert(talk.skip(length) =~= rest);
    let changed = other + rest;
    assert(changed.take(other.len() as int) =~= other);
    assert(changed.skip(other.len() as int) =~= rest);
    assert(collected_in(sidebar, changed, other.len() as int));
}

} // verus!
