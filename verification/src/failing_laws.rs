//! What makes a toggle, and the showing of a file, fail.

use vstd::prelude::*;

use crate::bridge;
use crate::config::{SidebarPosition, SidebarView};
use crate::context::CtxView;
use crate::failure::Failure;
use crate::log::{self, Answer, Entry};
use crate::maneuver;
use crate::opening;
use crate::opening_laws;
use crate::recovery;
use crate::recovery_laws;
use crate::showing_laws;

verus! {

/// Whether an exchange failed in this way.
pub open spec fn fails(entry: Entry, failure: Failure) -> bool {
    entry.answer == Answer::Failed(failure)
}

proof fn lemma_search_fails(tab: Seq<char>, talk: Seq<Entry>, failure: Failure)
    requires
        maneuver::live_ran(tab, talk, Err::<Option<String>, Failure>(failure)),
    ensures
        talk.len() > 0,
        fails(talk.last(), failure),
{
    if talk.len() > 1 {
        assert(talk.skip(1)[0] == talk[1]);
    }
}

proof fn lemma_reopening_fails(
    ctx: CtxView,
    position: SidebarPosition,
    talk: Seq<Entry>,
    failure: Failure,
) -> (i: int)
    requires
        maneuver::reopen_ran(ctx, position, talk, Err::<(), Failure>(failure)),
    ensures
        0 <= i < talk.len(),
        fails(talk[i], failure),
{
    let outcome = Err::<(), Failure>(failure);
    if recovery::recover_ran(ctx.tab, talk, outcome) {
        recovery_laws::recovery_finishes(ctx.tab, talk, outcome);
        talk.len() - 1
    } else {
        let length = choose|length: int|
            {
                &&& #[trigger] maneuver::recovered_in(ctx.tab, talk, length)
                &&& opening::open_ran(ctx, position, talk.skip(length), outcome)
            };
        let rest = talk.skip(length);
        opening_laws::opening_finishes(ctx, position, rest, outcome);
        let held = rest.subrange(1, rest.len() - 1);
        assert(held.last() == rest[rest.len() - 2]);
        assert(rest[rest.len() - 2] == talk[talk.len() - 2]);
        talk.len() - 2
    }
}

proof fn lemma_switch_fails(
    ctx: CtxView,
    position: SidebarPosition,
    talk: Seq<Entry>,
    failure: Failure,
) -> (i: int)
    requires
        maneuver::switch_ran(ctx, position, talk, Err::<(), Failure>(failure)),
    ensures
        0 <= i < talk.len(),
        fails(talk[i], failure),
{
    let outcome = Err::<(), Failure>(failure);
    if maneuver::live_ran(ctx.tab, talk, Err::<Option<String>, Failure>(failure)) {
        lemma_search_fails(ctx.tab, talk, failure);
        talk.len() - 1
    } else {
        let (length, found) = choose|length: int, found: Option<String>|
            {
                &&& #[trigger] maneuver::sought_in(ctx.tab, talk, length, found)
                &&& match found {
                    Some(sidebar) => log::follows(
                        talk.skip(length),
                        maneuver::closing(sidebar@, ctx.tab),
                        outcome,
                    ),
                    None => maneuver::reopen_ran(ctx, position, talk.skip(length), outcome),
                }
            };
        let rest = talk.skip(length);
        if found is Some {
            assert(rest.last() == talk.last());
            talk.len() - 1
        } else {
            let i = lemma_reopening_fails(ctx, position, rest, failure);
            assert(rest[i] == talk[length + i]);
            length + i
        }
    }
}

/// A toggle fails only where one of its exchanges does, and with the failure of that exchange.
pub proof fn toggles_fail_as_an_exchange_does(
    ctx: CtxView,
    talk: Seq<Entry>,
    failure: Failure,
) -> (i: int)
    requires
        maneuver::toggle_ran(ctx, talk, Err::<(), Failure>(failure)),
    ensures
        0 <= i < talk.len(),
        fails(talk[i], failure),
{
    let outcome = Err::<(), Failure>(failure);
    let sidebar = talk[0].answer->Settings_0.sidebar@;
    let tail = talk.skip(1);
    let collected = choose|length: int|
        {
            &&& #[trigger] maneuver::collected_in(sidebar, tail, length)
            &&& maneuver::switch_ran(ctx, sidebar.position, tail.skip(length), outcome)
        };
    let rest = tail.skip(collected);
    let i = lemma_switch_fails(ctx, sidebar.position, rest, failure);
    assert(rest[i] == talk[collected + 1 + i]);
    collected + 1 + i
}

/// Whether an exchange keeps a file from being shown: it failed in this way, or it is the last one,
/// and was a run of the editor that did not succeed, or found no sidebar on record once one was to
/// be opened.
pub open spec fn prevents_showing(talk: Seq<Entry>, i: int, failure: Failure) -> bool {
    ||| fails(talk[i], failure)
    ||| i == talk.len() - 1 && talk[i].call is Nvim && !showing_laws::succeeded(talk[i])
    ||| {
        &&& i == talk.len() - 1
        &&& talk[i].call is LoadState
        &&& talk[i].answer is State
        &&& match talk[i].answer->State_0 {
            Some(record) => record@.sidebar_pane is None && failure
                == Failure::NoSidebarAfterOpening,
            None => failure == Failure::NoStateAfterOpening,
        }
    }
}

proof fn lemma_ensuring_fails(ctx: CtxView, talk: Seq<Entry>, failure: Failure) -> (i: int)
    requires
        bridge::ensure_ran(ctx, talk, Err::<String, Failure>(failure)),
    ensures
        0 <= i < talk.len(),
        prevents_showing(talk, i, failure),
{
    let outcome = Err::<String, Failure>(failure);
    if maneuver::live_ran(ctx.tab, talk, Err::<Option<String>, Failure>(failure)) {
        lemma_search_fails(ctx.tab, talk, failure);
        talk.len() - 1
    } else {
        let (length, found) = choose|length: int, found: Option<String>|
            {
                &&& #[trigger] maneuver::sought_in(ctx.tab, talk, length, found)
                &&& match found {
                    Some(sidebar) => length == talk.len() && outcome == Ok::<String, Failure>(
                        sidebar,
                    ),
                    None => bridge::toggled_ran(ctx, talk.skip(length), outcome),
                }
            };
        let rest = talk.skip(length);
        if maneuver::toggle_ran(ctx, rest, Err::<(), Failure>(failure)) {
            let i = toggles_fail_as_an_exchange_does(ctx, rest, failure);
            assert(rest[i] == talk[length + i]);
            length + i
        } else {
            assert(rest.last() == talk.last());
            talk.len() - 1
        }
    }
}

/// The conversation of showing a file once the daemon serves.
#[verifier::opaque]
spec fn served(
    ctx: CtxView,
    socket: Seq<char>,
    path: Seq<char>,
    line: Option<u32>,
    settings: SidebarView,
    talk: Seq<Entry>,
    failure: Failure,
) -> bool {
    bridge::sidebar_ran(ctx, socket, path, line, settings, talk, Err::<(), Failure>(failure))
}

proof fn lemma_served_fails(
    ctx: CtxView,
    socket: Seq<char>,
    path: Seq<char>,
    line: Option<u32>,
    settings: SidebarView,
    talk: Seq<Entry>,
    failure: Failure,
) -> (i: int)
    requires
        served(ctx, socket, path, line, settings, talk, failure),
    ensures
        0 <= i < talk.len(),
        prevents_showing(talk, i, failure),
{
    reveal(served);
    let outcome = Err::<(), Failure>(failure);
    if bridge::ensure_ran(ctx, talk, Err::<String, Failure>(failure)) {
        lemma_ensuring_fails(ctx, talk, failure)
    } else {
        let (length, sidebar) = choose|length: int, sidebar: String|
            {
                &&& #[trigger] bridge::ensured_in(ctx, talk, length, sidebar)
                &&& bridge::load_ran(
                    socket,
                    path,
                    line,
                    settings,
                    sidebar@,
                    talk.skip(length),
                    outcome,
                )
            };
        let rest = talk.skip(length);
        assert(bridge::nvim_ran(socket, path, line, settings, rest, outcome));
        assert(rest.last() == talk.last());
        assert(rest.len() == 1 || rest.len() == 2);
        talk.len() - 1
    }
}

/// A file that is to be shown fails to be only where an exchange keeps it from being. That a
/// sidebar cannot be focused does not.
pub proof fn showings_fail_as_an_exchange_does(
    ctx: CtxView,
    path: Seq<char>,
    line: Option<u32>,
    talk: Seq<Entry>,
    failure: Failure,
) -> (i: int)
    requires
        bridge::show_ran(ctx, path, line, talk, Err::<(), Failure>(failure)),
    ensures
        0 <= i < talk.len(),
        prevents_showing(talk, i, failure),
{
    reveal(bridge::show_ran);
    reveal(served);
    if talk.len() == 1 {
        0
    } else {
        let settled = talk.skip(1);
        assert(settled[0] == talk[1]);
        let rest = settled.skip(1);
        assert(rest[0] == talk[2]);
        if rest.len() == 1 {
            2
        } else {
            let last = rest.skip(1);
            let socket = talk[2].answer->Text_0@;
            let settings = talk[1].answer->Settings_0@.sidebar;
            assert(served(ctx, socket, path, line, settings, last, failure));
            let i = lemma_served_fails(ctx, socket, path, line, settings, last, failure);
            assert(last[i] == talk[i + 3]);
            i + 3
        }
    }
}

} // verus!
