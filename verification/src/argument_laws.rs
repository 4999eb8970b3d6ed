//! What herdr's command line is given for each thing that is asked of it.

use vstd::prelude::*;

use crate::bridge;
use crate::cli::{self, Output, Ran};
use crate::failure::Failure;
use crate::herdr::{self, Dir, PaneRect, RectView};
use crate::json::{self, Node};
use crate::pick;
use crate::reply_laws;
use crate::text;
use crate::utf8;

verus! {

/// Whether an option stands among arguments with this value behind it.
pub open spec fn gives(args: Seq<Seq<char>>, option: Seq<char>, value: Seq<char>) -> bool {
    exists|i: int| 0 <= i < args.len() - 1 && #[trigger] args[i] == option && args[i + 1] == value
}

/// Whether the first arguments are these three.
pub open spec fn starts_with(
    args: Seq<Seq<char>>,
    first: Seq<char>,
    second: Seq<char>,
    third: Seq<char>,
) -> bool {
    args.len() >= 3 && args[0] == first && args[1] == second && args[2] == third
}

/// The word for a direction.
pub open spec fn word(dir: Dir) -> Seq<char> {
    if dir == Dir::Down {
        "down"@
    } else {
        "right"@
    }
}

/// A pane is moved by naming the pane, the tab and the direction, and the neighbour and the ratio
/// exactly where they are given. The last word says whether it is focused.
pub proof fn moves_name_everything(
    pane: Seq<char>,
    tab: Seq<char>,
    dir: Dir,
    target: Option<Seq<char>>,
    ratio: Option<Seq<char>>,
    focus: bool,
)
    ensures
        ({
            let args = cli::move_args(pane, tab, dir, target, ratio, focus);
            &&& starts_with(args, "pane"@, "move"@, pane)
            &&& gives(args, "--tab"@, tab)
            &&& gives(args, "--split"@, word(dir))
            &&& target matches Some(neighbour) ==> gives(args, "--target-pane"@, neighbour)
            &&& ratio matches Some(share) ==> gives(args, "--ratio"@, share)
            &&& args.len() == 8 + (if target is Some {
                2int
            } else {
                0int
            }) + (if ratio is Some {
                2int
            } else {
                0int
            })
            &&& args.last() == if focus {
                "--focus"@
            } else {
                "--no-focus"@
            }
        }),
{
    let args = cli::move_args(pane, tab, dir, target, ratio, focus);
    assert(args[3] == "--tab"@ && args[4] == tab);
    assert(args[5] == "--split"@ && args[6] == word(dir));
    if target is Some {
        assert(args[7] == "--target-pane"@ && args[8] == target->0);
        if ratio is Some {
            assert(args[9] == "--ratio"@ && args[10] == ratio->0);
        }
    } else if ratio is Some {
        assert(args[7] == "--ratio"@ && args[8] == ratio->0);
    }
}

/// A pane is split by naming the pane, the direction and the ratio. The last word says whether the
/// new one is focused.
pub proof fn splits_name_everything(pane: Seq<char>, dir: Dir, ratio: Seq<char>, focus: bool)
    ensures
        ({
            let args = cli::split_args(pane, dir, ratio, focus);
            &&& starts_with(args, "pane"@, "split"@, pane)
            &&& gives(args, "--direction"@, word(dir))
            &&& gives(args, "--ratio"@, ratio)
            &&& args.len() == 8
            &&& args.last() == if focus {
                "--focus"@
            } else {
                "--no-focus"@
            }
        }),
{
    let args = cli::split_args(pane, dir, ratio, focus);
    assert(args[3] == "--direction"@ && args[4] == word(dir));
    assert(args[5] == "--ratio"@ && args[6] == ratio);
}

/// The sidebar is opened as a pane of this plugin that is split off the anchor in the given
/// direction and starts in the given directory. The last word says whether it is focused.
pub proof fn sidebars_name_everything(
    anchor: Seq<char>,
    dir: Dir,
    cwd: Seq<char>,
    focus: bool,
)
    ensures
        ({
            let args = cli::sidebar_args(anchor, dir, cwd, focus);
            &&& starts_with(args, "plugin"@, "pane"@, "open"@)
            &&& gives(args, "--plugin"@, "chmarax.herdr-nvim"@)
            &&& gives(args, "--entrypoint"@, "sidebar"@)
            &&& gives(args, "--placement"@, "split"@)
            &&& gives(args, "--target-pane"@, anchor)
            &&& gives(args, "--direction"@, word(dir))
            &&& gives(args, "--cwd"@, cwd)
            &&& args.len() == 16
            &&& args.last() == if focus {
                "--focus"@
            } else {
                "--no-focus"@
            }
        }),
{
    let args = cli::sidebar_args(anchor, dir, cwd, focus);
    assert(args[3] == "--plugin"@ && args[4] == "chmarax.herdr-nvim"@);
    assert(args[5] == "--entrypoint"@ && args[6] == "sidebar"@);
    assert(args[7] == "--placement"@ && args[8] == "split"@);
    assert(args[9] == "--target-pane"@ && args[10] == anchor);
    assert(args[11] == "--direction"@ && args[12] == word(dir));
    assert(args[13] == "--cwd"@ && args[14] == cwd);
}

/// The picker is opened as a popup of this plugin, with the handoff in its environment.
pub proof fn picker_is_told_the_handoff(handoff: Seq<char>)
    ensures
        ({
            let args = pick::picker_args(handoff);
            &&& starts_with(args, "plugin"@, "pane"@, "open"@)
            &&& gives(args, "--plugin"@, "chmarax.herdr-nvim"@)
            &&& gives(args, "--entrypoint"@, "picker"@)
            &&& gives(args, "--placement"@, "popup"@)
            &&& gives(args, "--width"@, "80"@)
            &&& gives(args, "--height"@, "20"@)
            &&& gives(args, "--env"@, "HERDR_NVIM_HANDOFF="@ + handoff)
            &&& args.len() == 15
        }),
{
    let args = pick::picker_args(handoff);
    assert(args[3] == "--plugin"@ && args[4] == "chmarax.herdr-nvim"@);
    assert(args[5] == "--entrypoint"@ && args[6] == "picker"@);
    assert(args[7] == "--placement"@ && args[8] == "popup"@);
    assert(args[9] == "--width"@ && args[10] == "80"@);
    assert(args[11] == "--height"@ && args[12] == "20"@);
    assert(args[13] == "--env"@ && args[14] == "HERDR_NVIM_HANDOFF="@ + handoff);
}

/// A screen is read by naming the pane and the number of lines, which is read back from its
/// decimal, as plain text of the recent output without its line breaks.
pub proof fn reads_name_pane_and_lines(pane: Seq<char>, lines: u32)
    ensures
        ({
            let args = cli::read_args(pane, lines);
            &&& starts_with(args, "pane"@, "read"@, pane)
            &&& gives(args, "--lines"@, text::decimal(lines as nat))
            &&& gives(args, "--source"@, "recent-unwrapped"@)
            &&& gives(args, "--format"@, "text"@)
            &&& args.len() == 9
        }),
{
    let args = cli::read_args(pane, lines);
    assert(args[3] == "--source"@ && args[4] == "recent-unwrapped"@);
    assert(args[5] == "--lines"@ && args[6] == text::decimal(lines as nat));
    assert(args[7] == "--format"@ && args[8] == "text"@);
}

/// Everything else that is asked for is asked of the one pane, tab or workspace that is meant. A
/// tab is created without being focused.
pub proof fn questions_name_what_is_meant(
    pane: Seq<char>,
    workspace: Seq<char>,
    command: Seq<char>,
)
    ensures
        starts_with(cli::get_args(pane), "pane"@, "get"@, pane),
        cli::get_args(pane).len() == 3,
        starts_with(cli::close_args(pane), "pane"@, "close"@, pane),
        cli::close_args(pane).len() == 3,
        starts_with(cli::run_args(pane, command), "pane"@, "run"@, pane),
        cli::run_args(pane, command).len() == 4,
        cli::run_args(pane, command)[3] == command,
        starts_with(cli::layout_args(pane), "pane"@, "layout"@, "--pane"@),
        gives(cli::layout_args(pane), "--pane"@, pane),
        cli::layout_args(pane).len() == 4,
        starts_with(cli::create_args(workspace), "tab"@, "create"@, "--workspace"@),
        gives(cli::create_args(workspace), "--workspace"@, workspace),
        cli::create_args(workspace).last() == "--no-focus"@,
        cli::create_args(workspace).len() == 5,
        cli::list_args().len() == 2,
        cli::list_args()[0] == "pane"@,
        cli::list_args()[1] == "list"@,
        cli::snapshot_args().len() == 2,
        cli::snapshot_args()[0] == "api"@,
        cli::snapshot_args()[1] == "snapshot"@,
        cli::agents_args().len() == 2,
        cli::agents_args()[0] == "agent"@,
        cli::agents_args()[1] == "list"@,
        starts_with(bridge::focus_args(pane), "plugin"@, "pane"@, "focus"@),
        bridge::focus_args(pane).len() == 4,
        bridge::focus_args(pane)[3] == pane,
        starts_with(pick::notify_args(), "notification"@, "show"@, "herdr-nvim"@),
        gives(pick::notify_args(), "--body"@, "No file paths found in agent output"@),
        pick::notify_args().len() == 5,
{
    assert(cli::layout_args(pane)[2] == "--pane"@ && cli::layout_args(pane)[3] == pane);
    assert(cli::create_args(workspace)[2] == "--workspace"@ && cli::create_args(workspace)[3]
        == workspace);
    assert(pick::notify_args()[3] == "--body"@ && pick::notify_args()[4]
        == "No file paths found in agent output"@);
}

/// The editor is told to open a file by naming its socket and the file, and to go to a line by an
/// expression of its own, which names the line.
pub proof fn editor_is_told_what_is_meant(socket: Seq<char>, path: Seq<char>, line: u32)
    ensures
        gives(bridge::open_args(socket, path), "--server"@, socket),
        gives(bridge::open_args(socket, path), "--remote"@, path),
        bridge::open_args(socket, path).len() == 4,
        gives(bridge::jump_args(socket, line), "--server"@, socket),
        gives(
            bridge::jump_args(socket, line),
            "--remote-expr"@,
            "cursor("@ + text::decimal(line as nat) + ", 1)"@,
        ),
        bridge::jump_args(socket, line).len() == 4,
{
    let opened = bridge::open_args(socket, path);
    assert(opened[0] == "--server"@ && opened[1] == socket);
    assert(opened[2] == "--remote"@ && opened[3] == path);
    let jumped = bridge::jump_args(socket, line);
    assert(jumped[0] == "--server"@ && jumped[1] == socket);
    assert(jumped[2] == "--remote-expr"@ && jumped[3] == "cursor("@ + text::decimal(line as nat)
        + ", 1)"@);
}

/// A run counts exactly if herdr could be started and succeeded, and then what it wrote counts as
/// it is.
pub proof fn only_successful_runs_count(args: Seq<Seq<char>>, output: Output, bytes: Seq<u8>)
    ensures
        cli::output_of(args, output) == Ok::<Seq<u8>, Seq<char>>(bytes) <==> {
            &&& output is Finished
            &&& output->Finished_success
            &&& output->Finished_stdout@ == bytes
        },
        cli::reply_of(args, output) is Ok <==> {
            &&& output is Finished
            &&& output->Finished_success
            &&& json::parsed_bytes(output->Finished_stdout@) is Ok
        },
        cli::reply_of(args, output) matches Ok(reply) ==> json::parsed_bytes(
            output->Finished_stdout@,
        ) == Ok::<json::Document, Seq<char>>(reply),
        cli::shown_by(args, output) matches Ok(shown) ==> shown == utf8::lossy_text(
            output->Finished_stdout@,
        ),
{
}

/// The tab and the pane that were created are the texts at `/result/tab/tab_id` and
/// `/result/root_pane/pane_id` of the reply, and a reply without one of them tells of none.
pub proof fn created_tabs_are_read(
    workspace: Seq<char>,
    output: Output,
    tab: Seq<char>,
    pane: Seq<char>,
)
    ensures
        cli::tab_made(workspace, output) == Ok::<(Seq<char>, Seq<char>), Seq<char>>((tab, pane))
            <==> {
            &&& cli::reply_of(cli::create_args(workspace), output) is Ok
            &&& reply_laws::holds(
                cli::reply_of(cli::create_args(workspace), output)->Ok_0,
                "/result/tab/tab_id"@,
                Node::Text(tab),
            )
            &&& reply_laws::holds(
                cli::reply_of(cli::create_args(workspace), output)->Ok_0,
                "/result/root_pane/pane_id"@,
                Node::Text(pane),
            )
        },
{
    if let Ok(reply) = cli::reply_of(cli::create_args(workspace), output) {
        reply_laws::lemma_read(reply, "/result/tab/tab_id"@);
        reply_laws::lemma_read(reply, "/result/root_pane/pane_id"@);
    }
}

/// The tab of a pane is the text at `/result/pane/tab_id` of what herdr tells of the pane, and
/// there is one exactly if there is such a text.
pub proof fn tabs_of_panes_are_read(pane: Seq<char>, output: Output, text: Seq<char>)
    ensures
        cli::tab_told(pane, output) == Ok::<Seq<char>, Seq<char>>(text) <==> {
            &&& cli::reply_of(cli::get_args(pane), output) is Ok
            &&& reply_laws::holds(
                cli::reply_of(cli::get_args(pane), output)->Ok_0,
                "/result/pane/tab_id"@,
                Node::Text(text),
            )
        },
{
    if let Ok(reply) = cli::reply_of(cli::get_args(pane), output) {
        reply_laws::lemma_read(reply, "/result/pane/tab_id"@);
    }
}

/// The pane that was split off is the text at `/result/pane/pane_id` of the reply.
pub proof fn split_panes_are_read(
    pane: Seq<char>,
    dir: Dir,
    ratio: Seq<char>,
    focus: bool,
    output: Output,
    text: Seq<char>,
)
    ensures
        cli::split_told(pane, dir, ratio, focus, output) == Ok::<Seq<char>, Seq<char>>(text) <==> {
            &&& cli::reply_of(cli::split_args(pane, dir, ratio, focus), output) is Ok
            &&& reply_laws::holds(
                cli::reply_of(cli::split_args(pane, dir, ratio, focus), output)->Ok_0,
                "/result/pane/pane_id"@,
                Node::Text(text),
            )
        },
{
    if let Ok(reply) = cli::reply_of(cli::split_args(pane, dir, ratio, focus), output) {
        reply_laws::lemma_read(reply, "/result/pane/pane_id"@);
    }
}

/// The pane of a sidebar that was opened is the text at `/result/plugin_pane/pane/pane_id` of the
/// reply.
pub proof fn opened_sidebars_are_read(
    anchor: Seq<char>,
    dir: Dir,
    cwd: Seq<char>,
    focus: bool,
    output: Output,
    text: Seq<char>,
)
    ensures
        cli::sidebar_told(anchor, dir, cwd, focus, output) == Ok::<Seq<char>, Seq<char>>(text)
            <==> {
            &&& cli::reply_of(cli::sidebar_args(anchor, dir, cwd, focus), output) is Ok
            &&& reply_laws::holds(
                cli::reply_of(cli::sidebar_args(anchor, dir, cwd, focus), output)->Ok_0,
                "/result/plugin_pane/pane/pane_id"@,
                Node::Text(text),
            )
        },
{
    if let Ok(reply) = cli::reply_of(cli::sidebar_args(anchor, dir, cwd, focus), output) {
        reply_laws::lemma_read(reply, "/result/plugin_pane/pane/pane_id"@);
    }
}

/// The working directory of a pane is the same, whether it is asked for alone or with all that is
/// told of the pane: the text at `/result/pane/foreground_cwd`. Where it is missing, the reports
/// are the same.
pub proof fn directories_are_told_alike(pane: Seq<char>, output: Output)
    ensures
        cli::cwd_told(pane, output) matches Ok(cwd) ==> {
            &&& cli::snapshot_told(pane, output) is Ok
            &&& cli::snapshot_told(pane, output)->Ok_0.cwd == cwd
            &&& reply_laws::holds(
                cli::reply_of(cli::get_args(pane), output)->Ok_0,
                "/result/pane/foreground_cwd"@,
                Node::Text(cwd),
            )
        },
        cli::cwd_told(pane, output) matches Err(fault) ==> {
            &&& cli::snapshot_told(pane, output) is Err
            &&& cli::snapshot_told(pane, output)->Err_0 == fault
        },
{
    if let Ok(reply) = cli::reply_of(cli::get_args(pane), output) {
        reply_laws::lemma_read(reply, "/result/pane/foreground_cwd"@);
    }
}

/// The pane by which the layout of a tab is asked for is the first of the list that is in that tab.
/// There is one exactly if some pane is in it.
pub proof fn first_pane_is_in_the_tab(places: Seq<(Seq<char>, Seq<char>)>, tab: Seq<char>)
    ensures
        cli::first_pane(places, tab) matches Some(pane) ==> exists|i: int|
            0 <= i < places.len() && #[trigger] places[i] == (pane, tab) && forall|j: int|
                0 <= j < i ==> (#[trigger] places[j]).1 != tab,
        cli::first_pane(places, tab) is None ==> forall|j: int|
            0 <= j < places.len() ==> (#[trigger] places[j]).1 != tab,
    decreases places.len(),
{
    if places.len() > 0 && places[0].1 != tab {
        let rest = places.drop_first();
        first_pane_is_in_the_tab(rest, tab);
        if let Some(pane) = cli::first_pane(rest, tab) {
            let i = choose|i: int|
                0 <= i < rest.len() && #[trigger] rest[i] == (pane, tab) && forall|j: int|
                    0 <= j < i ==> (#[trigger] rest[j]).1 != tab;
            assert(places[i + 1] == (pane, tab));
            assert forall|j: int| 0 <= j < i + 1 implies (#[trigger] places[j]).1 != tab by {
                if j > 0 {
                    assert(places[j] == rest[j - 1]);
                }
            }
        } else {
            assert forall|j: int| 0 <= j < places.len() implies (#[trigger] places[j]).1 != tab by {
                if j > 0 {
                    assert(places[j] == rest[j - 1]);
                }
            }
        }
    } else if places.len() > 0 {
        assert(places[0] == (places[0].0, tab));
    }
}

/// The layout of a tab is asked for by a pane of that tab, which a listing right before has told
/// of, and what is read is what the reply to that says. A tab that the listing has no pane of has
/// no layout, and none is asked for.
pub proof fn layouts_are_those_of_the_tab(
    tab: Seq<char>,
    before: Seq<Ran>,
    after: Seq<Ran>,
    rects: Result<Vec<PaneRect>, Failure>,
)
    requires
        cli::rects_ran(tab, before, after, rects),
    ensures
        before.len() < after.len() <= before.len() + 2,
        after[before.len() as int].args == seq!["pane"@, "list"@],
        after.len() == before.len() + 2 ==> {
            let places = cli::places_listed(after[before.len() as int].output);
            let args = after.last().args;
            &&& places is Ok
            &&& args.len() == 4
            &&& args[0] == "pane"@
            &&& args[1] == "layout"@
            &&& gives(args, "--pane"@, args[3])
            &&& places->Ok_0.contains((args[3], tab))
        },
        rects matches Ok(list) ==> {
            let reply = cli::reply_of(after.last().args, after.last().output);
            &&& after.len() == before.len() + 2
            &&& reply is Ok
            &&& herdr::rects_in(reply->Ok_0) == Ok::<Seq<RectView>, Seq<char>>(
                herdr::rects_of(list@),
            )
        },
        cli::places_listed(after[before.len() as int].output) matches Ok(places) ==> ((forall|
            i: int,
        | 0 <= i < places.len() ==> (#[trigger] places[i]).1 != tab) <==> after.len()
            == before.len() + 1),
{
    if let Ok(places) = cli::places_listed(after[before.len() as int].output) {
        first_pane_is_in_the_tab(places, tab);
        if let Some(pane) = cli::first_pane(places, tab) {
            assert(cli::layout_args(pane)[2] == "--pane"@);
            let i = choose|i: int|
                0 <= i < places.len() && #[trigger] places[i] == (pane, tab) && forall|j: int|
                    0 <= j < i ==> (#[trigger] places[j]).1 != tab;
            assert(places[i].1 == tab);
        }
    }
}

/// A pane counts as alive exactly if a listing has it, in whatever tab and at whatever place.
pub proof fn listed_panes_are_alive(
    before: Seq<(Seq<char>, Seq<char>)>,
    place: (Seq<char>, Seq<char>),
    after: Seq<(Seq<char>, Seq<char>)>,
    pane: Seq<char>,
)
    ensures
        cli::has_pane(before + seq![place] + after, place.0),
        place.0 != pane ==> cli::has_pane(before + seq![place] + after, pane) == cli::has_pane(
            before + after,
            pane,
        ),
        !cli::has_pane(Seq::empty(), pane),
{
    let whole = before + seq![place] + after;
    let others = before + after;
    let at = before.len() as int;
    assert(whole[at] == place);
    if cli::has_pane(whole, pane) && place.0 != pane {
        let i = choose|i: int| 0 <= i < whole.len() && (#[trigger] whole[i]).0 == pane;
        if i < at {
            assert(others[i] == whole[i]);
        } else {
            assert(others[i - 1] == whole[i]);
        }
    }
    if cli::has_pane(others, pane) {
        let i = choose|i: int| 0 <= i < others.len() && (#[trigger] others[i]).0 == pane;
        if i < at {
            assert(whole[i] == others[i]);
        } else {
            assert(whole[i + 1] == others[i]);
        }
    }
}

/// Panes, tabs and agents are listed exactly if herdr answers with a reply that has the list, and
/// then as that reply has them.
pub proof fn lists_are_those_of_the_reply(workspace: Seq<char>, output: Output)
    requires
        output is Finished,
        output->Finished_success,
        json::parsed_bytes(output->Finished_stdout@) is Ok,
    ensures
        ({
            let reply = json::parsed_bytes(output->Finished_stdout@)->Ok_0;
            &&& cli::places_listed(output) == herdr::places_in(reply)
            &&& cli::tabs_listed(output) == herdr::tabs_in(reply)
            &&& cli::agents_listed(workspace, output) == herdr::agents_in(reply, workspace)
        }),
{
}

} // verus!
