//! What the editor is asked for where a file is shown, whoever asks for it.

use vstd::prelude::*;

use crate::bridge;
use crate::config::SidebarView;
use crate::context::CtxView;
use crate::failure::Failure;
use crate::log::{Answer, Call, Entry, Exit};
use crate::maneuver;
use crate::text;
use crate::toggle_laws;

verus! {

/// Whether the record of a tab named this sidebar when it was looked at.
pub open spec fn names_sidebar(entry: Entry, tab: Seq<char>, sidebar: Seq<char>) -> bool {
    &&& entry.call == (Call::LoadState { tab })
    &&& entry.answer is State
    &&& entry.answer->State_0 is Some
    &&& entry.answer->State_0->0@.sidebar_pane == Some(sidebar)
}

/// Whether the record of a tab named this sidebar when it was looked at before exchange `at`.
pub open spec fn is_named(
    talk: Seq<Entry>,
    at: int,
    tab: Seq<char>,
    sidebar: Seq<char>,
) -> bool {
    exists|i: int| 0 <= i < at && #[trigger] names_sidebar(talk[i], tab, sidebar)
}

/// Making sure that a sidebar is open asks for what a toggle may ask for, and gives a sidebar that
/// the record of the tab names.
pub proof fn ensuring_only_arranges(
    ctx: CtxView,
    talk: Seq<Entry>,
    outcome: Result<String, Failure>,
)
    requires
        bridge::ensure_ran(ctx, talk, outcome),
    ensures
        talk.len() > 0,
        forall|i: int|
            0 <= i < talk.len() ==> toggle_laws::is_toggling(ctx, (#[trigger] talk[i]).call),
        outcome is Ok ==> exists|i: int|
            0 <= i < talk.len() && #[trigger] names_sidebar(talk[i], ctx.tab, outcome->Ok_0@),
{
    if outcome is Err && maneuver::live_ran(
        ctx.tab,
        talk,
        Err::<Option<String>, Failure>(outcome->Err_0),
    ) {
        toggle_laws::search_finds_what_is_recorded(
            ctx.tab,
            talk,
            Err::<Option<String>, Failure>(outcome->Err_0),
        );
    } else {
        let (length, found) = choose|length: int, found: Option<String>|
            {
                &&& #[trigger] maneuver::sought_in(ctx.tab, talk, length, found)
                &&& match found {
                    Some(sidebar) => length == talk.len() && outcome == Ok::<String, Failure>(
                        sidebar,
                    ),
                    None => bridge::toggled_ran(ctx, talk.skip(length), outcome),
                }
            };
        let head = talk.take(length);
        let rest = talk.skip(length);
        toggle_laws::search_finds_what_is_recorded(
            ctx.tab,
            head,
            Ok::<Option<String>, Failure>(found),
        );
        assert(head[0] == talk[0]);
        if found is Some {
            assert(names_sidebar(talk[0], ctx.tab, outcome->Ok_0@));
        } else {
            lemma_toggled_only_arranges(ctx, rest, outcome);
            if outcome is Ok {
                let i = choose|i: int|
                    0 <= i < rest.len() && #[trigger] names_sidebar(
                        rest[i],
                        ctx.tab,
                        outcome->Ok_0@,
                    );
                assert(talk[i + length] == rest[i]);
            }
        }
        assert forall|i: int| 0 <= i < talk.len() implies toggle_laws::is_toggling(
            ctx,
            (#[trigger] talk[i]).call,
        ) by {
            if i < length {
                assert(head[i] == talk[i]);
                assert(i == 0 || i == 1);
            } else {
                assert(rest[i - length] == talk[i]);
            }
        }
    }
}

proof fn lemma_toggled_only_arranges(
    ctx: CtxView,
    talk: Seq<Entry>,
    outcome: Result<String, Failure>,
)
    requires
        bridge::toggled_ran(ctx, talk, outcome),
    ensures
        forall|i: int|
            0 <= i < talk.len() ==> toggle_laws::is_toggling(ctx, (#[trigger] talk[i]).call),
        outcome is Ok ==> exists|i: int|
            0 <= i < talk.len() && #[trigger] names_sidebar(talk[i], ctx.tab, outcome->Ok_0@),
{
    if outcome is Err && maneuver::toggle_ran(ctx, talk, Err::<(), Failure>(outcome->Err_0)) {
        assert forall|i: int| 0 <= i < talk.len() implies toggle_laws::is_toggling(
            ctx,
            (#[trigger] talk[i]).call,
        ) by {
            toggle_laws::toggle_only_arranges(
                ctx,
                talk,
                Err::<(), Failure>(outcome->Err_0),
                i,
            );
        }
    } else {
        let head = talk.drop_last();
        assert forall|i: int| 0 <= i < talk.len() implies toggle_laws::is_toggling(
            ctx,
            (#[trigger] talk[i]).call,
        ) by {
            if i < head.len() {
                toggle_laws::toggle_only_arranges(ctx, head, Ok::<(), Failure>(()), i);
                assert(head[i] == talk[i]);
            } else {
                assert(talk[i] == talk.last());
            }
        }
        if outcome is Ok {
            assert(names_sidebar(talk[talk.len() - 1], ctx.tab, outcome->Ok_0@));
        }
    }
}

/// Whether an exchange runs the editor of these settings with these four arguments.
pub open spec fn runs_editor(
    entry: Entry,
    sidebar: SidebarView,
    socket: Seq<char>,
    option: Seq<char>,
    argument: Seq<char>,
) -> bool {
    &&& entry.call is Nvim
    &&& entry.call->Nvim_sidebar == sidebar
    &&& entry.call->Nvim_args.len() == 4
    &&& entry.call->Nvim_args[0] == "--server"@
    &&& entry.call->Nvim_args[1] == socket
    &&& entry.call->Nvim_args[2] == option
    &&& entry.call->Nvim_args[3] == argument
}

/// Whether a program was run and told that it succeeded.
pub open spec fn succeeded(entry: Entry) -> bool {
    entry.answer matches Answer::Exit(Exit::Finished { success: true, .. })
}

/// Whether a conversation shows this file at this line, if one is given, from exchange `at` on. The
/// editor that the settings name, and that serves the tab, is told to open the file once, and then
/// to go to the line where one is given, and the sidebar that the record of the tab names is
/// focused. The editor is run for nothing else.
pub open spec fn shows_file(
    ctx: CtxView,
    path: Seq<char>,
    line: Option<u32>,
    talk: Seq<Entry>,
    at: int,
) -> bool {
    let settings = talk[1].answer->Settings_0@;
    let socket = talk[2].answer->Text_0@;
    let focus = if line is Some {
        at + 2
    } else {
        at + 1
    };
    &&& 3 < at
    &&& focus < talk.len()
    &&& talk[0].call is PluginRoot
    &&& talk[0].answer is Text
    &&& talk[1].call is LoadConfig
    &&& talk[1].answer is Settings
    &&& talk[2].call == (Call::EnsureDaemon {
        tab: ctx.tab,
        root: talk[0].answer->Text_0@,
        config: settings,
        cwd: ctx.cwd,
    })
    &&& talk[2].answer is Text
    &&& runs_editor(talk[at], settings.sidebar, socket, "--remote"@, path)
    &&& !talk[at].call->Nvim_quiet
    &&& succeeded(talk[at])
    &&& line matches Some(number) ==> {
        &&& runs_editor(
            talk[at + 1],
            settings.sidebar,
            socket,
            "--remote-expr"@,
            "cursor("@ + text::decimal(number as nat) + ", 1)"@,
        )
        &&& talk[at + 1].call->Nvim_quiet
        &&& succeeded(talk[at + 1])
    }
    &&& forall|i: int|
        0 <= i < talk.len() && (#[trigger] talk[i]).call is Nvim ==> i == at || line is Some && i
            == at + 1
    &&& talk[focus].call is HerdrStatus
    &&& talk[focus].call->HerdrStatus_quiet
    &&& talk[focus].call->HerdrStatus_args.len() == 4
    &&& talk[focus].call->HerdrStatus_args[0] == "plugin"@
    &&& talk[focus].call->HerdrStatus_args[1] == "pane"@
    &&& talk[focus].call->HerdrStatus_args[2] == "focus"@
    &&& is_named(talk, at, ctx.tab, talk[focus].call->HerdrStatus_args[3])
    &&& forall|i: int|
        0 <= i < talk.len() && (#[trigger] talk[i]).call is HerdrStatus ==> i == focus
    &&& forall|i: int| focus < i < talk.len() ==> (#[trigger] talk[i]).call is Warn
}

/// Where a file is shown with success, the editor is told to open exactly that file and to go to
/// exactly that line, and to go nowhere where no line is given.
pub proof fn file_is_shown(
    ctx: CtxView,
    path: Seq<char>,
    line: Option<u32>,
    talk: Seq<Entry>,
) -> (at: int)
    requires
        bridge::show_ran(ctx, path, line, talk, Ok::<(), Failure>(())),
    ensures
        shows_file(ctx, path, line, talk, at),
{
    lemma_show_starts(ctx, path, line, talk);
    let rest = talk.skip(3);
    let settings = talk[1].answer->Settings_0@;
    let socket = talk[2].answer->Text_0@;
    let (length, sidebar) = lemma_sidebar_found(
        ctx,
        socket,
        path,
        line,
        settings.sidebar,
        rest,
    );
    lemma_shown(ctx, path, line, sidebar, talk, length);
    length + 3
}

/// How every conversation in which a file is shown starts.
proof fn lemma_show_starts(
    ctx: CtxView,
    path: Seq<char>,
    line: Option<u32>,
    talk: Seq<Entry>,
)
    requires
        bridge::show_ran(ctx, path, line, talk, Ok::<(), Failure>(())),
    ensures
        talk.len() >= 3,
        talk[0].call is PluginRoot,
        talk[0].answer is Text,
        talk[1].call is LoadConfig,
        talk[1].answer is Settings,
        talk[2].call == (Call::EnsureDaemon {
            tab: ctx.tab,
            root: talk[0].answer->Text_0@,
            config: talk[1].answer->Settings_0@,
            cwd: ctx.cwd,
        }),
        talk[2].answer is Text,
        served(
            ctx,
            talk[2].answer->Text_0@,
            path,
            line,
            talk[1].answer->Settings_0@.sidebar,
            talk.skip(3),
        ),
{
    reveal(bridge::show_ran);
    reveal(served);
    let settled = talk.skip(1);
    assert(settled[0] == talk[1]);
    let served = settled.skip(1);
    assert(served[0] == talk[2]);
    assert(served.skip(1) =~= talk.skip(3));
}

/// The conversation of showing a file once the daemon serves.
#[verifier::opaque]
spec fn served(
    ctx: CtxView,
    socket: Seq<char>,
    path: Seq<char>,
    line: Option<u32>,
    settings: SidebarView,
    talk: Seq<Entry>,
) -> bool {
    bridge::sidebar_ran(ctx, socket, path, line, settings, talk, Ok::<(), Failure>(()))
}

/// Where the editor is first run, and for which sidebar, once the daemon serves.
proof fn lemma_sidebar_found(
    ctx: CtxView,
    socket: Seq<char>,
    path: Seq<char>,
    line: Option<u32>,
    settings: SidebarView,
    talk: Seq<Entry>,
) -> (found: (int, Seq<char>))
    requires
        served(ctx, socket, path, line, settings, talk),
    ensures
        0 < found.0 <= talk.len(),
        forall|i: int|
            0 <= i < found.0 ==> toggle_laws::is_toggling(ctx, (#[trigger] talk[i]).call),
        is_named(talk, found.0, ctx.tab, found.1),
        loads(socket, path, line, settings, found.1, talk.skip(found.0)),
{
    reveal(served);
    let ok = Ok::<(), Failure>(());
    let (length, sidebar) = choose|length: int, sidebar: String|
        {
            &&& #[trigger] bridge::ensured_in(ctx, talk, length, sidebar)
            &&& bridge::load_ran(
                socket,
                path,
                line,
                settings,
                sidebar@,
                talk.skip(length),
                ok,
            )
        };
    let head = talk.take(length);
    ensuring_only_arranges(ctx, head, Ok::<String, Failure>(sidebar));
    lemma_loaded(socket, path, line, settings, sidebar@, talk.skip(length));
    assert forall|i: int| 0 <= i < length implies toggle_laws::is_toggling(
        ctx,
        (#[trigger] talk[i]).call,
    ) by {
        assert(head[i] == talk[i]);
    }
    let i = choose|i: int|
        0 <= i < head.len() && #[trigger] names_sidebar(head[i], ctx.tab, sidebar@);
    assert(names_sidebar(talk[i], ctx.tab, sidebar@));
    (length, sidebar@)
}

/// Whether a conversation starts with the editor opening this file at this line, if one is given,
/// and goes on with this sidebar being focused.
spec fn loads(
    socket: Seq<char>,
    path: Seq<char>,
    line: Option<u32>,
    settings: SidebarView,
    sidebar: Seq<char>,
    talk: Seq<Entry>,
) -> bool {
    let focus: int = if line is Some {
        2
    } else {
        1
    };
    &&& focus < talk.len()
    &&& runs_editor(talk[0], settings, socket, "--remote"@, path)
    &&& !talk[0].call->Nvim_quiet
    &&& succeeded(talk[0])
    &&& line matches Some(number) ==> {
        &&& runs_editor(
            talk[1],
            settings,
            socket,
            "--remote-expr"@,
            "cursor("@ + text::decimal(number as nat) + ", 1)"@,
        )
        &&& talk[1].call->Nvim_quiet
        &&& succeeded(talk[1])
    }
    &&& talk[focus].call is HerdrStatus
    &&& talk[focus].call->HerdrStatus_quiet
    &&& talk[focus].call->HerdrStatus_args.len() == 4
    &&& talk[focus].call->HerdrStatus_args[0] == "plugin"@
    &&& talk[focus].call->HerdrStatus_args[1] == "pane"@
    &&& talk[focus].call->HerdrStatus_args[2] == "focus"@
    &&& talk[focus].call->HerdrStatus_args[3] == sidebar
    &&& forall|i: int| focus < i < talk.len() ==> (#[trigger] talk[i]).call is Warn
}

proof fn lemma_loaded(
    socket: Seq<char>,
    path: Seq<char>,
    line: Option<u32>,
    settings: SidebarView,
    sidebar: Seq<char>,
    talk: Seq<Entry>,
)
    requires
        bridge::load_ran(
            socket,
            path,
            line,
            settings,
            sidebar,
            talk,
            Ok::<(), Failure>(()),
        ),
    ensures
        loads(socket, path, line, settings, sidebar, talk),
{
    let length = choose|length: int|
        {
            &&& #[trigger] bridge::loaded_in(socket, path, line, settings, talk, length)
            &&& bridge::focus_ran(sidebar, talk.skip(length))
        };
    let start = talk.take(length);
    let rest = talk.skip(length);
    assert(start[0] == talk[0]);
    if line is Some {
        assert(start[1] == talk[1]);
    }
    assert(rest[0] == talk[length]);
    assert forall|i: int| length < i < talk.len() implies (#[trigger] talk[i]).call is Warn by {
        assert(rest[i - length] == talk[i]);
        assert(i - length == 1);
    }
}

proof fn lemma_shown(
    ctx: CtxView,
    path: Seq<char>,
    line: Option<u32>,
    sidebar: Seq<char>,
    talk: Seq<Entry>,
    length: int,
)
    requires
        talk.len() >= 3,
        0 < length <= talk.skip(3).len(),
        talk[0].call is PluginRoot,
        talk[0].answer is Text,
        talk[1].call is LoadConfig,
        talk[1].answer is Settings,
        talk[2].call == (Call::EnsureDaemon {
            tab: ctx.tab,
            root: talk[0].answer->Text_0@,
            config: talk[1].answer->Settings_0@,
            cwd: ctx.cwd,
        }),
        talk[2].answer is Text,
        forall|i: int|
            0 <= i < length ==> toggle_laws::is_toggling(ctx, (#[trigger] talk.skip(3)[i]).call),
        is_named(talk.skip(3), length, ctx.tab, sidebar),
        loads(
            talk[2].answer->Text_0@,
            path,
            line,
            talk[1].answer->Settings_0@.sidebar,
            sidebar,
            talk.skip(3).skip(length),
        ),
    ensures
        shows_file(ctx, path, line, talk, length + 3),
{
    let at = length + 3;
    let rest = talk.skip(3);
    let last = rest.skip(length);
    let focus = if line is Some {
        at + 2
    } else {
        at + 1
    };
    assert(last[0] == talk[at]);
    assert(last[1] == talk[at + 1]);
    assert(last[focus - at] == talk[focus]);
    assert forall|i: int| 3 <= i < at implies toggle_laws::is_toggling(
        ctx,
        (#[trigger] talk[i]).call,
    ) by {
        assert(rest[i - 3] == talk[i]);
    }
    assert forall|i: int| focus < i < talk.len() implies (#[trigger] talk[i]).call is Warn by {
        assert(last[i - at] == talk[i]);
    }
    let i = choose|i: int| 0 <= i < length && #[trigger] names_sidebar(rest[i], ctx.tab, sidebar);
    assert(rest[i] == talk[i + 3]);
    assert(names_sidebar(talk[i + 3], ctx.tab, sidebar));
}

/// Whether showing this file at this line may ask for this.
pub open spec fn is_showing(
    ctx: CtxView,
    path: Seq<char>,
    line: Option<u32>,
    call: Call,
) -> bool {
    ||| call is PluginRoot
    ||| call is EnsureDaemon && call->EnsureDaemon_tab == ctx.tab && call->EnsureDaemon_cwd
        == ctx.cwd
    ||| call is HerdrStatus && call->HerdrStatus_args.len() == 4
    ||| call is Warn
    ||| call is Nvim && call->Nvim_args.len() == 4 && {
        ||| call->Nvim_args[2] == "--remote"@ && call->Nvim_args[3] == path
        ||| call->Nvim_args[2] == "--remote-expr"@ && line is Some && call->Nvim_args[3]
            == "cursor("@ + text::decimal(line->0 as nat) + ", 1)"@
    }
    ||| toggle_laws::is_toggling(ctx, call)
}

/// Whatever comes of it, the editor is told to open no other file than the one to be shown, and to
/// go to no other line, and no daemon is asked for but that of the tab.
pub proof fn nothing_else_is_shown(
    ctx: CtxView,
    path: Seq<char>,
    line: Option<u32>,
    talk: Seq<Entry>,
    outcome: Result<(), Failure>,
    i: int,
)
    requires
        bridge::show_ran(ctx, path, line, talk, outcome),
        0 <= i < talk.len(),
    ensures
        is_showing(ctx, path, line, talk[i].call),
{
    reveal(bridge::show_ran);
    reveal(served_in);
    if i > 0 {
        let settled = talk.skip(1);
        assert(settled[i - 1] == talk[i]);
        assert(settled[0] == talk[1]);
        if i > 1 {
            let served = settled.skip(1);
            assert(served[i - 2] == talk[i]);
            assert(served[0] == talk[2]);
            if i > 2 {
                let rest = served.skip(1);
                assert(rest[i - 3] == talk[i]);
                assert(served_in(
                    ctx,
                    talk[2].answer->Text_0@,
                    path,
                    line,
                    talk[1].answer->Settings_0@.sidebar,
                    rest,
                    outcome,
                ));
                lemma_served_shows(
                    ctx,
                    talk[2].answer->Text_0@,
                    path,
                    line,
                    talk[1].answer->Settings_0@.sidebar,
                    rest,
                    outcome,
                    i - 3,
                );
            }
        }
    }
}

/// The conversation of showing a file once the daemon serves, whatever comes of it.
#[verifier::opaque]
spec fn served_in(
    ctx: CtxView,
    socket: Seq<char>,
    path: Seq<char>,
    line: Option<u32>,
    settings: SidebarView,
    talk: Seq<Entry>,
    outcome: Result<(), Failure>,
) -> bool {
    bridge::sidebar_ran(ctx, socket, path, line, settings, talk, outcome)
}

proof fn lemma_served_shows(
    ctx: CtxView,
    socket: Seq<char>,
    path: Seq<char>,
    line: Option<u32>,
    settings: SidebarView,
    talk: Seq<Entry>,
    outcome: Result<(), Failure>,
    i: int,
)
    requires
        served_in(ctx, socket, path, line, settings, talk, outcome),
        0 <= i < talk.len(),
    ensures
        is_showing(ctx, path, line, talk[i].call),
{
    reveal(served_in);
    if outcome is Err && bridge::ensure_ran(ctx, talk, Err::<String, Failure>(outcome->Err_0)) {
        ensuring_only_arranges(ctx, talk, Err::<String, Failure>(outcome->Err_0));
    } else {
        let (length, sidebar) = choose|length: int, sidebar: String|
            {
                &&& #[trigger] bridge::ensured_in(ctx, talk, length, sidebar)
                &&& bridge::load_ran(
                    socket,
                    path,
                    line,
                    settings,
                    sidebar@,
                    talk.skip(length),
                    outcome,
                )
            };
        let head = talk.take(length);
        if i < length {
            ensuring_only_arranges(ctx, head, Ok::<String, Failure>(sidebar));
            assert(head[i] == talk[i]);
        } else {
            let last = talk.skip(length);
            assert(last[i - length] == talk[i]);
            lemma_load_shows(
                ctx,
                socket,
                path,
                line,
                settings,
                sidebar@,
                last,
                outcome,
                i - length,
            );
        }
    }
}

proof fn lemma_load_shows(
    ctx: CtxView,
    socket: Seq<char>,
    path: Seq<char>,
    line: Option<u32>,
    settings: SidebarView,
    sidebar: Seq<char>,
    talk: Seq<Entry>,
    outcome: Result<(), Failure>,
    i: int,
)
    requires
        bridge::load_ran(socket, path, line, settings, sidebar, talk, outcome),
        0 <= i < talk.len(),
    ensures
        is_showing(ctx, path, line, talk[i].call),
{
    if outcome is Err {
        assert(i == 0 || i == 1);
    } else {
        let length = choose|length: int|
            {
                &&& #[trigger] bridge::loaded_in(socket, path, line, settings, talk, length)
                &&& bridge::focus_ran(sidebar, talk.skip(length))
            };
        if i < length {
            assert(talk.take(length)[i] == talk[i]);
            assert(i == 0 || i == 1);
        } else {
            assert(talk.skip(length)[i - length] == talk[i]);
            assert(i - length == 0 || i - length == 1);
        }
    }
}

} // verus!
