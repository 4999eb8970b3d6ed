//! Opening files in the sidebar.

use vstd::prelude::*;

use crate::config::{Config, ConfigView, Sidebar, SidebarView};
use crate::context::{Ctx, CtxView};
use crate::failure::{self, Failure};
use crate::host::Host;
use crate::log::{self, Answer, Call, Entry, Exit};
use crate::maneuver::{self, live_open_sidebar, toggle};
use crate::state;
use crate::text::{self, args, concat, decimal_text};

verus! {

/// The conversation of making sure that a sidebar is open: one that is recorded as open and still
/// there is left alone.
pub open spec fn ensure_ran(
    ctx: CtxView,
    talk: Seq<Entry>,
    outcome: Result<String, Failure>,
) -> bool {
    ||| outcome is Err && maneuver::live_ran(
        ctx.tab,
        talk,
        Err::<Option<String>, Failure>(outcome->Err_0),
    )
    ||| exists|length: int, found: Option<String>|
        {
            &&& #[trigger] maneuver::sought_in(ctx.tab, talk, length, found)
            &&& match found {
                Some(sidebar) => length == talk.len() && outcome == Ok::<String, Failure>(sidebar),
                None => toggled_ran(ctx, talk.skip(length), outcome),
            }
        }
}

/// The conversation of opening a sidebar by a toggle and looking its pane up.
pub open spec fn toggled_ran(
    ctx: CtxView,
    talk: Seq<Entry>,
    outcome: Result<String, Failure>,
) -> bool {
    ||| outcome is Err && maneuver::toggle_ran(
        ctx,
        talk,
        Err::<(), Failure>(outcome->Err_0),
    )
    ||| talk.len() > 0 && maneuver::toggle_ran(ctx, talk.drop_last(), Ok::<(), Failure>(()))
        && lookup_ran(ctx.tab, talk.last(), outcome)
}

/// The exchange that looks up the pane of a sidebar that was just opened.
pub open spec fn lookup_ran(
    tab: Seq<char>,
    entry: Entry,
    outcome: Result<String, Failure>,
) -> bool {
    &&& entry.call == (Call::LoadState { tab })
    &&& match entry.answer {
        Answer::State(found) => match state::state_of(found) {
            Some(record) => match record.sidebar_pane {
                Some(sidebar) => outcome is Ok && outcome->Ok_0@ == sidebar,
                None => outcome == Err::<String, Failure>(Failure::NoSidebarAfterOpening),
            },
            None => outcome == Err::<String, Failure>(Failure::NoStateAfterOpening),
        },
        Answer::Failed(failure) => outcome == Err::<String, Failure>(failure),
        _ => false,
    }
}

fn open_by_toggle<H: Host>(h: &mut H, ctx: &Ctx) -> (outcome: Result<String, Failure>)
    ensures
        log::extends(old(h).log(), final(h).log()),
        toggled_ran(ctx@, log::since(old(h).log(), final(h).log()), outcome),
{
    let ghost before = h.log();
    match toggle(h, ctx) {
        Ok(done) => {
            assert(done == ());
            let ghost toggled = h.log();
            let answer: Result<Option<state::StateFile>, Failure> = h.load_state(ctx.tab.as_str());
            proof {
                log::lemma_since_push(before, toggled, h.log().last());
                let talk = log::since(before, h.log());
                assert(talk.drop_last() =~= log::since(before, toggled));
            }
            match answer {
                Ok(Some(record)) => match record.sidebar_pane {
                    Some(sidebar) => Ok(sidebar),
                    None => Err(Failure::NoSidebarAfterOpening),
                },
                Ok(None) => Err(Failure::NoStateAfterOpening),
                Err(failure) => Err(failure),
            }
        },
        Err(failure) => Err(failure),
    }
}

/// Make sure that a sidebar is open in the tab of `ctx`, and give its pane.
pub fn ensure_sidebar_open<H: Host>(h: &mut H, ctx: &Ctx) -> (outcome: Result<String, Failure>)
    ensures
        log::extends(old(h).log(), final(h).log()),
        ensure_ran(ctx@, log::since(old(h).log(), final(h).log()), outcome),
{
    let ghost before = h.log();
    match live_open_sidebar(h, ctx.tab.as_str()) {
        Ok(found) => {
            let ghost middle = h.log();
            let ghost answer = found;
            proof {
                let talk = log::since(before, middle);
                assert(talk.take(talk.len() as int) =~= talk);
                assert(maneuver::sought_in(ctx@.tab, talk, talk.len() as int, answer));
            }
            match found {
                Some(sidebar) => Ok(sidebar),
                None => {
                    let outcome: Result<String, Failure> = open_by_toggle(h, ctx);
                    proof {
                        log::lemma_split(before, middle, h.log());
                        let length = log::since(before, middle).len() as int;
                        assert(maneuver::sought_in(
                            ctx@.tab,
                            log::since(before, h.log()),
                            length,
                            answer,
                        ));
                    }
                    outcome
                },
            }
        },
        Err(failure) => Err(failure),
    }
}

/// Making sure that a sidebar is open leaves one alone that is open: the record and the pane are
/// looked at, and nothing else happens.
pub proof fn open_sidebar_is_left_alone(
    ctx: CtxView,
    sidebar: Seq<char>,
    talk: Seq<Entry>,
    outcome: Result<String, Failure>,
)
    requires
        ensure_ran(ctx, talk, outcome),
        talk[0].answer is State,
        state::state_of(talk[0].answer->State_0) matches Some(record) && record.phase
            == state::Phase::Open && record.sidebar_pane == Some(sidebar),
        talk.len() > 1,
        talk[1].answer == Answer::Flag(true),
    ensures
        talk.len() == 2,
        talk[0].call == (Call::LoadState { tab: ctx.tab }),
        talk[1].call == (Call::PaneAlive { pane: sidebar }),
        outcome is Ok,
        outcome->Ok_0@ == sidebar,
{
    if outcome is Err && maneuver::live_ran(
        ctx.tab,
        talk,
        Err::<Option<String>, Failure>(outcome->Err_0),
    ) {
        assert(talk.skip(1)[0] == talk[1]);
    } else {
        let (length, found) = choose|length: int, found: Option<String>|
            {
                &&& #[trigger] maneuver::sought_in(ctx.tab, talk, length, found)
                &&& match found {
                    Some(sidebar) => length == talk.len() && outcome == Ok::<String, Failure>(
                        sidebar,
                    ),
                    None => toggled_ran(ctx, talk.skip(length), outcome),
                }
            };
        let start = talk.take(length);
        assert(start[0] == talk[0]);
        assert(start.skip(1)[0] == talk[1]);
    }
}

/// How a program that was told to succeed ended, or the report of why it did not.
pub open spec fn ended(exit: Exit, command: Seq<char>, fault: Seq<char>) -> Result<(), Seq<char>> {
    match exit {
        Exit::NotStarted { reason } => Err("failed to run "@ + command + ": "@ + reason@),
        Exit::Finished { success, .. } => if success {
            Ok(())
        } else {
            Err(fault)
        },
    }
}

/// Opening a file in the editor that serves a socket.
pub open spec fn open_args(socket: Seq<char>, path: Seq<char>) -> Seq<Seq<char>> {
    seq!["--server"@, socket, "--remote"@, path]
}

/// Jumping to a line in the editor that serves a socket.
pub open spec fn jump_args(socket: Seq<char>, line: u32) -> Seq<Seq<char>> {
    seq![
        "--server"@,
        socket,
        "--remote-expr"@,
        "cursor("@ + text::decimal(line as nat) + ", 1)"@,
    ]
}

/// The conversation of opening a file in the editor that serves a socket, at a line if one is
/// known. What the jump shows is dropped.
pub open spec fn nvim_ran(
    socket: Seq<char>,
    path: Seq<char>,
    line: Option<u32>,
    sidebar: SidebarView,
    talk: Seq<Entry>,
    outcome: Result<(), Failure>,
) -> bool {
    &&& log::asks(talk, Call::Nvim { sidebar, args: open_args(socket, path), quiet: false })
    &&& talk[0].answer is Exit
    &&& match ended(
        talk[0].answer->Exit_0,
        "nvim --server --remote"@,
        "nvim --remote failed to open "@ + path,
    ) {
        Err(fault) => {
            &&& talk.len() == 1
            &&& outcome is Err
            &&& failure::report(outcome->Err_0) == fault
        },
        Ok(_) => match line {
            None => talk.len() == 1 && outcome is Ok,
            Some(line) => {
                &&& talk.len() == 2
                &&& talk[1].call == (Call::Nvim {
                    sidebar,
                    args: jump_args(socket, line),
                    quiet: true,
                })
                &&& talk[1].answer is Exit
                &&& failure::told_done(
                    outcome,
                    ended(
                        talk[1].answer->Exit_0,
                        "nvim --server --remote-expr"@,
                        "nvim --remote-expr failed to jump to line "@ + text::decimal(line as nat)
                            + " in "@ + path,
                    ),
                )
            },
        },
    }
}

/// Open a file in the editor that serves a socket, at a line if one is known. The editor that the
/// settings of the sidebar name is run for it.
///
/// A running editor takes `+<line>` for the name of a file, so the jump is an expression of its
/// own.
pub fn open_in_nvim<H: Host>(
    h: &mut H,
    socket: &str,
    path: &str,
    line: Option<u32>,
    sidebar: &Sidebar,
) -> (outcome: Result<(), Failure>)
    ensures
        log::extends(old(h).log(), final(h).log()),
        nvim_ran(
            socket@,
            path@,
            line,
            sidebar@,
            log::since(old(h).log(), final(h).log()),
            outcome,
        ),
{
    let ghost before = h.log();
    let command: Vec<String> = args(&["--server", socket, "--remote", path]);
    assert(text::texts(command@) =~= open_args(socket@, path@));
    let exit: Exit = h.nvim(sidebar, &command, false);
    let ghost opened = h.log();
    proof {
        log::lemma_one(before, opened.last());
    }
    match exit {
        Exit::NotStarted { reason } => {
            return Err(
                Failure::NotStarted { command: "nvim --server --remote".to_owned(), reason },
            );
        },
        Exit::Finished { success, status: _ } => if !success {
            return Err(Failure::NvimOpen { path: path.to_owned() });
        },
    }
    let line: u32 = match line {
        Some(line) => line,
        None => return Ok(()),
    };
    let count: String = decimal_text(line as u128);
    let expression: String = concat(&concat("cursor(", &count), ", 1)");
    let command: Vec<String> = args(&["--server", socket, "--remote-expr", expression.as_str()]);
    assert(text::texts(command@) =~= jump_args(socket@, line));
    let exit: Exit = h.nvim(sidebar, &command, true);
    proof {
        log::lemma_since_push(before, opened, h.log().last());
    }
    match exit {
        Exit::NotStarted { reason } => Err(
            Failure::NotStarted { command: "nvim --server --remote-expr".to_owned(), reason },
        ),
        Exit::Finished { success, status: _ } => if success {
            Ok(())
        } else {
            Err(Failure::NvimJump { line, path: path.to_owned() })
        },
    }
}

/// Focusing a pane of the plugin.
pub open spec fn focus_args(pane: Seq<char>) -> Seq<Seq<char>> {
    seq!["plugin"@, "pane"@, "focus"@, pane]
}

/// The warning that a sidebar could not be focused, where it could not.
pub open spec fn focus_warning(pane: Seq<char>, exit: Exit) -> Option<Seq<char>> {
    match exit {
        Exit::NotStarted { reason } => Some(
            "herdr-nvim: could not focus sidebar pane "@ + pane + ": "@ + reason@,
        ),
        Exit::Finished { success, status } => if success {
            None
        } else {
            Some(
                "herdr-nvim: could not focus sidebar pane "@ + pane + " (exit "@ + status@ + ")"@,
            )
        },
    }
}

/// The conversation of focusing a sidebar, which at worst ends in a warning.
pub open spec fn focus_ran(pane: Seq<char>, talk: Seq<Entry>) -> bool {
    &&& log::asks(talk, Call::HerdrStatus { args: focus_args(pane), quiet: true })
    &&& talk[0].answer is Exit
    &&& match focus_warning(pane, talk[0].answer->Exit_0) {
        Some(text) => talk.len() == 2 && talk[1].call == (Call::Warn { text }),
        None => talk.len() == 1,
    }
}

/// Focus a sidebar. The file is open whether or not this succeeds, so it is not a failure where it
/// does not.
pub fn focus_pane<H: Host>(h: &mut H, pane: &str)
    ensures
        log::extends(old(h).log(), final(h).log()),
        focus_ran(pane@, log::since(old(h).log(), final(h).log())),
{
    let ghost before = h.log();
    let command: Vec<String> = args(&["plugin", "pane", "focus", pane]);
    assert(text::texts(command@) =~= focus_args(pane@));
    let exit: Exit = h.herdr_status(&command, true);
    let ghost asked = h.log();
    proof {
        log::lemma_one(before, asked.last());
    }
    let start: String = concat("herdr-nvim: could not focus sidebar pane ", pane);
    let warning: String = match exit {
        Exit::NotStarted { reason } => concat(&concat(&start, ": "), &reason),
        Exit::Finished { success, status } => if success {
            return;
        } else {
            concat(&concat(&concat(&start, " (exit "), &status), ")")
        },
    };
    h.warn(warning.as_str());
    proof {
        log::lemma_since_push(before, asked, h.log().last());
    }
}

/// Whether the first `length` exchanges make sure that this sidebar is open.
pub open spec fn ensured_in(
    ctx: CtxView,
    talk: Seq<Entry>,
    length: int,
    sidebar: String,
) -> bool {
    &&& 0 <= length <= talk.len()
    &&& ensure_ran(ctx, talk.take(length), Ok::<String, Failure>(sidebar))
}

/// Whether the first `length` exchanges open a file in the editor.
pub open spec fn loaded_in(
    socket: Seq<char>,
    path: Seq<char>,
    line: Option<u32>,
    settings: SidebarView,
    talk: Seq<Entry>,
    length: int,
) -> bool {
    &&& 0 <= length <= talk.len()
    &&& nvim_ran(socket, path, line, settings, talk.take(length), Ok::<(), Failure>(()))
}

/// The conversation of opening a file in the sidebar. The editor daemon is brought up before the
/// sidebar opens, so that the sidebar finds one instead of starting its own.
#[verifier::opaque]
pub open spec fn show_ran(
    ctx: CtxView,
    path: Seq<char>,
    line: Option<u32>,
    talk: Seq<Entry>,
    outcome: Result<(), Failure>,
) -> bool {
    log::asks(talk, Call::PluginRoot) && match talk[0].answer {
        Answer::Text(root) => settings_ran(ctx, root@, path, line, talk.skip(1), outcome),
        _ => log::stops(talk, outcome),
    }
}

/// The conversation of opening a file in the sidebar from the settings on.
pub open spec fn settings_ran(
    ctx: CtxView,
    root: Seq<char>,
    path: Seq<char>,
    line: Option<u32>,
    talk: Seq<Entry>,
    outcome: Result<(), Failure>,
) -> bool {
    &&& log::asks(talk, Call::LoadConfig)
    &&& talk[0].answer is Settings
    &&& daemon_ran(ctx, root, talk[0].answer->Settings_0@, path, line, talk.skip(1), outcome)
}

/// The conversation of opening a file in the sidebar from the daemon on.
pub open spec fn daemon_ran(
    ctx: CtxView,
    root: Seq<char>,
    config: ConfigView,
    path: Seq<char>,
    line: Option<u32>,
    talk: Seq<Entry>,
    outcome: Result<(), Failure>,
) -> bool {
    log::asks(talk, Call::EnsureDaemon { tab: ctx.tab, root, config, cwd: ctx.cwd })
        && match talk[0].answer {
        Answer::Text(socket) => sidebar_ran(
            ctx,
            socket@,
            path,
            line,
            config.sidebar,
            talk.skip(1),
            outcome,
        ),
        _ => log::stops(talk, outcome),
    }
}

/// The conversation of opening a file in the sidebar from the sidebar on.
pub open spec fn sidebar_ran(
    ctx: CtxView,
    socket: Seq<char>,
    path: Seq<char>,
    line: Option<u32>,
    settings: SidebarView,
    talk: Seq<Entry>,
    outcome: Result<(), Failure>,
) -> bool {
    ||| outcome is Err && ensure_ran(ctx, talk, Err::<String, Failure>(outcome->Err_0))
    ||| exists|length: int, sidebar: String|
        {
            &&& #[trigger] ensured_in(ctx, talk, length, sidebar)
            &&& load_ran(socket, path, line, settings, sidebar@, talk.skip(length), outcome)
        }
}

/// The conversation of opening a file in the sidebar from the editor on. Once the file is open the
/// outcome is success, whether or not the sidebar can be focused.
pub open spec fn load_ran(
    socket: Seq<char>,
    path: Seq<char>,
    line: Option<u32>,
    settings: SidebarView,
    sidebar: Seq<char>,
    talk: Seq<Entry>,
    outcome: Result<(), Failure>,
) -> bool {
    ||| outcome is Err && nvim_ran(socket, path, line, settings, talk, outcome)
    ||| outcome is Ok && exists|length: int|
        {
            &&& #[trigger] loaded_in(socket, path, line, settings, talk, length)
            &&& focus_ran(sidebar, talk.skip(length))
        }
}

/// Open a file in the sidebar of the tab of `ctx`, at a line if one is known, and focus it.
pub fn open_in_sidebar<H: Host>(
    h: &mut H,
    ctx: &Ctx,
    path: &str,
    line: Option<u32>,
) -> (outcome: Result<(), Failure>)
    ensures
        log::extends(old(h).log(), final(h).log()),
        show_ran(ctx@, path@, line, log::since(old(h).log(), final(h).log()), outcome),
{
    proof {
        reveal(show_ran);
    }
    let ghost before = h.log();
    match h.plugin_root() {
        Ok(root) => {
            let ghost entry = h.log().last();
            let outcome: Result<(), Failure> = show_by_settings(h, ctx, root.as_str(), path, line);
            proof {
                log::lemma_first(before, entry, h.log());
            }
            outcome
        },
        Err(failure) => {
            proof {
                log::lemma_one(before, h.log().last());
            }
            Err(failure)
        },
    }
}

fn show_by_settings<H: Host>(
    h: &mut H,
    ctx: &Ctx,
    root: &str,
    path: &str,
    line: Option<u32>,
) -> (outcome: Result<(), Failure>)
    ensures
        log::extends(old(h).log(), final(h).log()),
        settings_ran(
            ctx@,
            root@,
            path@,
            line,
            log::since(old(h).log(), final(h).log()),
            outcome,
        ),
{
    let ghost before = h.log();
    let config: Config = h.load_config();
    let ghost entry = h.log().last();
    let outcome: Result<(), Failure> = show_by_daemon(h, ctx, root, &config, path, line);
    proof {
        log::lemma_first(before, entry, h.log());
    }
    outcome
}

fn show_by_daemon<H: Host>(
    h: &mut H,
    ctx: &Ctx,
    root: &str,
    config: &Config,
    path: &str,
    line: Option<u32>,
) -> (outcome: Result<(), Failure>)
    ensures
        log::extends(old(h).log(), final(h).log()),
        daemon_ran(
            ctx@,
            root@,
            config@,
            path@,
            line,
            log::since(old(h).log(), final(h).log()),
            outcome,
        ),
{
    let ghost before = h.log();
    match h.ensure_daemon(ctx.tab.as_str(), root, config, ctx.cwd.as_str()) {
        Ok(socket) => {
            let ghost entry = h.log().last();
            let outcome: Result<(), Failure> = show_in_sidebar(
                h,
                ctx,
                socket.as_str(),
                path,
                line,
                &config.sidebar,
            );
            proof {
                log::lemma_first(before, entry, h.log());
            }
            outcome
        },
        Err(failure) => {
            proof {
                log::lemma_one(before, h.log().last());
            }
            Err(failure)
        },
    }
}

fn show_in_sidebar<H: Host>(
    h: &mut H,
    ctx: &Ctx,
    socket: &str,
    path: &str,
    line: Option<u32>,
    settings: &Sidebar,
) -> (outcome: Result<(), Failure>)
    ensures
        log::extends(old(h).log(), final(h).log()),
        sidebar_ran(
            ctx@,
            socket@,
            path@,
            line,
            settings@,
            log::since(old(h).log(), final(h).log()),
            outcome,
        ),
{
    let ghost before = h.log();
    match ensure_sidebar_open(h, ctx) {
        Ok(sidebar) => {
            let ghost middle = h.log();
            let outcome: Result<(), Failure> = load_and_focus(
                h,
                socket,
                path,
                line,
                settings,
                sidebar.as_str(),
            );
            proof {
                log::lemma_split(before, middle, h.log());
                let length = log::since(before, middle).len() as int;
                assert(ensured_in(ctx@, log::since(before, h.log()), length, sidebar));
            }
            outcome
        },
        Err(failure) => Err(failure),
    }
}

fn load_and_focus<H: Host>(
    h: &mut H,
    socket: &str,
    path: &str,
    line: Option<u32>,
    settings: &Sidebar,
    sidebar: &str,
) -> (outcome: Result<(), Failure>)
    ensures
        log::extends(old(h).log(), final(h).log()),
        load_ran(
            socket@,
            path@,
            line,
            settings@,
            sidebar@,
            log::since(old(h).log(), final(h).log()),
            outcome,
        ),
{
    let ghost before = h.log();
    match open_in_nvim(h, socket, path, line, settings) {
        Ok(done) => {
            assert(done == ());
            let ghost middle = h.log();
            focus_pane(h, sidebar);
            proof {
                log::lemma_split(before, middle, h.log());
                let length = log::since(before, middle).len() as int;
                assert(loaded_in(
                    socket@,
                    path@,
                    line,
                    settings@,
                    log::since(before, h.log()),
                    length,
                ));
            }
            Ok(())
        },
        Err(failure) => Err(failure),
    }
}

} // verus!
