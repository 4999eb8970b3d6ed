//! Picking a file that an agent works on.
//!
//! A pick has two phases. The first finds the agent pane that is meant, gathers candidates and
//! opens the picker on a handoff that holds them. The second is started once the user has picked,
//! and opens the chosen file in the sidebar.

use vstd::prelude::*;

use crate::bridge::{self, open_in_sidebar};
use crate::candidates::{self, Candidate, Handoff, HandoffView};
use crate::cli::PLUGIN_ID;
use crate::config::Config;
use crate::context::{self, read_ctx, Ctx, CtxView, Environment};
use crate::failure::{self, Failure};
use crate::gather::{self, gather_candidates};
use crate::herdr::{self, AgentInfo, AgentView, Herdr, PaneScroll, PaneSnapshot};
use crate::host::Host;
use crate::log::{self, Answer, Call, Entry, Exit, Removal};
use crate::text::{self, args, concat, decimal_text, same};

verus! {

/// What follows the first `--finish` of a list of arguments.
pub open spec fn finish_argument(args: Seq<Seq<char>>) -> Option<Seq<char>>
    decreases args.len(),
{
    if args.len() == 0 {
        None
    } else if args[0] == "--finish"@ {
        if args.len() > 1 {
            Some(args[1])
        } else {
            None
        }
    } else {
        finish_argument(args.drop_first())
    }
}

/// Find the handoff that a `--finish <handoff>` pair of arguments names.
pub fn finish_handoff_path(args: &Vec<String>) -> (path: Option<String>)
    ensures
        text::text_of(path) == finish_argument(text::texts(args@)),
{
    let ghost all = text::texts(args@);
    assert(all.skip(0) =~= all);
    for i in 0..args.len()
        invariant
            all == text::texts(args@),
            finish_argument(all) == finish_argument(all.skip(i as int)),
    {
        assert(all.skip(i as int).drop_first() =~= all.skip(i + 1));
        assert(all.skip(i as int)[0] == args@[i as int]@);
        if same(args[i].as_str(), "--finish") {
            if args.len() - i > 1 {
                assert(all.skip(i as int)[1] == args@[i + 1]@);
                return Some(args[i + 1].clone());
            }
            return None;
        }
    }
    None
}

/// How many lines to read of a pane: as many as configured, but no more than herdr can serve
/// without moving the program in it. Where the scrolling is not known, as many as configured.
pub open spec fn scan_lines(configured: u32, scroll: Option<PaneScroll>) -> u32 {
    match scroll {
        Some(scroll) => if configured <= scroll.held_lines() {
            configured
        } else {
            scroll.held_lines() as u32
        },
        None => configured,
    }
}

/// Tell how many lines to read of a pane. This is never more than configured, nor more than herdr
/// can serve cheaply.
pub fn effective_scan_lines(configured: u32, scroll: Option<PaneScroll>) -> (lines: u32)
    ensures
        lines == scan_lines(configured, scroll),
        lines <= configured,
        scroll matches Some(scroll) ==> lines <= scroll.held_lines(),
{
    match scroll {
        Some(scroll) => {
            let limit: u32 = scroll.cheap_read_limit();
            if configured <= limit {
                configured
            } else {
                limit
            }
        },
        None => configured,
    }
}

/// The first agent of a list in a pane.
pub open spec fn agent_at(agents: Seq<AgentView>, pane: Seq<char>) -> Option<AgentView>
    decreases agents.len(),
{
    if agents.len() == 0 {
        None
    } else if agents[0].pane_id == pane {
        Some(agents[0])
    } else {
        agent_at(agents.drop_first(), pane)
    }
}

/// The first agent of a list in a tab.
pub open spec fn agent_in_tab(agents: Seq<AgentView>, tab: Seq<char>) -> Option<AgentView>
    decreases agents.len(),
{
    if agents.len() == 0 {
        None
    } else if agents[0].tab_id == tab {
        Some(agents[0])
    } else {
        agent_in_tab(agents.drop_first(), tab)
    }
}

/// The pane of the agent that is meant: the focused one, or else one in the same tab, or else the
/// first.
pub open spec fn chosen_agent(
    agents: Seq<AgentView>,
    tab: Seq<char>,
    focused: Seq<char>,
) -> Option<Seq<char>> {
    match agent_at(agents, focused) {
        Some(agent) => Some(agent.pane_id),
        None => match agent_in_tab(agents, tab) {
            Some(agent) => Some(agent.pane_id),
            None => if agents.len() > 0 {
                Some(agents[0].pane_id)
            } else {
                None
            },
        },
    }
}

fn find_agent_at(agents: &Vec<AgentInfo>, pane: &str) -> (found: Option<usize>)
    ensures
        match found {
            Some(i) => i < agents@.len() && agent_at(herdr::agents_of(agents@), pane@) == Some(
                agents@[i as int]@,
            ),
            None => agent_at(herdr::agents_of(agents@), pane@) is None,
        },
{
    let ghost all = herdr::agents_of(agents@);
    assert(all.skip(0) =~= all);
    for i in 0..agents.len()
        invariant
            all == herdr::agents_of(agents@),
            agent_at(all, pane@) == agent_at(all.skip(i as int), pane@),
    {
        assert(all.skip(i as int).drop_first() =~= all.skip(i + 1));
        assert(all.skip(i as int)[0] == agents@[i as int]@);
        if same(agents[i].pane_id.as_str(), pane) {
            return Some(i);
        }
    }
    None
}

fn find_agent_in_tab(agents: &Vec<AgentInfo>, tab: &str) -> (found: Option<usize>)
    ensures
        match found {
            Some(i) => i < agents@.len() && agent_in_tab(herdr::agents_of(agents@), tab@) == Some(
                agents@[i as int]@,
            ),
            None => agent_in_tab(herdr::agents_of(agents@), tab@) is None,
        },
{
    let ghost all = herdr::agents_of(agents@);
    assert(all.skip(0) =~= all);
    for i in 0..agents.len()
        invariant
            all == herdr::agents_of(agents@),
            agent_in_tab(all, tab@) == agent_in_tab(all.skip(i as int), tab@),
    {
        assert(all.skip(i as int).drop_first() =~= all.skip(i + 1));
        assert(all.skip(i as int)[0] == agents@[i as int]@);
        if same(agents[i].tab_id.as_str(), tab) {
            return Some(i);
        }
    }
    None
}

/// Choose the agent that is meant by where the user is.
pub fn select_agent(agents: &Vec<AgentInfo>, tab: &str, focused: &str) -> (pane: Option<String>)
    ensures
        text::text_of(pane) == chosen_agent(herdr::agents_of(agents@), tab@, focused@),
{
    match find_agent_at(agents, focused) {
        Some(i) => Some(agents[i].pane_id.clone()),
        None => match find_agent_in_tab(agents, tab) {
            Some(i) => Some(agents[i].pane_id.clone()),
            None => if agents.len() > 0 {
                Some(agents[0].pane_id.clone())
            } else {
                None
            },
        },
    }
}

/// The conversation of a search for the agent that is meant.
pub open spec fn target_ran(
    workspace: Seq<char>,
    tab: Seq<char>,
    focused: Seq<char>,
    talk: Seq<Entry>,
    outcome: Result<String, Failure>,
) -> bool {
    &&& talk.len() == 1
    &&& talk[0].call == (Call::Agents { workspace })
    &&& match talk[0].answer {
        Answer::Agents(agents) => match chosen_agent(herdr::agents_of(agents@), tab, focused) {
            Some(pane) => outcome is Ok && outcome->Ok_0@ == pane,
            None => outcome is Err && failure::report(outcome->Err_0)
                == "no agent panes found in workspace "@ + workspace,
        },
        _ => log::stops(talk, outcome),
    }
}

/// Find the agent pane that is meant by where the user is.
pub fn target_agent_pane<H: Herdr>(
    h: &mut H,
    workspace: &str,
    tab: &str,
    focused: &str,
) -> (outcome:
    Result<String, Failure>)
    ensures
        log::extends(old(h).log(), final(h).log()),
        target_ran(
            workspace@,
            tab@,
            focused@,
            log::since(old(h).log(), final(h).log()),
            outcome,
        ),
{
    let ghost before = h.log();
    let answer: Result<Vec<AgentInfo>, Failure> = h.agents(workspace);
    proof {
        log::lemma_one(before, h.log().last());
    }
    match answer {
        Ok(agents) => match select_agent(&agents, tab, focused) {
            Some(pane) => Ok(pane),
            None => Err(Failure::NoAgents { workspace: workspace.to_owned() }),
        },
        Err(failure) => Err(failure),
    }
}

/// Opening the picker on a handoff.
pub open spec fn picker_args(handoff: Seq<char>) -> Seq<Seq<char>> {
    seq![
        "plugin"@,
        "pane"@,
        "open"@,
        "--plugin"@,
        PLUGIN_ID@,
        "--entrypoint"@,
        "picker"@,
        "--placement"@,
        "popup"@,
        "--width"@,
        "80"@,
        "--height"@,
        "20"@,
        "--env"@,
        "HERDR_NVIM_HANDOFF="@ + handoff,
    ]
}

/// How the status of a finished program is written.
pub open spec fn status_of(exit: Exit) -> Seq<char> {
    match exit {
        Exit::NotStarted { .. } => Seq::empty(),
        Exit::Finished { status, .. } => status@,
    }
}

/// The conversation of opening the picker.
pub open spec fn picker_ran(
    handoff: Seq<char>,
    talk: Seq<Entry>,
    outcome: Result<(), Failure>,
) -> bool {
    &&& talk.len() == 1
    &&& talk[0].call == (Call::HerdrStatus { args: picker_args(handoff), quiet: false })
    &&& talk[0].answer is Exit
    &&& failure::told_done(
        outcome,
        bridge::ended(
            talk[0].answer->Exit_0,
            "herdr plugin pane open"@,
            "herdr plugin pane open failed (exit "@ + status_of(talk[0].answer->Exit_0) + ")"@,
        ),
    )
}

/// Open the picker on a handoff.
pub fn open_picker<H: Host>(h: &mut H, handoff: &str) -> (outcome: Result<(), Failure>)
    ensures
        log::extends(old(h).log(), final(h).log()),
        picker_ran(handoff@, log::since(old(h).log(), final(h).log()), outcome),
{
    let ghost before = h.log();
    let variable: String = concat("HERDR_NVIM_HANDOFF=", handoff);
    let command: Vec<String> = args(
        &[
            "plugin",
            "pane",
            "open",
            "--plugin",
            PLUGIN_ID,
            "--entrypoint",
            "picker",
            "--placement",
            "popup",
            "--width",
            "80",
            "--height",
            "20",
            "--env",
            variable.as_str(),
        ],
    );
    assert(text::texts(command@) =~= picker_args(handoff@));
    let exit: Exit = h.herdr_status(&command, false);
    proof {
        log::lemma_one(before, h.log().last());
    }
    match exit {
        Exit::NotStarted { reason } => Err(
            Failure::NotStarted { command: "herdr plugin pane open".to_owned(), reason },
        ),
        Exit::Finished { success, status } => if success {
            Ok(())
        } else {
            Err(Failure::PickerFailed { status })
        },
    }
}

/// Telling the user that there is nothing to pick.
pub open spec fn notify_args() -> Seq<Seq<char>> {
    seq![
        "notification"@,
        "show"@,
        "herdr-nvim"@,
        "--body"@,
        "No file paths found in agent output"@,
    ]
}

/// Whether a program ran and succeeded.
pub open spec fn succeeded(exit: Exit) -> bool {
    match exit {
        Exit::NotStarted { .. } => false,
        Exit::Finished { success, .. } => success,
    }
}

/// The conversation of telling the user that there is nothing to pick: by a notification, and
/// where that cannot be shown on the error stream.
pub open spec fn notify_ran(talk: Seq<Entry>) -> bool {
    &&& log::asks(talk, Call::HerdrStatus { args: notify_args(), quiet: false })
    &&& talk[0].answer is Exit
    &&& if succeeded(talk[0].answer->Exit_0) {
        talk.len() == 1
    } else {
        &&& talk.len() == 2
        &&& talk[1].call == (Call::Warn {
            text: "herdr-nvim: no file paths found in agent output"@,
        })
    }
}

/// Tell the user that there is nothing to pick.
pub fn notify_no_candidates<H: Host>(h: &mut H)
    ensures
        log::extends(old(h).log(), final(h).log()),
        notify_ran(log::since(old(h).log(), final(h).log())),
{
    let ghost before = h.log();
    let command: Vec<String> = args(
        &["notification", "show", "herdr-nvim", "--body", "No file paths found in agent output"],
    );
    assert(text::texts(command@) =~= notify_args());
    let exit: Exit = h.herdr_status(&command, false);
    let ghost asked = h.log();
    proof {
        log::lemma_one(before, asked.last());
    }
    let shown: bool = match exit {
        Exit::NotStarted { reason: _ } => false,
        Exit::Finished { success, status: _ } => success,
    };
    if !shown {
        h.warn("herdr-nvim: no file paths found in agent output");
        proof {
            log::lemma_since_push(before, asked, h.log().last());
        }
    }
}

/// The conversation of removing a handoff. That it is gone already is fine.
pub open spec fn cleanup_ran(path: Seq<char>, talk: Seq<Entry>) -> bool {
    &&& log::asks(talk, Call::RemoveFile { path })
    &&& match talk[0].answer {
        Answer::Removal(Removal::Refused { reason }) => {
            &&& talk.len() == 2
            &&& talk[1].call == (Call::Warn {
                text: "herdr-nvim: could not remove handoff "@ + path + ": "@ + reason@,
            })
        },
        Answer::Removal(_) => talk.len() == 1,
        _ => false,
    }
}

/// Remove a handoff.
pub fn cleanup_handoff<H: Host>(h: &mut H, path: &str)
    ensures
        log::extends(old(h).log(), final(h).log()),
        cleanup_ran(path@, log::since(old(h).log(), final(h).log())),
{
    let ghost before = h.log();
    let removal: Removal = h.remove_file(path);
    let ghost asked = h.log();
    proof {
        log::lemma_one(before, asked.last());
    }
    match removal {
        Removal::Refused { reason } => {
            let start: String = concat("herdr-nvim: could not remove handoff ", path);
            h.warn(concat(&concat(&start, ": "), &reason).as_str());
            proof {
                log::lemma_since_push(before, asked, h.log().last());
            }
        },
        Removal::Removed | Removal::Missing => {},
    }
}

/// The handoff that a pick offers its candidates on.
pub open spec fn offered(
    ctx: CtxView,
    config: Config,
    cwd: Seq<char>,
    found: Seq<Candidate>,
) -> HandoffView {
    HandoffView {
        candidates: candidates::candidates_of(found),
        chosen: None,
        workspace: ctx.workspace,
        tab: ctx.tab,
        focused_pane: ctx.focused_pane,
        cwd,
        max_files: config.picker.max_files,
    }
}

/// The conversation of the first phase of a pick: first it is read where it was started.
pub open spec fn start_ran(
    environment: Environment,
    talk: Seq<Entry>,
    outcome: Result<(), Failure>,
) -> bool {
    ||| outcome is Err && context::read_ran(
        environment,
        talk,
        Err::<Ctx, Failure>(outcome->Err_0),
    )
    ||| exists|length: int, ctx: Ctx|
        {
            &&& #[trigger] context::read_in(environment, talk, length, ctx)
            &&& settings_ran(ctx@, talk.skip(length), outcome)
        }
}

/// The conversation of the first phase of a pick from the settings on.
pub open spec fn settings_ran(
    ctx: CtxView,
    talk: Seq<Entry>,
    outcome: Result<(), Failure>,
) -> bool {
    &&& log::asks(talk, Call::LoadConfig)
    &&& talk[0].answer is Settings
    &&& agent_ran(ctx, talk[0].answer->Settings_0, talk.skip(1), outcome)
}

/// The conversation of the first phase of a pick from the search for the agent on.
pub open spec fn agent_ran(
    ctx: CtxView,
    config: Config,
    talk: Seq<Entry>,
    outcome: Result<(), Failure>,
) -> bool {
    ||| outcome is Err && target_ran(
        ctx.workspace,
        ctx.tab,
        ctx.focused_pane,
        talk,
        Err::<String, Failure>(outcome->Err_0),
    )
    ||| exists|pane: String|
        {
            &&& talk.len() > 0
            &&& #[trigger] target_ran(
                ctx.workspace,
                ctx.tab,
                ctx.focused_pane,
                talk.take(1),
                Ok::<String, Failure>(pane),
            )
            &&& inspect_ran(ctx, config, pane@, talk.skip(1), outcome)
        }
}

/// The conversation of the first phase of a pick from the look at the agent's pane on.
pub open spec fn inspect_ran(
    ctx: CtxView,
    config: Config,
    pane: Seq<char>,
    talk: Seq<Entry>,
    outcome: Result<(), Failure>,
) -> bool {
    log::asks(talk, Call::PaneSnapshot { pane }) && match talk[0].answer {
        Answer::Snapshot(snapshot) => screen_ran(
            ctx,
            config,
            pane,
            snapshot,
            talk.skip(1),
            outcome,
        ),
        _ => log::stops(talk, outcome),
    }
}

/// The conversation of the first phase of a pick from the agent's screen on.
pub open spec fn screen_ran(
    ctx: CtxView,
    config: Config,
    pane: Seq<char>,
    snapshot: PaneSnapshot,
    talk: Seq<Entry>,
    outcome: Result<(), Failure>,
) -> bool {
    log::asks(
        talk,
        Call::ReadPane { pane, lines: scan_lines(config.picker.scan_lines, snapshot.scroll) },
    ) && match talk[0].answer {
        Answer::Text(screen) => collect_ran(
            ctx,
            config,
            snapshot,
            screen@,
            talk.skip(1),
            outcome,
        ),
        _ => log::stops(talk, outcome),
    }
}

/// Whether the first `length` exchanges gather these candidates.
pub open spec fn gathered_in(
    snapshot: PaneSnapshot,
    screen: Seq<char>,
    talk: Seq<Entry>,
    length: int,
    found: Seq<Candidate>,
) -> bool {
    &&& 0 <= length <= talk.len()
    &&& gather::gather_ran(
        herdr::session_of(snapshot.agent_session),
        screen,
        snapshot.cwd@,
        talk.take(length),
        found,
    )
}

/// The conversation of the first phase of a pick from the gathering of candidates on.
pub open spec fn collect_ran(
    ctx: CtxView,
    config: Config,
    snapshot: PaneSnapshot,
    screen: Seq<char>,
    talk: Seq<Entry>,
    outcome: Result<(), Failure>,
) -> bool {
    exists|length: int, found: Seq<Candidate>|
        {
            &&& #[trigger] gathered_in(snapshot, screen, talk, length, found)
            &&& offer_ran(ctx, config, snapshot.cwd@, found, talk.skip(length), outcome)
        }
}

/// The conversation of offering candidates. That there are none is not a failure.
pub open spec fn offer_ran(
    ctx: CtxView,
    config: Config,
    cwd: Seq<char>,
    found: Seq<Candidate>,
    talk: Seq<Entry>,
    outcome: Result<(), Failure>,
) -> bool {
    if found.len() == 0 {
        notify_ran(talk) && outcome is Ok
    } else {
        log::asks(talk, Call::WriteHandoff { handoff: offered(ctx, config, cwd, found) })
            && match talk[0].answer {
            Answer::Text(path) => picker_ran(path@, talk.skip(1), outcome),
            _ => log::stops(talk, outcome),
        }
    }
}

/// The first phase of a pick: gather candidates from the agent that is meant and offer them.
pub fn start_pick<H: Host>(h: &mut H, environment: &Environment) -> (outcome: Result<(), Failure>)
    ensures
        log::extends(old(h).log(), final(h).log()),
        start_ran(*environment, log::since(old(h).log(), final(h).log()), outcome),
{
    let ghost before = h.log();
    match read_ctx(h, environment) {
        Ok(ctx) => {
            let ghost middle = h.log();
            let config: Config = h.load_config();
            let ghost entry = h.log().last();
            let outcome: Result<(), Failure> = pick_from_agent(h, &ctx, &config);
            proof {
                log::lemma_first(middle, entry, h.log());
                log::lemma_split(before, middle, h.log());
                let length = log::since(before, middle).len() as int;
                assert(context::read_in(*environment, log::since(before, h.log()), length, ctx));
            }
            outcome
        },
        Err(failure) => Err(failure),
    }
}

fn pick_from_agent<H: Host>(h: &mut H, ctx: &Ctx, config: &Config) -> (outcome: Result<(), Failure>)
    ensures
        log::extends(old(h).log(), final(h).log()),
        agent_ran(ctx@, *config, log::since(old(h).log(), final(h).log()), outcome),
{
    let ghost before = h.log();
    match target_agent_pane(
        h,
        ctx.workspace.as_str(),
        ctx.tab.as_str(),
        ctx.focused_pane.as_str(),
    ) {
        Ok(pane) => {
            let ghost middle = h.log();
            let outcome: Result<(), Failure> = pick_from_pane(h, ctx, config, pane.as_str());
            proof {
                log::lemma_split(before, middle, h.log());
                let talk = log::since(before, h.log());
                assert(target_ran(
                    ctx@.workspace,
                    ctx@.tab,
                    ctx@.focused_pane,
                    talk.take(1),
                    Ok::<String, Failure>(pane),
                ));
            }
            outcome
        },
        Err(failure) => Err(failure),
    }
}

fn pick_from_pane<H: Host>(
    h: &mut H,
    ctx: &Ctx,
    config: &Config,
    pane: &str,
) -> (outcome: Result<(), Failure>)
    ensures
        log::extends(old(h).log(), final(h).log()),
        inspect_ran(ctx@, *config, pane@, log::since(old(h).log(), final(h).log()), outcome),
{
    let ghost before = h.log();
    match h.pane_snapshot(pane) {
        Ok(snapshot) => {
            let ghost entry = h.log().last();
            let outcome: Result<(), Failure> = pick_from_screen(h, ctx, config, pane, &snapshot);
            proof {
                log::lemma_first(before, entry, h.log());
            }
            outcome
        },
        Err(failure) => {
            proof {
                log::lemma_one(before, h.log().last());
            }
            Err(failure)
        },
    }
}

fn pick_from_screen<H: Host>(
    h: &mut H,
    ctx: &Ctx,
    config: &Config,
    pane: &str,
    snapshot: &PaneSnapshot,
) -> (outcome: Result<(), Failure>)
    ensures
        log::extends(old(h).log(), final(h).log()),
        screen_ran(
            ctx@,
            *config,
            pane@,
            *snapshot,
            log::since(old(h).log(), final(h).log()),
            outcome,
        ),
{
    let ghost before = h.log();
    let lines: u32 = effective_scan_lines(config.picker.scan_lines, snapshot.scroll);
    match h.read_pane(pane, lines) {
        Ok(screen) => {
            let ghost entry = h.log().last();
            let outcome: Result<(), Failure> = pick_from_text(
                h,
                ctx,
                config,
                snapshot,
                screen.as_str(),
            );
            proof {
                log::lemma_first(before, entry, h.log());
            }
            outcome
        },
        Err(failure) => {
            proof {
                log::lemma_one(before, h.log().last());
            }
            Err(failure)
        },
    }
}

fn pick_from_text<H: Host>(
    h: &mut H,
    ctx: &Ctx,
    config: &Config,
    snapshot: &PaneSnapshot,
    screen: &str,
) -> (outcome: Result<(), Failure>)
    ensures
        log::extends(old(h).log(), final(h).log()),
        collect_ran(
            ctx@,
            *config,
            *snapshot,
            screen@,
            log::since(old(h).log(), final(h).log()),
            outcome,
        ),
{
    let ghost before = h.log();
    let found: Vec<Candidate> = gather_candidates(
        h,
        &snapshot.agent_session,
        screen,
        snapshot.cwd.as_str(),
    );
    let ghost middle = h.log();
    let ghost gathered = found@;
    let outcome: Result<(), Failure> = offer(h, ctx, config, snapshot.cwd.as_str(), found);
    proof {
        log::lemma_split(before, middle, h.log());
        let length = log::since(before, middle).len() as int;
        assert(gathered_in(*snapshot, screen@, log::since(before, h.log()), length, gathered));
    }
    outcome
}

fn offer<H: Host>(
    h: &mut H,
    ctx: &Ctx,
    config: &Config,
    cwd: &str,
    found: Vec<Candidate>,
) -> (outcome: Result<(), Failure>)
    ensures
        log::extends(old(h).log(), final(h).log()),
        offer_ran(
            ctx@,
            *config,
            cwd@,
            found@,
            log::since(old(h).log(), final(h).log()),
            outcome,
        ),
{
    let ghost before = h.log();
    if found.len() == 0 {
        notify_no_candidates(h);
        return Ok(());
    }
    let handoff: Handoff = Handoff {
        candidates: found,
        chosen: None,
        workspace: ctx.workspace.clone(),
        tab: ctx.tab.clone(),
        focused_pane: ctx.focused_pane.clone(),
        cwd: cwd.to_owned(),
        max_files: config.picker.max_files,
    };
    match h.write_handoff(&handoff) {
        Ok(path) => {
            let ghost entry = h.log().last();
            let outcome: Result<(), Failure> = open_picker(h, path.as_str());
            proof {
                log::lemma_first(before, entry, h.log());
            }
            outcome
        },
        Err(failure) => {
            proof {
                log::lemma_one(before, h.log().last());
            }
            Err(failure)
        },
    }
}

/// Where the file that was picked is to be opened.
pub open spec fn picked_ctx(handoff: HandoffView) -> CtxView {
    CtxView {
        workspace: handoff.workspace,
        tab: handoff.tab,
        focused_pane: handoff.focused_pane,
        cwd: handoff.cwd,
    }
}

/// The conversation of the second phase of a pick: first the handoff is read. Without a choice it
/// is only removed.
pub open spec fn finish_ran(
    path: Seq<char>,
    talk: Seq<Entry>,
    outcome: Result<(), Failure>,
) -> bool {
    log::asks(talk, Call::ReadHandoff { path }) && match talk[0].answer {
        Answer::Handoff(handoff) => match handoff.chosen {
            None => cleanup_ran(path, talk.skip(1)) && outcome is Ok,
            Some(chosen) => if chosen < handoff.candidates@.len() {
                open_chosen_ran(handoff@, chosen as int, path, talk.skip(1), outcome)
            } else {
                talk.len() == 1 && outcome == Err::<(), Failure>(
                    Failure::ChosenOutOfRange { chosen },
                )
            },
        },
        _ => log::stops(talk, outcome),
    }
}

/// Whether the first `length` exchanges open a file in the sidebar.
pub open spec fn shown_in(
    ctx: CtxView,
    file: Seq<char>,
    line: Option<u32>,
    talk: Seq<Entry>,
    length: int,
) -> bool {
    &&& 0 <= length <= talk.len()
    &&& bridge::show_ran(ctx, file, line, talk.take(length), Ok::<(), Failure>(()))
}

/// The conversation of opening the file that was chosen, after which the handoff is removed.
pub open spec fn open_chosen_ran(
    handoff: HandoffView,
    chosen: int,
    path: Seq<char>,
    talk: Seq<Entry>,
    outcome: Result<(), Failure>,
) -> bool {
    let ctx = picked_ctx(handoff);
    let candidate = handoff.candidates[chosen];
    ||| outcome is Err && bridge::show_ran(ctx, candidate.path, candidate.line, talk, outcome)
    ||| outcome is Ok && exists|length: int|
        {
            &&& #[trigger] shown_in(ctx, candidate.path, candidate.line, talk, length)
            &&& cleanup_ran(path, talk.skip(length))
        }
}

/// The second phase of a pick: open the file that was chosen.
pub fn finish_pick<H: Host>(h: &mut H, path: &str) -> (outcome: Result<(), Failure>)
    ensures
        log::extends(old(h).log(), final(h).log()),
        finish_ran(path@, log::since(old(h).log(), final(h).log()), outcome),
{
    let ghost before = h.log();
    let handoff: Handoff = match h.read_handoff(path) {
        Ok(handoff) => handoff,
        Err(failure) => {
            proof {
                log::lemma_one(before, h.log().last());
            }
            return Err(failure);
        },
    };
    let ghost entry = h.log().last();
    proof {
        log::lemma_one(before, entry);
    }
    let outcome: Result<(), Failure> = match handoff.chosen {
        None => {
            cleanup_handoff(h, path);
            Ok(())
        },
        Some(chosen) => {
            if chosen >= handoff.candidates.len() {
                return Err(Failure::ChosenOutOfRange { chosen });
            }
            open_chosen(h, &handoff, chosen, path)
        },
    };
    proof {
        log::lemma_first(before, entry, h.log());
    }
    outcome
}

fn open_chosen<H: Host>(
    h: &mut H,
    handoff: &Handoff,
    chosen: usize,
    path: &str,
) -> (outcome: Result<(), Failure>)
    requires
        chosen < handoff.candidates@.len(),
    ensures
        log::extends(old(h).log(), final(h).log()),
        open_chosen_ran(
            handoff@,
            chosen as int,
            path@,
            log::since(old(h).log(), final(h).log()),
            outcome,
        ),
{
    let ghost before = h.log();
    let ctx: Ctx = Ctx {
        workspace: handoff.workspace.clone(),
        tab: handoff.tab.clone(),
        focused_pane: handoff.focused_pane.clone(),
        cwd: handoff.cwd.clone(),
    };
    let candidate: &Candidate = &handoff.candidates[chosen];
    assert(handoff@.candidates[chosen as int] == candidate@);
    assert(ctx@ == picked_ctx(handoff@));
    match open_in_sidebar(h, &ctx, candidate.path.as_str(), candidate.line) {
        Ok(done) => {
            assert(done == ());
            let ghost middle = h.log();
            cleanup_handoff(h, path);
            proof {
                log::lemma_split(before, middle, h.log());
                let length = log::since(before, middle).len() as int;
                assert(shown_in(
                    ctx@,
                    candidate@.path,
                    candidate.line,
                    log::since(before, h.log()),
                    length,
                ));
            }
            Ok(())
        },
        Err(failure) => Err(failure),
    }
}

/// The conversation of the pick command.
pub open spec fn pick_ran(
    args: Seq<Seq<char>>,
    environment: Environment,
    talk: Seq<Entry>,
    outcome: Result<(), Failure>,
) -> bool {
    match finish_argument(args) {
        Some(path) => finish_ran(path, talk, outcome),
        None => start_ran(environment, talk, outcome),
    }
}

/// The pick command: its second phase where a handoff is to be finished, and its first otherwise.
pub fn pick_file_cmd<H: Host>(h: &mut H, args: &Vec<String>, environment: &Environment) -> (outcome:
    Result<(), Failure>)
    ensures
        log::extends(old(h).log(), final(h).log()),
        pick_ran(
            text::texts(args@),
            *environment,
            log::since(old(h).log(), final(h).log()),
            outcome,
        ),
{
    match finish_handoff_path(args) {
        Some(path) => finish_pick(h, path.as_str()),
        None => start_pick(h, environment),
    }
}

/// The name of the file that a process writes a handoff to at a time.
pub open spec fn handoff_named(process: u32, nanos: u128) -> Seq<char> {
    "herdr-nvim-handoff-"@ + text::decimal(process as nat) + "-"@ + text::decimal(nanos as nat)
        + ".json"@
}

/// The name of the file that a handoff is written to, by the process and the time.
pub fn handoff_name(process: u32, nanos: u128) -> (name: String)
    ensures
        name@ == handoff_named(process, nanos),
{
    let start: String = concat("herdr-nvim-handoff-", &decimal_text(process as u128));
    concat(&concat(&concat(&start, "-"), &decimal_text(nanos)), ".json")
}

/// The agent that the user is in is the one that is meant.
pub proof fn focused_agent_is_chosen(
    agents: Seq<AgentView>,
    tab: Seq<char>,
    focused: Seq<char>,
    i: int,
)
    requires
        0 <= i < agents.len(),
        agents[i].pane_id == focused,
    ensures
        chosen_agent(agents, tab, focused) == Some(focused),
{
    lemma_agent_at(agents, focused, i);
}

proof fn lemma_agent_at(agents: Seq<AgentView>, pane: Seq<char>, i: int)
    requires
        0 <= i < agents.len(),
        agents[i].pane_id == pane,
    ensures
        agent_at(agents, pane) is Some,
        agent_at(agents, pane)->0.pane_id == pane,
    decreases agents.len(),
{
    if agents[0].pane_id != pane {
        assert(agents.drop_first()[i - 1] == agents[i]);
        lemma_agent_at(agents.drop_first(), pane, i - 1);
    }
}

/// Where the user is in no agent but an agent shares the tab, one that shares the tab is meant,
/// whatever else is in the workspace.
pub proof fn agent_of_the_tab_is_preferred(
    agents: Seq<AgentView>,
    tab: Seq<char>,
    focused: Seq<char>,
    i: int,
)
    requires
        forall|j: int| 0 <= j < agents.len() ==> (#[trigger] agents[j]).pane_id != focused,
        0 <= i < agents.len(),
        agents[i].tab_id == tab,
    ensures
        exists|j: int|
            0 <= j < agents.len() && (#[trigger] agents[j]).tab_id == tab && chosen_agent(
                agents,
                tab,
                focused,
            ) == Some(agents[j].pane_id),
{
    lemma_no_agent_at(agents, focused);
    let j = lemma_agent_in_tab(agents, tab, i);
    assert(agents[j].tab_id == tab);
}

proof fn lemma_no_agent_at(agents: Seq<AgentView>, pane: Seq<char>)
    requires
        forall|j: int| 0 <= j < agents.len() ==> (#[trigger] agents[j]).pane_id != pane,
    ensures
        agent_at(agents, pane) is None,
    decreases agents.len(),
{
    if agents.len() > 0 {
        assert forall|j: int| 0 <= j < agents.drop_first().len() implies (
        #[trigger] agents.drop_first()[j]).pane_id != pane by {
            assert(agents.drop_first()[j] == agents[j + 1]);
        }
        lemma_no_agent_at(agents.drop_first(), pane);
    }
}

proof fn lemma_agent_in_tab(agents: Seq<AgentView>, tab: Seq<char>, i: int) -> (j: int)
    requires
        0 <= i < agents.len(),
        agents[i].tab_id == tab,
    ensures
        0 <= j < agents.len(),
        agents[j].tab_id == tab,
        agent_in_tab(agents, tab) == Some(agents[j]),
    decreases agents.len(),
{
    if agents[0].tab_id == tab {
        0
    } else {
        assert(agents.drop_first()[i - 1] == agents[i]);
        lemma_agent_in_tab(agents.drop_first(), tab, i - 1) + 1
    }
}

/// An agent is found wherever the workspace has one.
pub proof fn some_agent_is_chosen(agents: Seq<AgentView>, tab: Seq<char>, focused: Seq<char>)
    ensures
        chosen_agent(agents, tab, focused) is Some <==> agents.len() > 0,
{
}

} // verus!
