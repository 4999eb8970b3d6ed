//! What is reported where something goes wrong.

use vstd::prelude::*;

use crate::bridge;
use crate::cli::{self, Output};
use crate::command;
use crate::config::SidebarView;
use crate::context::{self, Environment};
use crate::failure::{self, Failure};
use crate::herdr::{self, AgentView, RectView};
use crate::json::{self, Document};
use crate::log::{Answer, Call, Entry, Exit, Removal};
use crate::maneuver;
use crate::openlink;
use crate::pick;
use crate::showing_laws;
use crate::text;
use crate::utf8;

verus! {

/// Whether a part stands at this place of a text.
pub open spec fn stands_at(whole: Seq<char>, part: Seq<char>, start: int) -> bool {
    &&& 0 <= start
    &&& start + part.len() <= whole.len()
    &&& whole.subrange(start, start + part.len()) == part
}

/// Whether a text has a part.
pub open spec fn names(whole: Seq<char>, part: Seq<char>) -> bool {
    exists|start: int| stands_at(whole, part, start)
}

/// Whether a text ends with a part.
pub open spec fn ends_with(whole: Seq<char>, part: Seq<char>) -> bool {
    stands_at(whole, part, whole.len() - part.len())
}

pub proof fn lemma_between(before: Seq<char>, part: Seq<char>, after: Seq<char>)
    ensures
        names(before + part + after, part),
{
    let whole = before + part + after;
    assert(whole.subrange(before.len() as int, (before.len() + part.len()) as int) =~= part);
    assert(stands_at(whole, part, before.len() as int));
}

pub proof fn lemma_at_end(before: Seq<char>, part: Seq<char>)
    ensures
        ends_with(before + part, part),
        names(before + part, part),
{
    let whole = before + part;
    assert(whole.subrange(whole.len() - part.len(), whole.len() as int) =~= part);
    assert(stands_at(whole, part, whole.len() - part.len()));
}

proof fn lemma_at_start(part: Seq<char>, after: Seq<char>)
    ensures
        part.is_prefix_of(part + after),
        names(part + after, part),
{
    let whole = part + after;
    assert(part =~= whole.subrange(0, part.len() as int));
    assert(stands_at(whole, part, 0));
}

/// The report of a failure names what the failure is about: the variable and why it is missing, the
/// place in a reply, the tab, the workspace, the command and what came of it, the argument, the
/// line and the file.
pub proof fn reports_name_what_they_are_about(failure: Failure)
    ensures
        ({
            let report = failure::report(failure);
            match failure {
                Failure::NotSet { variable, reason } => variable@.is_prefix_of(report)
                    && ends_with(report, reason@),
                Failure::InvalidContext { reason } => ends_with(report, reason@),
                Failure::InvalidLayout { reason } => ends_with(report, reason@),
                Failure::NoString { pointer } => ends_with(report, pointer@),
                Failure::NoInteger { pointer } => ends_with(report, pointer@),
                Failure::IntegerTooLarge { pointer } => names(report, pointer@),
                Failure::EmptyTab { tab } => names(report, tab@),
                Failure::NoAgents { workspace } => ends_with(report, workspace@),
                Failure::NotStarted { command, reason } => names(report, command@) && ends_with(
                    report,
                    reason@,
                ),
                Failure::CommandFailed { command, stderr } => command@.is_prefix_of(report)
                    && ends_with(report, stderr@),
                Failure::InvalidReply { arguments, reason } => names(report, arguments@)
                    && ends_with(report, reason@),
                Failure::ChosenOutOfRange { chosen } => names(
                    report,
                    text::decimal(chosen as nat),
                ),
                Failure::NotALine { argument } => ends_with(report, argument@),
                Failure::NotAFile { path } => ends_with(report, path@),
                Failure::NvimOpen { path } => ends_with(report, path@),
                Failure::NvimJump { line, path } => names(report, text::decimal(line as nat))
                    && ends_with(report, path@),
                Failure::PickerFailed { status } => names(report, status@),
                Failure::Unscripted { operation } => ends_with(report, operation@),
                Failure::Other { reason } => report == reason@,
                _ => true,
            }
        }),
{
    match failure {
        Failure::NotSet { variable, reason } => {
            lemma_at_end(variable@ + " is not set: "@, reason@);
            lemma_at_start(variable@, " is not set: "@ + reason@);
            assert(variable@ + " is not set: "@ + reason@ =~= variable@ + (" is not set: "@
                + reason@));
        },
        Failure::InvalidContext { reason } => lemma_at_end(
            "invalid HERDR_PLUGIN_CONTEXT_JSON: "@,
            reason@,
        ),
        Failure::InvalidLayout { reason } => lemma_at_end("invalid pane layout JSON: "@, reason@),
        Failure::NoString { pointer } => lemma_at_end(
            "JSON response missing string at "@,
            pointer@,
        ),
        Failure::NoInteger { pointer } => lemma_at_end(
            "JSON response missing unsigned integer at "@,
            pointer@,
        ),
        Failure::IntegerTooLarge { pointer } => lemma_between(
            "integer at "@,
            pointer@,
            " does not fit in u32: out of range integral type conversion attempted"@,
        ),
        Failure::EmptyTab { tab } => lemma_between("tab "@, tab@, " has no live panes"@),
        Failure::NoAgents { workspace } => lemma_at_end(
            "no agent panes found in workspace "@,
            workspace@,
        ),
        Failure::NotStarted { command, reason } => {
            lemma_at_end("failed to run "@ + command@ + ": "@, reason@);
            lemma_between("failed to run "@, command@, ": "@ + reason@);
            assert("failed to run "@ + command@ + ": "@ + reason@ =~= "failed to run "@ + command@
                + (": "@ + reason@));
        },
        Failure::CommandFailed { command, stderr } => {
            lemma_at_end(command@ + " failed: "@, stderr@);
            lemma_at_start(command@, " failed: "@ + stderr@);
            assert(command@ + " failed: "@ + stderr@ =~= command@ + (" failed: "@ + stderr@));
        },
        Failure::InvalidReply { arguments, reason } => {
            let start = "failed to parse JSON from herdr "@;
            lemma_at_end(start + arguments@ + ": "@, reason@);
            lemma_between(start, arguments@, ": "@ + reason@);
            assert(start + arguments@ + ": "@ + reason@ =~= start + arguments@ + (": "@ + reason@));
        },
        Failure::ChosenOutOfRange { chosen } => lemma_between(
            "handoff chosen index "@,
            text::decimal(chosen as nat),
            " out of range"@,
        ),
        Failure::NotALine { argument } => lemma_at_end("not a line number: "@, argument@),
        Failure::NotAFile { path } => lemma_at_end("not a file: "@, path@),
        Failure::NvimOpen { path } => lemma_at_end("nvim --remote failed to open "@, path@),
        Failure::NvimJump { line, path } => {
            let start = "nvim --remote-expr failed to jump to line "@;
            let number = text::decimal(line as nat);
            lemma_at_end(start + number + " in "@, path@);
            lemma_between(start, number, " in "@ + path@);
            assert(start + number + " in "@ + path@ =~= start + number + (" in "@ + path@));
        },
        Failure::PickerFailed { status } => lemma_between(
            "herdr plugin pane open failed (exit "@,
            status@,
            ")"@,
        ),
        Failure::Unscripted { operation } => lemma_at_end(
            "no scripted response for "@,
            operation@,
        ),
        _ => {},
    }
}

/// The report that something is missing or misplaced names it.
pub proof fn reports_name_what_is_missing()
    ensures
        names(failure::report(Failure::NoContextTab), "tab_id"@),
        names(failure::report(Failure::NoLayout), "result.layout"@),
        names(failure::report(Failure::NoLayoutPanes), "result.layout.panes"@),
        names(failure::report(Failure::LeftOfArea), "rect x"@),
        names(failure::report(Failure::AboveArea), "rect y"@),
        names(failure::report(Failure::NoPanes), "result.panes"@),
        names(failure::report(Failure::NoTabs), "result.snapshot.tabs"@),
        names(failure::report(Failure::NoAgentList), "result.agents"@),
        names(failure::report(Failure::NoStateAfterOpening), "state missing"@),
        names(failure::report(Failure::NoSidebarAfterOpening), "pane id missing"@),
        names(failure::report(Failure::NoPath), "no path"@),
{
    reveal_strlit("plugin context is missing pane tab_id");
    reveal_strlit("tab_id");
    assert("plugin context is missing pane tab_id"@.subrange(31, 37) =~= "tab_id"@);
    assert(stands_at("plugin context is missing pane tab_id"@, "tab_id"@, 31));
    reveal_strlit("pane layout response missing result.layout");
    reveal_strlit("result.layout");
    assert("pane layout response missing result.layout"@.subrange(29, 42) =~= "result.layout"@);
    assert(stands_at("pane layout response missing result.layout"@, "result.layout"@, 29));
    reveal_strlit("pane layout response missing result.layout.panes array");
    reveal_strlit("result.layout.panes");
    assert("pane layout response missing result.layout.panes array"@.subrange(29, 48)
        =~= "result.layout.panes"@);
    assert(stands_at(
        "pane layout response missing result.layout.panes array"@,
        "result.layout.panes"@,
        29,
    ));
    reveal_strlit("pane rect x is outside the layout area");
    reveal_strlit("rect x");
    assert("pane rect x is outside the layout area"@.subrange(5, 11) =~= "rect x"@);
    assert(stands_at("pane rect x is outside the layout area"@, "rect x"@, 5));
    reveal_strlit("pane rect y is outside the layout area");
    reveal_strlit("rect y");
    assert("pane rect y is outside the layout area"@.subrange(5, 11) =~= "rect y"@);
    assert(stands_at("pane rect y is outside the layout area"@, "rect y"@, 5));
    reveal_strlit("herdr pane list response missing result.panes array");
    reveal_strlit("result.panes");
    assert("herdr pane list response missing result.panes array"@.subrange(33, 45)
        =~= "result.panes"@);
    assert(stands_at("herdr pane list response missing result.panes array"@, "result.panes"@, 33));
    reveal_strlit("herdr api snapshot response missing result.snapshot.tabs array");
    reveal_strlit("result.snapshot.tabs");
    assert("herdr api snapshot response missing result.snapshot.tabs array"@.subrange(36, 56)
        =~= "result.snapshot.tabs"@);
    assert(stands_at(
        "herdr api snapshot response missing result.snapshot.tabs array"@,
        "result.snapshot.tabs"@,
        36,
    ));
    reveal_strlit("herdr agent list response missing result.agents array");
    reveal_strlit("result.agents");
    assert("herdr agent list response missing result.agents array"@.subrange(34, 47)
        =~= "result.agents"@);
    assert(stands_at(
        "herdr agent list response missing result.agents array"@,
        "result.agents"@,
        34,
    ));
    reveal_strlit("sidebar state missing after opening");
    reveal_strlit("state missing");
    assert("sidebar state missing after opening"@.subrange(8, 21) =~= "state missing"@);
    assert(stands_at("sidebar state missing after opening"@, "state missing"@, 8));
    reveal_strlit("sidebar pane id missing after opening");
    reveal_strlit("pane id missing");
    assert("sidebar pane id missing after opening"@.subrange(8, 23) =~= "pane id missing"@);
    assert(stands_at("sidebar pane id missing after opening"@, "pane id missing"@, 8));
    reveal_strlit("no path is given");
    reveal_strlit("no path");
    assert("no path is given"@.subrange(0, 7) =~= "no path"@);
    assert(stands_at("no path is given"@, "no path"@, 0));
}

/// Where the environment lacks a variable, the file command stops with a report that starts with
/// the name of the first one that it lacks and ends with why, and where it lacks none there is a
/// place.
pub proof fn missing_places_are_named(environment: Environment)
    ensures
        openlink::place_told(environment) is Ok <==> environment.pane is Ok
            && environment.workspace is Ok && environment.tab is Ok,
        openlink::place_told(environment) matches Err(fault) ==> {
            if environment.pane is Err {
                "HERDR_PANE_ID"@.is_prefix_of(fault) && ends_with(
                    fault,
                    environment.pane->Err_0@,
                )
            } else if environment.workspace is Err {
                "HERDR_WORKSPACE_ID"@.is_prefix_of(fault) && ends_with(
                    fault,
                    environment.workspace->Err_0@,
                )
            } else {
                "HERDR_TAB_ID"@.is_prefix_of(fault) && ends_with(fault, environment.tab->Err_0@)
            }
        },
{
    lemma_not_set("HERDR_PANE_ID"@, environment.pane);
    lemma_not_set("HERDR_WORKSPACE_ID"@, environment.workspace);
    lemma_not_set("HERDR_TAB_ID"@, environment.tab);
}

proof fn lemma_not_set(variable: Seq<char>, value: Result<String, String>)
    ensures
        value matches Err(reason) ==> {
            let fault = context::not_set(variable, reason);
            variable.is_prefix_of(fault) && ends_with(fault, reason@)
        },
{
    if let Err(reason) = value {
        lemma_at_end(variable + " is not set: "@, reason@);
        lemma_at_start(variable, " is not set: "@ + reason@);
        assert(variable + " is not set: "@ + reason@ =~= variable + (" is not set: "@ + reason@));
    }
}

/// Where the environment lacks a variable, a toggle or a pick stops with a report that starts with
/// the name of the first one that it lacks and ends with why. A context that cannot be read is
/// reported with why it cannot.
pub proof fn missing_contexts_are_named(environment: Environment)
    ensures
        context::told_by(environment) matches Err(fault) ==> {
            if environment.workspace is Err {
                "HERDR_WORKSPACE_ID"@.is_prefix_of(fault) && ends_with(
                    fault,
                    environment.workspace->Err_0@,
                )
            } else if environment.pane is Err {
                "HERDR_PANE_ID"@.is_prefix_of(fault) && ends_with(
                    fault,
                    environment.pane->Err_0@,
                )
            } else if environment.plugin_context is Err {
                "HERDR_PLUGIN_CONTEXT_JSON"@.is_prefix_of(fault) && ends_with(
                    fault,
                    environment.plugin_context->Err_0@,
                )
            } else {
                json::parsed_text(environment.plugin_context->Ok_0@) matches Err(reason)
                    ==> ends_with(fault, reason) && names(fault, "HERDR_PLUGIN_CONTEXT_JSON"@)
            }
        },
        context::told_by(environment) is Ok ==> environment.workspace is Ok
            && environment.pane is Ok && environment.plugin_context is Ok,
{
    lemma_not_set("HERDR_PANE_ID"@, environment.pane);
    lemma_not_set("HERDR_WORKSPACE_ID"@, environment.workspace);
    lemma_not_set("HERDR_PLUGIN_CONTEXT_JSON"@, environment.plugin_context);
    if let Ok(written) = environment.plugin_context {
        if let Err(reason) = json::parsed_text(written@) {
            let start = "invalid HERDR_PLUGIN_CONTEXT_JSON: "@;
            lemma_at_end(start, reason);
            reveal_strlit("invalid HERDR_PLUGIN_CONTEXT_JSON: ");
            reveal_strlit("HERDR_PLUGIN_CONTEXT_JSON");
            reveal_strlit("invalid ");
            reveal_strlit(": ");
            assert(start =~= "invalid "@ + "HERDR_PLUGIN_CONTEXT_JSON"@ + ": "@);
            lemma_between("invalid "@, "HERDR_PLUGIN_CONTEXT_JSON"@, ": "@ + reason);
            assert(start + reason =~= "invalid "@ + "HERDR_PLUGIN_CONTEXT_JSON"@ + (": "@
                + reason));
        }
    }
}

/// A run of herdr that does not count is reported with its arguments and with what tells why: the
/// reason it could not be started, what it wrote on its error stream, without white space around
/// it, or what is wrong with its reply.
pub proof fn failed_runs_are_told(args: Seq<Seq<char>>, output: Output)
    ensures
        cli::output_of(args, output) matches Err(fault) ==> {
            &&& names(fault, "herdr "@ + text::joined(args, " "@))
            &&& match output {
                Output::NotStarted { reason } => ends_with(fault, reason@),
                Output::Finished { success, stdout, stderr } => ends_with(
                    fault,
                    text::trimmed(utf8::lossy_text(stderr@)),
                ),
            }
        },
        cli::reply_of(args, output) matches Err(fault) ==> {
            &&& names(fault, "herdr "@ + text::joined(args, " "@))
            &&& (cli::output_of(args, output) matches Ok(stdout) ==> (json::parsed_bytes(
                stdout,
            ) matches Err(reason) ==> ends_with(fault, reason)))
        },
{
    let command = "herdr "@ + text::joined(args, " "@);
    match output {
        Output::NotStarted { reason } => {
            let start = "failed to run "@;
            lemma_at_end(start + command + ": "@, reason@);
            lemma_between(start, command, ": "@ + reason@);
            assert(start + command + ": "@ + reason@ =~= start + command + (": "@ + reason@));
        },
        Output::Finished { success, stdout, stderr } => {
            let told = text::trimmed(utf8::lossy_text(stderr@));
            lemma_at_end(command + " failed: "@, told);
            lemma_at_start(command, " failed: "@ + told);
            assert(command + " failed: "@ + told =~= command + (" failed: "@ + told));
            if let Err(reason) = json::parsed_bytes(stdout@) {
                let start = "failed to parse JSON from herdr "@ + text::joined(args, " "@);
                lemma_at_end(start + ": "@, reason);
                reveal_strlit("failed to parse JSON from herdr ");
                reveal_strlit("failed to parse JSON from ");
                reveal_strlit("herdr ");
                assert("failed to parse JSON from herdr "@ =~= "failed to parse JSON from "@
                    + "herdr "@);
                lemma_between("failed to parse JSON from "@, command, ": "@ + reason);
                assert(start + ": "@ + reason =~= "failed to parse JSON from "@ + command + (": "@
                    + reason));
            }
        },
    }
}

/// Opening a file in the editor succeeds exactly if every run of the editor does, and a line takes
/// a second run. A run that fails is the last one, and is reported with the reason where it could
/// not be started, and with the file otherwise.
pub proof fn editor_failures_are_told(
    socket: Seq<char>,
    path: Seq<char>,
    line: Option<u32>,
    sidebar: SidebarView,
    talk: Seq<Entry>,
    outcome: Result<(), Failure>,
)
    requires
        bridge::nvim_ran(socket, path, line, sidebar, talk, outcome),
    ensures
        outcome is Ok <==> {
            &&& forall|i: int|
                0 <= i < talk.len() ==> showing_laws::succeeded(#[trigger] talk[i])
            &&& talk.len() == if line is Some {
                2int
            } else {
                1
            }
        },
        outcome matches Err(failure) ==> {
            &&& talk.len() > 0
            &&& match talk.last().answer {
                Answer::Exit(Exit::NotStarted { reason }) => ends_with(
                    failure::report(failure),
                    reason@,
                ),
                Answer::Exit(Exit::Finished { success, .. }) => !success && ends_with(
                    failure::report(failure),
                    path,
                ),
                _ => false,
            }
        },
{
    lemma_at_end("nvim --remote failed to open "@, path);
    if let Some(number) = line {
        lemma_at_end(
            "nvim --remote-expr failed to jump to line "@ + text::decimal(number as nat) + " in "@,
            path,
        );
    }
    assert(showing_laws::succeeded(talk[0]) || !showing_laws::succeeded(talk[0]));
    if let Exit::NotStarted { reason } = talk[0].answer->Exit_0 {
        lemma_at_end("failed to run "@ + "nvim --server --remote"@ + ": "@, reason@);
    }
    if talk.len() > 1 {
        assert(showing_laws::succeeded(talk[1]) || !showing_laws::succeeded(talk[1]));
        if let Exit::NotStarted { reason } = talk[1].answer->Exit_0 {
            lemma_at_end("failed to run "@ + "nvim --server --remote-expr"@ + ": "@, reason@);
        }
    }
}

/// A sidebar that cannot be focused is warned of, with its pane and with why, and one that can be
/// is not.
pub proof fn unfocused_sidebars_are_warned_of(pane: Seq<char>, talk: Seq<Entry>)
    requires
        bridge::focus_ran(pane, talk),
    ensures
        talk.len() == 1 || talk.len() == 2,
        talk.len() == 1 <==> showing_laws::succeeded(talk[0]),
        talk.len() == 2 ==> {
            &&& talk[1].call is Warn
            &&& names(talk[1].call->Warn_text, pane)
            &&& match talk[0].answer {
                Answer::Exit(Exit::NotStarted { reason }) => ends_with(
                    talk[1].call->Warn_text,
                    reason@,
                ),
                Answer::Exit(Exit::Finished { status, .. }) => names(
                    talk[1].call->Warn_text,
                    status@,
                ),
                _ => false,
            }
        },
{
    let start = "herdr-nvim: could not focus sidebar pane "@;
    match talk[0].answer->Exit_0 {
        Exit::NotStarted { reason } => {
            lemma_at_end(start + pane + ": "@, reason@);
            lemma_between(start, pane, ": "@ + reason@);
            assert(start + pane + ": "@ + reason@ =~= start + pane + (": "@ + reason@));
        },
        Exit::Finished { success, status } => {
            lemma_between(start + pane + " (exit "@, status@, ")"@);
            lemma_between(start, pane, " (exit "@ + status@ + ")"@);
            assert(start + pane + " (exit "@ + status@ + ")"@ =~= start + pane + (" (exit "@
                + status@ + ")"@));
        },
    }
}

/// That there is nothing to pick is told once: by a notification, and exactly where that cannot be
/// shown by a warning.
pub proof fn empty_picks_are_told_once(talk: Seq<Entry>)
    requires
        pick::notify_ran(talk),
    ensures
        talk.len() == 1 || talk.len() == 2,
        talk[0].call is HerdrStatus,
        talk[0].call->HerdrStatus_args[0] == "notification"@,
        talk[0].call->HerdrStatus_args[1] == "show"@,
        talk.len() == 1 <==> showing_laws::succeeded(talk[0]),
        talk.len() == 2 ==> talk[1].call is Warn && names(
            talk[1].call->Warn_text,
            "no file paths found"@,
        ),
{
    reveal_strlit("herdr-nvim: no file paths found in agent output");
    reveal_strlit("no file paths found");
    assert(stands_at(
        "herdr-nvim: no file paths found in agent output"@,
        "no file paths found"@,
        12,
    )) by {
        assert("herdr-nvim: no file paths found in agent output"@.subrange(12, 31)
            =~= "no file paths found"@);
    }
}

/// A handoff is removed by one exchange. Where that is refused, a warning names the handoff and
/// says why, and otherwise nothing more is said.
pub proof fn refused_removals_are_warned_of(path: Seq<char>, talk: Seq<Entry>)
    requires
        pick::cleanup_ran(path, talk),
    ensures
        talk[0].call == (Call::RemoveFile { path }),
        match talk[0].answer {
            Answer::Removal(Removal::Refused { reason }) => {
                &&& talk.len() == 2
                &&& talk[1].call is Warn
                &&& names(talk[1].call->Warn_text, path)
                &&& ends_with(talk[1].call->Warn_text, reason@)
            },
            _ => talk.len() == 1,
        },
{
    if let Answer::Removal(Removal::Refused { reason }) = talk[0].answer {
        let start = "herdr-nvim: could not remove handoff "@;
        lemma_at_end(start + path + ": "@, reason@);
        lemma_between(start, path, ": "@ + reason@);
        assert(start + path + ": "@ + reason@ =~= start + path + (": "@ + reason@));
    }
}

/// The picker is opened by one exchange, and the outcome is success exactly if that succeeds. A
/// picker that does not open is reported with the reason or the status.
pub proof fn unopened_pickers_are_told(
    handoff: Seq<char>,
    talk: Seq<Entry>,
    outcome: Result<(), Failure>,
)
    requires
        pick::picker_ran(handoff, talk, outcome),
    ensures
        talk.len() == 1,
        outcome is Ok <==> showing_laws::succeeded(talk[0]),
        outcome matches Err(failure) ==> match talk[0].answer {
            Answer::Exit(Exit::NotStarted { reason }) => ends_with(
                failure::report(failure),
                reason@,
            ),
            Answer::Exit(Exit::Finished { status, .. }) => names(
                failure::report(failure),
                status@,
            ),
            _ => false,
        },
{
    match talk[0].answer->Exit_0 {
        Exit::NotStarted { reason } => lemma_at_end(
            "failed to run "@ + "herdr plugin pane open"@ + ": "@,
            reason@,
        ),
        Exit::Finished { status, .. } => lemma_between(
            "herdr plugin pane open failed (exit "@,
            status@,
            ")"@,
        ),
    }
}

/// The sidebar that was just opened is the one that the record of the tab names. A tab without a
/// record, and a record without a sidebar, are told apart.
pub proof fn unrecorded_sidebars_are_told(
    tab: Seq<char>,
    entry: Entry,
    outcome: Result<String, Failure>,
)
    requires
        bridge::lookup_ran(tab, entry, outcome),
    ensures
        entry.call == (Call::LoadState { tab }),
        outcome matches Ok(sidebar) ==> {
            &&& entry.answer is State
            &&& entry.answer->State_0 is Some
            &&& entry.answer->State_0->0@.sidebar_pane == Some(sidebar@)
        },
        entry.answer is Failed ==> outcome == Err::<String, Failure>(entry.answer->Failed_0),
        entry.answer is State && entry.answer->State_0 is None ==> outcome
            == Err::<String, Failure>(Failure::NoStateAfterOpening),
        entry.answer is State && entry.answer->State_0 is Some
            && entry.answer->State_0->0@.sidebar_pane is None ==> outcome
            == Err::<String, Failure>(Failure::NoSidebarAfterOpening),
{
}

/// What a reply lacks is reported: a list that is not there, and a text or a number by its pointer.
pub proof fn incomplete_replies_are_told(
    reply: Document,
    pointer: Seq<char>,
    workspace: Seq<char>,
)
    ensures
        json::items_at(reply, "/result/panes"@) is None ==> herdr::places_in(reply) == Err::<
            Seq<(Seq<char>, Seq<char>)>,
            Seq<char>,
        >(failure::report(Failure::NoPanes)),
        json::items_at(reply, "/result/snapshot/tabs"@) is None ==> herdr::tabs_in(reply) == Err::<
            Seq<Seq<char>>,
            Seq<char>,
        >(failure::report(Failure::NoTabs)),
        json::items_at(reply, "/result/agents"@) is None ==> herdr::agents_in(reply, workspace)
            == Err::<Seq<AgentView>, Seq<char>>(failure::report(Failure::NoAgentList)),
        json::at(reply, "/result/layout"@) is None ==> herdr::rects_in(reply) == Err::<
            Seq<RectView>,
            Seq<char>,
        >(failure::report(Failure::NoLayout)),
        json::required_text(reply, pointer) matches Err(fault) ==> ends_with(fault, pointer),
        json::required_u32(reply, pointer) matches Err(fault) ==> names(fault, pointer),
{
    lemma_at_end("JSON response missing string at "@, pointer);
    lemma_at_end("JSON response missing unsigned integer at "@, pointer);
    lemma_between(
        "integer at "@,
        pointer,
        " does not fit in u32: out of range integral type conversion attempted"@,
    );
}

/// A pane that starts left of the area of its layout is reported as that, and one that does not but
/// starts above it as that.
pub proof fn misplaced_panes_are_told(pane: Document, left: u32, top: u32)
    requires
        json::required_u32(pane, "/rect/x"@) is Ok,
        json::required_u32(pane, "/rect/y"@) is Ok,
        json::required_text(pane, "/pane_id"@) is Ok,
    ensures
        json::required_u32(pane, "/rect/x"@)->Ok_0 < left ==> herdr::rect_in(pane, left, top)
            == Err::<RectView, Seq<char>>(failure::report(Failure::LeftOfArea)),
        json::required_u32(pane, "/rect/x"@)->Ok_0 >= left && json::required_u32(
            pane,
            "/rect/y"@,
        )->Ok_0 < top ==> herdr::rect_in(pane, left, top) == Err::<RectView, Seq<char>>(
            failure::report(Failure::AboveArea),
        ),
{
}

/// A command that fails is reported last, by a warning that ends with the report of its failure.
pub proof fn failed_commands_are_told(
    args: Seq<Seq<char>>,
    environment: Environment,
    talk: Seq<Entry>,
) -> (failure: Failure)
    requires
        command::run_ran(args, environment, talk, 1),
    ensures
        talk.len() > 0,
        talk.last().call is Warn,
        ends_with(talk.last().call->Warn_text, failure::report(failure)),
        command::mode_in(args) is Some,
        command::mode_ran(
            command::mode_in(args)->0,
            args,
            environment,
            talk.drop_last(),
            Err::<(), Failure>(failure),
        ),
{
    let mode = command::mode_in(args)->0;
    let failure = choose|failure: Failure|
        {
            &&& talk.len() > 0
            &&& #[trigger] command::reported(failure, talk.last())
            &&& command::mode_ran(
                mode,
                args,
                environment,
                talk.drop_last(),
                Err::<(), Failure>(failure),
            )
        };
    lemma_at_end("herdr-nvim: "@, failure::report(failure));
    failure
}

/// A command that ends with the exit code 0 has succeeded in all that it was to do.
pub proof fn zero_tells_success(args: Seq<Seq<char>>, environment: Environment, talk: Seq<Entry>)
    requires
        command::run_ran(args, environment, talk, 0),
    ensures
        args.len() > 1,
        command::mode_named(args[1]) is Some,
        command::mode_ran(
            command::mode_named(args[1])->0,
            args,
            environment,
            talk,
            Ok::<(), Failure>(()),
        ),
{
    command::exit_codes_tell_what_happened(args, environment, talk, 0);
}

/// A command that ends with the exit code 0 has toggled the sidebar, picked a file, followed a
/// click or opened a file, as its first argument says.
pub proof fn named_modes_are_run(
    args: Seq<Seq<char>>,
    environment: Environment,
    talk: Seq<Entry>,
)
    requires
        command::run_ran(args, environment, talk, 0),
    ensures
        args[1] == "toggle"@ ==> maneuver::toggle_cmd_ran(
            environment,
            talk,
            Ok::<(), Failure>(()),
        ),
        args[1] == "pick-file"@ ==> pick::pick_ran(
            args,
            environment,
            talk,
            Ok::<(), Failure>(()),
        ),
        args[1] == "open-link"@ ==> openlink::link_ran(
            environment,
            talk,
            Ok::<(), Failure>(()),
        ),
        args[1] == "open-file"@ ==> openlink::file_ran(
            args,
            environment,
            talk,
            Ok::<(), Failure>(()),
        ),
{
    zero_tells_success(args, environment, talk);
    command::names_tell_modes(args[1]);
}

} // verus!
