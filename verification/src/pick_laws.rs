//! What comes of a pick: what is read, what is offered, and which file is opened in the end.

use vstd::prelude::*;

use crate::argument_laws;
use crate::bridge;
use crate::candidates::{self, Candidate};
use crate::config::Config;
use crate::context::{self, Ctx, CtxView, Environment};
use crate::failure::Failure;
use crate::gather_laws;
use crate::herdr::{self, AgentView, PaneSnapshot};
use crate::json;
use crate::log::{Call, Entry};
use crate::pick;
use crate::showing_laws;
use crate::text;
use crate::token_laws;

verus! {

/// Whether an exchange tells the editor to open a file.
pub open spec fn opens_a_file(entry: Entry) -> bool {
    entry.call is Nvim && entry.call->Nvim_args[2] == "--remote"@
}

/// The file that was picked is the one that is opened. Where the handoff names a choice and the
/// pick is finished with success, the editor is told exactly once to open a file, and that file is
/// the candidate that was chosen. It is told to go to a line exactly if that candidate has one, and
/// then to that line. It is the editor of the tab that the handoff names, and the handoff is
/// removed at the end.
pub proof fn chosen_file_is_opened(path: Seq<char>, talk: Seq<Entry>) -> (at: int)
    requires
        pick::finish_ran(path, talk, Ok::<(), Failure>(())),
        talk[0].answer is Handoff,
        talk[0].answer->Handoff_0.chosen is Some,
        talk[0].answer->Handoff_0.chosen->0 < talk[0].answer->Handoff_0.candidates@.len(),
    ensures
        ({
            let handoff = talk[0].answer->Handoff_0;
            let candidate = handoff.candidates@[handoff.chosen->0 as int];
            &&& talk[0].call == (Call::ReadHandoff { path })
            &&& 0 < at < talk.len()
            &&& opens_a_file(talk[at])
            &&& talk[at].call->Nvim_args.len() == 4
            &&& talk[at].call->Nvim_args[2] == "--remote"@
            &&& talk[at].call->Nvim_args[3] == candidate.path@
            &&& forall|i: int|
                0 <= i < talk.len() && #[trigger] opens_a_file(talk[i]) ==> i == at
            &&& forall|i: int|
                0 <= i < talk.len() && (#[trigger] talk[i]).call is Nvim ==> i == at
                    || candidate.line is Some && i == at + 1
            &&& candidate.line is Some ==> {
                &&& at + 1 < talk.len()
                &&& talk[at + 1].call is Nvim
                &&& talk[at + 1].call->Nvim_args.len() == 4
                &&& talk[at + 1].call->Nvim_args[2] == "--remote-expr"@
                &&& talk[at + 1].call->Nvim_args[3] == "cursor("@ + text::decimal(
                    candidate.line->0 as nat,
                ) + ", 1)"@
            }
            &&& forall|i: int|
                0 <= i < talk.len() && (#[trigger] talk[i]).call is EnsureDaemon
                    ==> talk[i].call->EnsureDaemon_tab == handoff.tab@
                    && talk[i].call->EnsureDaemon_cwd == handoff.cwd@
            &&& exists|i: int|
                at < i < talk.len() && (#[trigger] talk[i]).call == (Call::RemoveFile { path })
        }),
{
    let ok = Ok::<(), Failure>(());
    let handoff = talk[0].answer->Handoff_0@;
    let chosen = talk[0].answer->Handoff_0.chosen->0 as int;
    let candidate = handoff.candidates[chosen];
    let ctx = CtxView {
        workspace: handoff.workspace,
        tab: handoff.tab,
        focused_pane: handoff.focused_pane,
        cwd: handoff.cwd,
    };
    let rest = talk.skip(1);
    let length = choose|length: int|
        {
            &&& #[trigger] pick::shown_in(
                pick::picked_ctx(handoff),
                candidate.path,
                candidate.line,
                rest,
                length,
            )
            &&& pick::cleanup_ran(path, rest.skip(length))
        };
    let shown = rest.take(length);
    assert(bridge::show_ran(ctx, candidate.path, candidate.line, shown, ok));
    let found = showing_laws::file_is_shown(ctx, candidate.path, candidate.line, shown);
    let at = found + 1;
    lemma_shown_once(ctx, candidate.path, candidate.line, path, talk, length, found);
    assert forall|i: int| 0 <= i < talk.len() && (#[trigger] talk[i]).call is EnsureDaemon implies
        talk[i].call->EnsureDaemon_tab == handoff.tab && talk[i].call->EnsureDaemon_cwd
        == handoff.cwd by {
        if 0 < i <= length {
            assert(shown[i - 1] == talk[i]);
            showing_laws::nothing_else_is_shown(
                ctx,
                candidate.path,
                candidate.line,
                shown,
                ok,
                i - 1,
            );
        } else if i > length {
            assert(rest.skip(length)[i - length - 1] == talk[i]);
        }
    }
    at
}

proof fn lemma_shown_once(
    ctx: CtxView,
    file: Seq<char>,
    line: Option<u32>,
    path: Seq<char>,
    talk: Seq<Entry>,
    length: int,
    found: int,
)
    requires
        0 <= length <= talk.skip(1).len(),
        talk.len() > 0,
        !(talk[0].call is Nvim),
        showing_laws::shows_file(ctx, file, line, talk.skip(1).take(length), found),
        pick::cleanup_ran(path, talk.skip(1).skip(length)),
    ensures
        0 < found + 1 < talk.len(),
        opens_a_file(talk[found + 1]),
        talk[found + 1].call->Nvim_args.len() == 4,
        talk[found + 1].call->Nvim_args[2] == "--remote"@,
        talk[found + 1].call->Nvim_args[3] == file,
        forall|i: int|
            0 <= i < talk.len() && #[trigger] opens_a_file(talk[i]) ==> i == found + 1,
        forall|i: int|
            0 <= i < talk.len() && (#[trigger] talk[i]).call is Nvim ==> i == found + 1 || line
                is Some && i == found + 2,
        line is Some ==> {
            &&& found + 2 < talk.len()
            &&& talk[found + 2].call is Nvim
            &&& talk[found + 2].call->Nvim_args.len() == 4
            &&& talk[found + 2].call->Nvim_args[2] == "--remote-expr"@
            &&& talk[found + 2].call->Nvim_args[3] == "cursor("@ + text::decimal(line->0 as nat)
                + ", 1)"@
        },
        exists|i: int|
            found + 1 < i < talk.len() && (#[trigger] talk[i]).call == (Call::RemoveFile { path }),
{
    let rest = talk.skip(1);
    let shown = rest.take(length);
    let last = rest.skip(length);
    assert(shown[found] == talk[found + 1]);
    assert(line is Some ==> shown[found + 1] == talk[found + 2]);
    assert(talk[found + 1].call->Nvim_args[2] == "--remote"@);
    assert(last[0] == talk[length + 1]);
    assert forall|i: int| 0 <= i < talk.len() && (#[trigger] talk[i]).call is Nvim implies i
        == found + 1 || line is Some && i == found + 2 by {
        if 0 < i <= length {
            assert(shown[i - 1] == talk[i]);
        } else if i > length {
            assert(last[i - length - 1] == talk[i]);
            assert(i - length - 1 == 0 || i - length - 1 == 1);
        }
    }
    assert forall|i: int| 0 <= i < talk.len() && #[trigger] opens_a_file(talk[i]) implies i == found
        + 1 by {
        assert(talk[i].call is Nvim);
        if i == found + 2 && line is Some {
            reveal_strlit("--remote");
            reveal_strlit("--remote-expr");
            assert("--remote"@.len() != "--remote-expr"@.len());
        }
    }
}

/// A pick without a choice opens nothing: the handoff is read and removed, and that is all but a
/// warning where it cannot be removed. A choice that the handoff has no candidate for is a failure,
/// and the handoff is only read.
pub proof fn unchosen_files_are_not_opened(
    path: Seq<char>,
    talk: Seq<Entry>,
    outcome: Result<(), Failure>,
)
    requires
        pick::finish_ran(path, talk, outcome),
        talk[0].answer is Handoff,
    ensures
        talk[0].call == (Call::ReadHandoff { path }),
        talk[0].answer->Handoff_0.chosen is None ==> {
            &&& outcome is Ok
            &&& 2 <= talk.len() <= 3
            &&& talk[1].call == (Call::RemoveFile { path })
            &&& talk.len() > 2 ==> talk[2].call is Warn
        },
        talk[0].answer->Handoff_0.chosen matches Some(chosen) ==> (chosen
            >= talk[0].answer->Handoff_0.candidates@.len() ==> outcome is Err && talk.len() == 1),
{
    let rest = talk.skip(1);
    if talk[0].answer->Handoff_0.chosen is None {
        assert(rest[0] == talk[1]);
        if talk.len() > 2 {
            assert(rest[1] == talk[2]);
        }
    }
}

/// Where a pick is not finished, whatever was chosen, the handoff is kept: nothing is removed.
pub proof fn failed_picks_keep_the_handoff(
    path: Seq<char>,
    talk: Seq<Entry>,
    failure: Failure,
    i: int,
)
    requires
        pick::finish_ran(path, talk, Err::<(), Failure>(failure)),
        0 <= i < talk.len(),
    ensures
        !(talk[i].call is RemoveFile),
{
    if i > 0 {
        let handoff = talk[0].answer->Handoff_0@;
        let chosen = talk[0].answer->Handoff_0.chosen->0 as int;
        let candidate = handoff.candidates[chosen];
        let rest = talk.skip(1);
        assert(rest[i - 1] == talk[i]);
        showing_laws::nothing_else_is_shown(
            pick::picked_ctx(handoff),
            candidate.path,
            candidate.line,
            rest,
            Err::<(), Failure>(failure),
            i - 1,
        );
    }
}

/// Whether an agent is the one that is meant by where the user is: the one in the pane that has the
/// focus where there is one, or else the first in the same tab, or else the first of all.
pub open spec fn is_meant(
    agents: Seq<AgentView>,
    tab: Seq<char>,
    focused: Seq<char>,
    pane: Seq<char>,
) -> bool {
    if exists|i: int| 0 <= i < agents.len() && (#[trigger] agents[i]).pane_id == focused {
        pane == focused
    } else if exists|i: int| 0 <= i < agents.len() && (#[trigger] agents[i]).tab_id == tab {
        exists|i: int|
            0 <= i < agents.len() && (#[trigger] agents[i]).tab_id == tab && agents[i].pane_id
                == pane && forall|j: int| 0 <= j < i ==> (#[trigger] agents[j]).tab_id != tab
    } else {
        agents.len() > 0 && agents[0].pane_id == pane
    }
}

proof fn lemma_agent_at(agents: Seq<AgentView>, pane: Seq<char>)
    ensures
        pick::agent_at(agents, pane) matches Some(agent) ==> agent.pane_id == pane,
        pick::agent_at(agents, pane) is Some <==> exists|i: int|
            0 <= i < agents.len() && (#[trigger] agents[i]).pane_id == pane,
    decreases agents.len(),
{
    if agents.len() > 0 && agents[0].pane_id != pane {
        let rest = agents.drop_first();
        lemma_agent_at(rest, pane);
        if exists|i: int| 0 <= i < agents.len() && (#[trigger] agents[i]).pane_id == pane {
            let i = choose|i: int| 0 <= i < agents.len() && (#[trigger] agents[i]).pane_id == pane;
            assert(rest[i - 1].pane_id == pane);
        }
        if pick::agent_at(rest, pane) is Some {
            let i = choose|i: int| 0 <= i < rest.len() && (#[trigger] rest[i]).pane_id == pane;
            assert(agents[i + 1].pane_id == pane);
        }
    } else if agents.len() > 0 {
        assert(agents[0].pane_id == pane);
    }
}

proof fn lemma_agent_in_tab(agents: Seq<AgentView>, tab: Seq<char>)
    ensures
        pick::agent_in_tab(agents, tab) matches Some(agent) ==> exists|i: int|
            0 <= i < agents.len() && #[trigger] agents[i] == agent && agent.tab_id == tab
                && forall|j: int| 0 <= j < i ==> (#[trigger] agents[j]).tab_id != tab,
        pick::agent_in_tab(agents, tab) is None ==> forall|i: int|
            0 <= i < agents.len() ==> (#[trigger] agents[i]).tab_id != tab,
    decreases agents.len(),
{
    if agents.len() > 0 && agents[0].tab_id != tab {
        let rest = agents.drop_first();
        lemma_agent_in_tab(rest, tab);
        if let Some(agent) = pick::agent_in_tab(rest, tab) {
            let i = choose|i: int|
                0 <= i < rest.len() && #[trigger] rest[i] == agent && agent.tab_id == tab
                    && forall|j: int| 0 <= j < i ==> (#[trigger] rest[j]).tab_id != tab;
            assert(agents[i + 1] == agent);
            assert forall|j: int| 0 <= j < i + 1 implies (#[trigger] agents[j]).tab_id != tab by {
                if j > 0 {
                    assert(agents[j] == rest[j - 1]);
                }
            }
        } else {
            assert forall|i: int| 0 <= i < agents.len() implies (#[trigger] agents[i]).tab_id
                != tab by {
                if i > 0 {
                    assert(agents[i] == rest[i - 1]);
                }
            }
        }
    } else if agents.len() > 0 {
        assert(agents[0].tab_id == tab);
    }
}

/// The agent that is chosen is the one that is meant, and one is chosen exactly if there is any.
pub proof fn the_agent_that_is_meant_is_chosen(
    agents: Seq<AgentView>,
    tab: Seq<char>,
    focused: Seq<char>,
)
    ensures
        pick::chosen_agent(agents, tab, focused) is Some <==> agents.len() > 0,
        pick::chosen_agent(agents, tab, focused) matches Some(pane) ==> is_meant(
            agents,
            tab,
            focused,
            pane,
        ),
{
    lemma_agent_at(agents, focused);
    lemma_agent_in_tab(agents, tab);
    if pick::agent_at(agents, focused) is None {
        if let Some(agent) = pick::agent_in_tab(agents, tab) {
            let i = choose|i: int|
                0 <= i < agents.len() && #[trigger] agents[i] == agent && agent.tab_id == tab
                    && forall|j: int| 0 <= j < i ==> (#[trigger] agents[j]).tab_id != tab;
            assert(agents[i].tab_id == tab);
        }
    }
}

/// A search for the agent that is meant asks for the agents of the workspace once, and gives the
/// pane of the one that is meant. It fails exactly if herdr does, or if there is none.
pub proof fn search_gives_the_agent_that_is_meant(
    workspace: Seq<char>,
    tab: Seq<char>,
    focused: Seq<char>,
    talk: Seq<Entry>,
    outcome: Result<String, Failure>,
)
    requires
        pick::target_ran(workspace, tab, focused, talk, outcome),
    ensures
        talk.len() == 1,
        talk[0].call == (Call::Agents { workspace }),
        outcome is Ok <==> talk[0].answer is Agents && talk[0].answer->Agents_0@.len() > 0,
        outcome matches Ok(pane) ==> is_meant(
            herdr::agents_of(talk[0].answer->Agents_0@),
            tab,
            focused,
            pane@,
        ),
{
    if talk[0].answer is Agents {
        the_agent_that_is_meant_is_chosen(
            herdr::agents_of(talk[0].answer->Agents_0@),
            tab,
            focused,
        );
    }
}

/// The handoff that is finished is what follows the first `--finish` of the arguments, if anything
/// does.
pub proof fn finish_names_the_handoff(
    before: Seq<Seq<char>>,
    path: Seq<char>,
    after: Seq<Seq<char>>,
)
    requires
        forall|i: int| 0 <= i < before.len() ==> #[trigger] before[i] != "--finish"@,
    ensures
        pick::finish_argument(before) is None,
        pick::finish_argument(before + seq!["--finish"@]) is None,
        pick::finish_argument(before + seq!["--finish"@, path] + after) == Some(path),
    decreases before.len(),
{
    let alone = before + seq!["--finish"@];
    let whole = before + seq!["--finish"@, path] + after;
    if before.len() > 0 {
        let rest = before.drop_first();
        assert forall|i: int| 0 <= i < rest.len() implies #[trigger] rest[i] != "--finish"@ by {
            assert(rest[i] == before[i + 1]);
        }
        finish_names_the_handoff(rest, path, after);
        assert(before[0] != "--finish"@);
        assert(alone.drop_first() =~= rest + seq!["--finish"@]);
        assert(whole.drop_first() =~= rest + seq!["--finish"@, path] + after);
    } else {
        assert(alone[0] == "--finish"@);
        assert(whole[0] == "--finish"@);
        assert(whole[1] == path);
    }
}

/// A pick whose arguments have a `--finish` with something behind it starts by reading that
/// handoff. One with nothing behind it is in its first phase.
pub proof fn finishing_reads_the_handoff(
    args: Seq<Seq<char>>,
    environment: Environment,
    talk: Seq<Entry>,
    outcome: Result<(), Failure>,
    i: int,
)
    requires
        pick::pick_ran(args, environment, talk, outcome),
        0 <= i < args.len(),
        args[i] == "--finish"@,
        forall|j: int| 0 <= j < i ==> #[trigger] args[j] != "--finish"@,
    ensures
        i + 1 < args.len() ==> talk.len() > 0 && talk[0].call == (Call::ReadHandoff {
            path: args[i + 1],
        }),
        i + 1 == args.len() ==> pick::start_ran(environment, talk, outcome),
{
    let before = args.take(i);
    assert forall|j: int| 0 <= j < before.len() implies #[trigger] before[j] != "--finish"@ by {
        assert(before[j] == args[j]);
    }
    if i + 1 < args.len() {
        let after = args.skip(i + 2);
        finish_names_the_handoff(before, args[i + 1], after);
        assert(args =~= before + seq!["--finish"@, args[i + 1]] + after);
    } else {
        finish_names_the_handoff(before, Seq::empty(), Seq::empty());
        assert(args =~= before + seq!["--finish"@]);
    }
}

/// A pick whose arguments have no `--finish` is in its first phase.
pub proof fn picks_start_without_a_finish(
    args: Seq<Seq<char>>,
    environment: Environment,
    talk: Seq<Entry>,
    outcome: Result<(), Failure>,
)
    requires
        pick::pick_ran(args, environment, talk, outcome),
        !args.contains("--finish"@),
    ensures
        pick::start_ran(environment, talk, outcome),
{
    assert forall|i: int| 0 <= i < args.len() implies #[trigger] args[i] != "--finish"@ by {
        assert(args.contains(args[i]));
    }
    finish_names_the_handoff(args, Seq::empty(), Seq::empty());
}

proof fn lemma_same_digits(
    first: Seq<char>,
    second: Seq<char>,
    rest: Seq<char>,
    other: Seq<char>,
)
    requires
        text::all_digits(first),
        text::all_digits(second),
        first + seq!['-'] + rest == second + seq!['-'] + other,
    ensures
        first == second,
        rest == other,
{
    let left = first + seq!['-'] + rest;
    let right = second + seq!['-'] + other;
    if first.len() < second.len() {
        assert(left[first.len() as int] == '-');
        assert(right[first.len() as int] == second[first.len() as int]);
        assert(text::is_digit(second[first.len() as int]));
    }
    if second.len() < first.len() {
        assert(right[second.len() as int] == '-');
        assert(left[second.len() as int] == first[second.len() as int]);
        assert(text::is_digit(first[second.len() as int]));
    }
    assert(first =~= left.take(first.len() as int));
    assert(second =~= right.take(first.len() as int));
    assert(rest =~= left.skip(first.len() as int + 1));
    assert(other =~= right.skip(first.len() as int + 1));
}

/// Handoffs of different processes, and of different times, have different names.
pub proof fn handoffs_are_told_apart(process: u32, nanos: u128, other: u32, time: u128)
    requires
        pick::handoff_named(process, nanos) == pick::handoff_named(other, time),
    ensures
        process == other,
        nanos == time,
{
    reveal_strlit("-");
    let start = "herdr-nvim-handoff-"@;
    let end = ".json"@;
    let first = text::decimal(process as nat);
    let second = text::decimal(other as nat);
    let at = text::decimal(nanos as nat);
    let later = text::decimal(time as nat);
    token_laws::decimals_are_read_back(process as nat);
    token_laws::decimals_are_read_back(other as nat);
    token_laws::decimals_are_read_back(nanos as nat);
    token_laws::decimals_are_read_back(time as nat);
    assert("-"@ =~= seq!['-']);
    assert(pick::handoff_named(process, nanos) =~= start + (first + seq!['-'] + (at + end)));
    assert(pick::handoff_named(other, time) =~= start + (second + seq!['-'] + (later + end)));
    assert(first + seq!['-'] + (at + end) =~= pick::handoff_named(process, nanos).skip(
        start.len() as int,
    ));
    assert(second + seq!['-'] + (later + end) =~= pick::handoff_named(other, time).skip(
        start.len() as int,
    ));
    lemma_same_digits(first, second, at + end, later + end);
    assert(at =~= (at + end).take(at.len() as int));
    assert(later =~= (later + end).take(at.len() as int)) by {
        assert((at + end).len() == (later + end).len());
    }
}

/// Whether an environment tells of this workspace, tab and pane: by its variables, and by the
/// plugin context for the tab.
pub open spec fn tells_place(
    environment: Environment,
    workspace: Seq<char>,
    tab: Seq<char>,
    pane: Seq<char>,
) -> bool {
    &&& environment.workspace is Ok
    &&& environment.workspace->Ok_0@ == workspace
    &&& environment.pane is Ok
    &&& environment.pane->Ok_0@ == pane
    &&& environment.plugin_context is Ok
    &&& json::parsed_text(environment.plugin_context->Ok_0@) is Ok
    &&& context::tab_in(json::parsed_text(environment.plugin_context->Ok_0@)->Ok_0) == Some(tab)
}

/// What is read of an environment is what it tells, and herdr is asked at most for the working
/// directory of the pane, and only where the plugin context does not name one.
pub proof fn environment_is_read(
    environment: Environment,
    talk: Seq<Entry>,
    outcome: Result<Ctx, Failure>,
)
    requires
        context::read_ran(environment, talk, outcome),
    ensures
        talk.len() <= 1,
        talk.len() == 1 ==> {
            &&& environment.pane is Ok
            &&& talk[0].call == (Call::PaneCwd { pane: environment.pane->Ok_0@ })
        },
        outcome matches Ok(ctx) ==> {
            &&& tells_place(environment, ctx@.workspace, ctx@.tab, ctx@.focused_pane)
            &&& match context::cwd_in(
                json::parsed_text(environment.plugin_context->Ok_0@)->Ok_0,
            ) {
                Some(cwd) => talk.len() == 0 && ctx@.cwd == cwd,
                None => talk.len() == 1 && talk[0].answer is Text && ctx@.cwd
                    == talk[0].answer->Text_0@,
            }
        },
        outcome is Ok <==> {
            &&& environment.workspace is Ok
            &&& environment.pane is Ok
            &&& environment.plugin_context is Ok
            &&& json::parsed_text(environment.plugin_context->Ok_0@) is Ok
            &&& context::tab_in(json::parsed_text(environment.plugin_context->Ok_0@)->Ok_0) is Some
            &&& talk.len() == 1 ==> talk[0].answer is Text
        },
{
}

/// The conversation of a first phase from the search for the agent on.
#[verifier::opaque]
spec fn sought(
    ctx: CtxView,
    config: Config,
    talk: Seq<Entry>,
    outcome: Result<(), Failure>,
) -> bool {
    pick::agent_ran(ctx, config, talk, outcome)
}

/// The conversation of a first phase from the gathering of candidates on.
#[verifier::opaque]
spec fn gathered(
    ctx: CtxView,
    config: Config,
    snapshot: PaneSnapshot,
    screen: Seq<char>,
    talk: Seq<Entry>,
    outcome: Result<(), Failure>,
) -> bool {
    pick::collect_ran(ctx, config, snapshot, screen, talk, outcome)
}

/// How a first phase starts: where the settings stand, and what was read of the environment.
proof fn lemma_start_parts(
    environment: Environment,
    talk: Seq<Entry>,
    outcome: Result<(), Failure>,
) -> (found: (int, CtxView))
    requires
        pick::start_ran(environment, talk, outcome),
    ensures
        0 <= found.0 <= talk.len(),
        forall|i: int| 0 <= i < found.0 ==> (#[trigger] talk[i]).call is PaneCwd,
        found.0 < talk.len() ==> {
            &&& tells_place(environment, found.1.workspace, found.1.tab, found.1.focused_pane)
            &&& talk[found.0].call is LoadConfig
            &&& talk[found.0].answer is Settings
            &&& sought(
                found.1,
                talk[found.0].answer->Settings_0,
                talk.skip(found.0 + 1),
                outcome,
            )
        },
        outcome is Ok ==> found.0 < talk.len(),
{
    reveal(sought);
    if outcome is Err && context::read_ran(
        environment,
        talk,
        Err::<Ctx, Failure>(outcome->Err_0),
    ) {
        let any = CtxView {
            workspace: Seq::empty(),
            tab: Seq::empty(),
            focused_pane: Seq::empty(),
            cwd: Seq::empty(),
        };
        (talk.len() as int, any)
    } else {
        let (length, ctx) = choose|length: int, ctx: Ctx|
            {
                &&& #[trigger] context::read_in(environment, talk, length, ctx)
                &&& pick::settings_ran(ctx@, talk.skip(length), outcome)
            };
        let head = talk.take(length);
        environment_is_read(environment, head, Ok::<Ctx, Failure>(ctx));
        assert forall|i: int| 0 <= i < length implies (#[trigger] talk[i]).call is PaneCwd by {
            assert(head[i] == talk[i]);
        }
        let rest = talk.skip(length);
        assert(rest[0] == talk[length]);
        assert(rest.skip(1) =~= talk.skip(length + 1));
        (length, ctx@)
    }
}

/// How a first phase goes on: which pane is looked at, and how much of it is read.
proof fn lemma_sought_parts(
    ctx: CtxView,
    config: Config,
    talk: Seq<Entry>,
    outcome: Result<(), Failure>,
)
    requires
        sought(ctx, config, talk, outcome),
    ensures
        talk.len() > 0,
        talk[0].call == (Call::Agents { workspace: ctx.workspace }),
        talk.len() > 1 ==> {
            &&& talk[0].answer is Agents
            &&& talk[1].call is PaneSnapshot
            &&& is_meant(
                herdr::agents_of(talk[0].answer->Agents_0@),
                ctx.tab,
                ctx.focused_pane,
                talk[1].call->PaneSnapshot_pane,
            )
        },
        talk.len() > 2 ==> {
            &&& talk[1].answer is Snapshot
            &&& talk[2].call is ReadPane
            &&& talk[2].call->ReadPane_pane == talk[1].call->PaneSnapshot_pane
            &&& talk[2].call->ReadPane_lines == match talk[1].answer->Snapshot_0.scroll {
                Some(scroll) => if config.picker.scan_lines <= scroll.viewport_rows
                    + scroll.max_offset_from_bottom {
                    config.picker.scan_lines as int
                } else {
                    scroll.viewport_rows + scroll.max_offset_from_bottom
                },
                None => config.picker.scan_lines as int,
            }
        },
        talk.len() > 3 ==> {
            &&& talk[2].answer is Text
            &&& gathered(
                ctx,
                config,
                talk[1].answer->Snapshot_0,
                talk[2].answer->Text_0@,
                talk.skip(3),
                outcome,
            )
        },
        outcome is Ok ==> talk.len() > 3,
{
    reveal(sought);
    reveal(gathered);
    if outcome is Err && pick::target_ran(
        ctx.workspace,
        ctx.tab,
        ctx.focused_pane,
        talk,
        Err::<String, Failure>(outcome->Err_0),
    ) {
    } else {
        let pane = choose|pane: String|
            {
                &&& talk.len() > 0
                &&& #[trigger] pick::target_ran(
                    ctx.workspace,
                    ctx.tab,
                    ctx.focused_pane,
                    talk.take(1),
                    Ok::<String, Failure>(pane),
                )
                &&& pick::inspect_ran(ctx, config, pane@, talk.skip(1), outcome)
            };
        let head = talk.take(1);
        assert(head[0] == talk[0]);
        search_gives_the_agent_that_is_meant(
            ctx.workspace,
            ctx.tab,
            ctx.focused_pane,
            head,
            Ok::<String, Failure>(pane),
        );
        let seen = talk.skip(1);
        assert(seen[0] == talk[1]);
        if seen[0].answer is Snapshot {
            let read = seen.skip(1);
            assert(read[0] == talk[2]);
            if read[0].answer is Text {
                assert(read.skip(1) =~= talk.skip(3));
                lemma_collected_some(
                    ctx,
                    config,
                    seen[0].answer->Snapshot_0,
                    read[0].answer->Text_0@,
                    read.skip(1),
                    outcome,
                );
            }
        }
    }
}

proof fn lemma_collected_some(
    ctx: CtxView,
    config: Config,
    snapshot: PaneSnapshot,
    screen: Seq<char>,
    talk: Seq<Entry>,
    outcome: Result<(), Failure>,
)
    requires
        pick::collect_ran(ctx, config, snapshot, screen, talk, outcome),
    ensures
        talk.len() > 0,
{
    let (length, found) = choose|length: int, found: Seq<Candidate>|
        {
            &&& #[trigger] pick::gathered_in(snapshot, screen, talk, length, found)
            &&& pick::offer_ran(ctx, config, snapshot.cwd@, found, talk.skip(length), outcome)
        };
    gather_laws::candidates_are_built_from_answers(
        herdr::session_of(snapshot.agent_session),
        screen,
        snapshot.cwd@,
        talk.take(length),
        found,
    );
}

/// A pick reads the screen of the agent that is meant, and of it as many lines as the settings say,
/// or as many as herdr holds where that is less: the rows of the pane with the lines behind them.
/// The settings, the agents and what is told of the pane are those that were answered right before.
pub proof fn pick_reads_the_agent(
    environment: Environment,
    talk: Seq<Entry>,
    outcome: Result<(), Failure>,
    read: int,
) -> (place: (Seq<char>, Seq<char>))
    requires
        pick::start_ran(environment, talk, outcome),
        0 <= read < talk.len(),
        talk[read].call is ReadPane,
    ensures
        read >= 3,
        talk[read - 3].call is LoadConfig,
        talk[read - 3].answer is Settings,
        talk[read - 2].call is Agents,
        talk[read - 2].answer is Agents,
        talk[read - 1].call == (Call::PaneSnapshot { pane: talk[read].call->ReadPane_pane }),
        talk[read - 1].answer is Snapshot,
        tells_place(environment, talk[read - 2].call->Agents_workspace, place.0, place.1),
        is_meant(
            herdr::agents_of(talk[read - 2].answer->Agents_0@),
            place.0,
            place.1,
            talk[read].call->ReadPane_pane,
        ),
        ({
            let configured = talk[read - 3].answer->Settings_0.picker.scan_lines;
            talk[read].call->ReadPane_lines == match talk[read - 1].answer->Snapshot_0.scroll {
                Some(scroll) => if configured <= scroll.viewport_rows
                    + scroll.max_offset_from_bottom {
                    configured as int
                } else {
                    scroll.viewport_rows + scroll.max_offset_from_bottom
                },
                None => configured as int,
            }
        }),
{
    let (at, ctx) = lemma_start_parts(environment, talk, outcome);
    assert(at <= read);
    let config = talk[at].answer->Settings_0;
    let rest = talk.skip(at + 1);
    lemma_sought_parts(ctx, config, rest, outcome);
    assert(rest[read - at - 1] == talk[read]);
    assert(rest[0] == talk[at + 1]);
    if read > at + 1 {
        assert(rest[1] == talk[at + 2]);
    }
    if read > at + 2 {
        assert(rest[2] == talk[at + 3]);
    }
    if read > at + 3 {
        let last = rest.skip(3);
        assert(last[read - at - 4] == talk[read]);
        lemma_gathered_parts(
            ctx,
            config,
            rest[1].answer->Snapshot_0,
            rest[2].answer->Text_0@,
            last,
            outcome,
        );
    }
    (ctx.tab, ctx.focused_pane)
}

/// Whether a first phase may ask for this once the screen is read.
spec fn is_offering(call: Call) -> bool {
    ||| gather_laws::is_gathering(call)
    ||| call is WriteHandoff
    ||| call is HerdrStatus
    ||| call is Warn
}

/// How a first phase ends: what was gathered, and what was offered of it.
proof fn lemma_gathered_parts(
    ctx: CtxView,
    config: Config,
    snapshot: PaneSnapshot,
    screen: Seq<char>,
    talk: Seq<Entry>,
    outcome: Result<(), Failure>,
) -> (length: int)
    requires
        gathered(ctx, config, snapshot, screen, talk, outcome),
    ensures
        3 < length < talk.len(),
        forall|i: int| 0 <= i < talk.len() ==> is_offering((#[trigger] talk[i]).call),
        forall|i: int|
            0 <= i < length ==> gather_laws::is_gathering((#[trigger] talk[i]).call),
        forall|i: int| length < i < talk.len() ==> !((#[trigger] talk[i]).call is WriteHandoff),
        talk[length - 1].call is BuildCandidates,
        talk[length - 1].answer is Candidates,
        talk[length - 2].call == (Call::Extract { text: screen, cwd: snapshot.cwd@ }),
        snapshot.agent_session matches Some(session) ==> talk[0].call == (Call::SessionText {
            session: session@,
            cwd: snapshot.cwd@,
        }),
        ({
            let found = talk[length - 1].answer->Candidates_0@;
            let path = talk[length].answer->Text_0@;
            if found.len() == 0 {
                &&& talk[length].call == (Call::HerdrStatus {
                    args: pick::notify_args(),
                    quiet: false,
                })
                &&& outcome is Ok
            } else {
                &&& talk[length].call is WriteHandoff
                &&& ({
                    let handoff = talk[length].call->WriteHandoff_handoff;
                    &&& handoff.candidates == candidates::candidates_of(found)
                    &&& handoff.chosen is None
                    &&& handoff.workspace == ctx.workspace
                    &&& handoff.tab == ctx.tab
                    &&& handoff.focused_pane == ctx.focused_pane
                    &&& handoff.cwd == snapshot.cwd@
                    &&& handoff.max_files == config.picker.max_files
                })
                &&& talk[length].answer is Text ==> talk.len() == length + 2 && talk[length
                    + 1].call == (Call::HerdrStatus {
                    args: pick::picker_args(path),
                    quiet: false,
                }) && (outcome is Ok <==> showing_laws::succeeded(talk[length + 1]))
                &&& !(talk[length].answer is Text) ==> talk.len() == length + 1 && outcome is Err
            }
        }),
{
    reveal(gathered);
    let (length, found) = choose|length: int, found: Seq<Candidate>|
        {
            &&& #[trigger] pick::gathered_in(snapshot, screen, talk, length, found)
            &&& pick::offer_ran(ctx, config, snapshot.cwd@, found, talk.skip(length), outcome)
        };
    let head = talk.take(length);
    let rest = talk.skip(length);
    gather_laws::candidates_are_built_from_answers(
        herdr::session_of(snapshot.agent_session),
        screen,
        snapshot.cwd@,
        head,
        found,
    );
    assert(head[0] == talk[0]);
    assert(head[length - 1] == talk[length - 1]);
    assert(head[length - 2] == talk[length - 2]);
    assert(rest[0] == talk[length]);
    if rest.len() > 1 {
        assert(rest[1] == talk[length + 1]);
    }
    if found.len() > 0 && rest[0].answer is Text {
        assert(rest.skip(1)[0] == rest[1]);
    }
    assert forall|i: int| 0 <= i < length implies gather_laws::is_gathering(
        (#[trigger] talk[i]).call,
    ) by {
        assert(head[i] == talk[i]);
    }
    assert forall|i: int| 0 <= i < talk.len() implies is_offering((#[trigger] talk[i]).call) by {
        if i >= length {
            assert(i == length || i == length + 1);
        }
    }
    length
}

/// What a pick offers is what was built: the handoff that is written holds exactly those
/// candidates, none of them chosen, the place that the environment tells of, the directory that the
/// agent works in and the number of files from the settings, and the picker is opened on exactly
/// that handoff.
pub proof fn pick_offers_what_was_built(
    environment: Environment,
    talk: Seq<Entry>,
    outcome: Result<(), Failure>,
    written: int,
) -> (loaded: int)
    requires
        pick::start_ran(environment, talk, outcome),
        0 <= written < talk.len(),
        talk[written].call is WriteHandoff,
    ensures
        0 <= loaded,
        loaded + 3 < written,
        talk[loaded].call is LoadConfig,
        talk[loaded].answer is Settings,
        talk[loaded + 2].call is PaneSnapshot,
        talk[loaded + 2].answer is Snapshot,
        talk[written - 1].call is BuildCandidates,
        talk[written - 1].answer is Candidates,
        talk[written - 2].call == (Call::Extract {
            text: talk[loaded + 3].answer->Text_0@,
            cwd: talk[loaded + 2].answer->Snapshot_0.cwd@,
        }),
        talk[written - 1].answer->Candidates_0@.len() > 0,
        ({
            let handoff = talk[written].call->WriteHandoff_handoff;
            &&& handoff.candidates == candidates::candidates_of(
                talk[written - 1].answer->Candidates_0@,
            )
            &&& handoff.chosen is None
            &&& tells_place(environment, handoff.workspace, handoff.tab, handoff.focused_pane)
            &&& handoff.cwd == talk[loaded + 2].answer->Snapshot_0.cwd@
            &&& handoff.max_files == talk[loaded].answer->Settings_0.picker.max_files
        }),
        talk[written].answer is Text ==> {
            &&& written + 1 < talk.len()
            &&& talk[written + 1].call is HerdrStatus
            &&& argument_laws::gives(
                talk[written + 1].call->HerdrStatus_args,
                "--env"@,
                "HERDR_NVIM_HANDOFF="@ + talk[written].answer->Text_0@,
            )
        },
{
    let (at, ctx) = lemma_start_parts(environment, talk, outcome);
    assert(at <= written);
    let config = talk[at].answer->Settings_0;
    let rest = talk.skip(at + 1);
    lemma_sought_parts(ctx, config, rest, outcome);
    assert(rest[written - at - 1] == talk[written]);
    lemma_offered(ctx, config, rest, outcome, written - at - 1);
    lemma_shifted(talk, at + 1, written);
    at
}

/// A pick that succeeds ends by telling what was built: where that is nothing by a notification and
/// without a handoff, and otherwise by a handoff that is written and a picker that opens.
pub proof fn picks_tell_what_was_built(environment: Environment, talk: Seq<Entry>) -> (built: int)
    requires
        pick::start_ran(environment, talk, Ok::<(), Failure>(())),
    ensures
        0 < built < talk.len() - 1,
        talk[built].call is BuildCandidates,
        talk[built].answer is Candidates,
        talk[built].answer->Candidates_0@.len() == 0 ==> {
            &&& talk[built + 1].call is HerdrStatus
            &&& talk[built + 1].call->HerdrStatus_args[0] == "notification"@
            &&& forall|i: int|
                built < i < talk.len() ==> !((#[trigger] talk[i]).call is WriteHandoff)
        },
        talk[built].answer->Candidates_0@.len() > 0 ==> {
            &&& talk.len() == built + 3
            &&& talk[built + 1].call is WriteHandoff
            &&& talk[built + 1].answer is Text
            &&& talk[built + 2].call is HerdrStatus
            &&& showing_laws::succeeded(talk[built + 2])
        },
{
    let outcome = Ok::<(), Failure>(());
    let (at, ctx) = lemma_start_parts(environment, talk, outcome);
    let config = talk[at].answer->Settings_0;
    let rest = talk.skip(at + 1);
    lemma_sought_parts(ctx, config, rest, outcome);
    let last = rest.skip(3);
    let length = lemma_gathered_parts(
        ctx,
        config,
        rest[1].answer->Snapshot_0,
        rest[2].answer->Text_0@,
        last,
        outcome,
    );
    let start = at + 4;
    assert(last =~= talk.skip(start));
    assert(last[length - 1] == talk[start + length - 1]);
    assert(last[length] == talk[start + length]);
    if last.len() > length + 1 {
        assert(last[length + 1] == talk[start + length + 1]);
    }
    assert forall|i: int| start + length < i < talk.len() implies !((#[trigger] talk[i]).call
        is WriteHandoff) by {
        assert(last[i - start] == talk[i]);
    }
    start + length - 1
}

proof fn lemma_shifted(talk: Seq<Entry>, start: int, at: int)
    requires
        0 < start,
        start + 3 <= at < talk.len(),
    ensures
        talk.skip(start)[1] == talk[start + 1],
        talk.skip(start)[2] == talk[start + 2],
        talk.skip(start)[at - start] == talk[at],
        talk.skip(start)[at - start - 1] == talk[at - 1],
        talk.skip(start)[at - start - 2] == talk[at - 2],
        at + 1 < talk.len() ==> talk.skip(start)[at - start + 1] == talk[at + 1],
{
}

/// The same from the search for the agent on.
proof fn lemma_offered(
    ctx: CtxView,
    config: Config,
    talk: Seq<Entry>,
    outcome: Result<(), Failure>,
    written: int,
)
    requires
        sought(ctx, config, talk, outcome),
        0 <= written < talk.len(),
        talk[written].call is WriteHandoff,
    ensures
        written > 4,
        talk[1].call is PaneSnapshot,
        talk[1].answer is Snapshot,
        talk[2].answer is Text,
        talk[written - 1].call is BuildCandidates,
        talk[written - 1].answer is Candidates,
        talk[written - 2].call == (Call::Extract {
            text: talk[2].answer->Text_0@,
            cwd: talk[1].answer->Snapshot_0.cwd@,
        }),
        talk[written - 1].answer->Candidates_0@.len() > 0,
        ({
            let handoff = talk[written].call->WriteHandoff_handoff;
            &&& handoff.candidates == candidates::candidates_of(
                talk[written - 1].answer->Candidates_0@,
            )
            &&& handoff.chosen is None
            &&& handoff.workspace == ctx.workspace
            &&& handoff.tab == ctx.tab
            &&& handoff.focused_pane == ctx.focused_pane
            &&& handoff.cwd == talk[1].answer->Snapshot_0.cwd@
            &&& handoff.max_files == config.picker.max_files
        }),
        talk[written].answer is Text ==> {
            &&& written + 1 < talk.len()
            &&& talk[written + 1].call is HerdrStatus
            &&& argument_laws::gives(
                talk[written + 1].call->HerdrStatus_args,
                "--env"@,
                "HERDR_NVIM_HANDOFF="@ + talk[written].answer->Text_0@,
            )
        },
{
    lemma_sought_parts(ctx, config, talk, outcome);
    assert(written > 2);
    let last = talk.skip(3);
    let length = lemma_gathered_parts(
        ctx,
        config,
        talk[1].answer->Snapshot_0,
        talk[2].answer->Text_0@,
        last,
        outcome,
    );
    assert(last[written - 3] == talk[written]);
    assert(last[length - 1] == talk[length + 2]);
    assert(last[length - 2] == talk[length + 1]);
    assert(last[length] == talk[length + 3]);
    assert(written >= length + 3);
    if written > length + 3 {
        assert(!(last[written - 3].call is WriteHandoff));
    }
    if talk[written].answer is Text {
        assert(last[length + 1] == talk[written + 1]);
        argument_laws::picker_is_told_the_handoff(talk[written].answer->Text_0@);
    }
}

} // verus!
