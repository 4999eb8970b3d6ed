//! The record of a conversation with the world outside: what was asked for, and what came back.

use vstd::prelude::*;

use crate::candidates::{Candidate, DiffStat, Handoff, HandoffView, InputView, Mined};
use crate::config::{Config, ConfigView, SidebarView};
use crate::failure::Failure;
use crate::herdr::{AgentInfo, Dir, PaneRect, PaneSnapshot, RectView, SessionView};
use crate::sidebar_lock::Guard;
use crate::state::{RebuildPlan, StateFile, StateView};

verus! {

/// How a program that was run for its exit status alone ended.
#[derive(Clone, Debug, PartialEq, Eq)]
pub enum Exit {
    /// It could not be started.
    NotStarted { reason: String },
    /// It ran, and its status is written out.
    Finished { success: bool, status: String },
}

/// How the removal of a file ended.
#[derive(Clone, Debug, PartialEq, Eq)]
pub enum Removal {
    Removed,
    /// There was no such file.
    Missing,
    Refused { reason: String },
}

/// A part of the plugin that stands on its own.
#[derive(Clone, Copy, Debug, PartialEq, Eq, Structural)]
pub enum Part {
    /// What runs in the sidebar.
    Sidebar,
    /// The stopping of editor daemons whose tabs are gone.
    DaemonGc,
    /// The search for what is wrong with an installation.
    Doctor,
    /// What runs in the picker.
    Picker,
}

/// One thing that is asked of the world outside.
pub enum Call {
    PaneRects { tab: Seq<char> },
    TabOfPane { pane: Seq<char> },
    CreateTab { workspace: Seq<char> },
    MovePane {
        pane: Seq<char>,
        tab: Seq<char>,
        dir: Dir,
        target: Option<Seq<char>>,
        ratio: Option<Seq<char>>,
        focus: bool,
    },
    SplitPane { pane: Seq<char>, dir: Dir, ratio: Seq<char>, focus: bool },
    OpenSidebarPane { anchor: Seq<char>, dir: Dir, cwd: Seq<char>, focus: bool },
    RunInPane { pane: Seq<char>, cmd: Seq<char> },
    ClosePane { pane: Seq<char> },
    PaneAlive { pane: Seq<char> },
    ListTabs,
    ReadPane { pane: Seq<char>, lines: u32 },
    PaneCwd { pane: Seq<char> },
    Agents { workspace: Seq<char> },
    PaneSnapshot { pane: Seq<char> },
    LoadState { tab: Seq<char> },
    SaveState { state: StateView },
    RemoveState { tab: Seq<char> },
    LoadConfig,
    HasDaemons,
    CollectDaemons { tabs: Seq<Seq<char>>, sidebar: SidebarView },
    HoldLock,
    ReleaseLock { taken: Option<Seq<char>> },
    RemoveDir { dir: Seq<char> },
    PlanRebuild { rects: Seq<RectView> },
    PluginRoot,
    EnsureDaemon { tab: Seq<char>, root: Seq<char>, config: ConfigView, cwd: Seq<char> },
    /// Run the editor of the settings for its exit status, with its output dropped where `quiet`.
    Nvim { sidebar: SidebarView, args: Seq<Seq<char>>, quiet: bool },
    /// Run herdr for its exit status, with its output dropped where `quiet`.
    HerdrStatus { args: Seq<Seq<char>>, quiet: bool },
    Warn { text: Seq<char> },
    IsFile { path: Seq<char> },
    GitToplevel { cwd: Seq<char> },
    SessionText { session: SessionView, cwd: Seq<char> },
    MineSession { agent: Seq<char>, text: Seq<char> },
    DirtyPaths { toplevel: Seq<char> },
    CommittedSince { toplevel: Seq<char>, since: u64 },
    DiffStats { toplevel: Seq<char> },
    RepoFiles { toplevel: Seq<char> },
    Extract { text: Seq<char>, cwd: Seq<char> },
    BuildCandidates { input: InputView },
    WriteHandoff { handoff: HandoffView },
    ReadHandoff { path: Seq<char> },
    RunPart { part: Part },
    RemoveFile { path: Seq<char> },
}

/// What came back from one thing that was asked.
pub enum Answer {
    Done,
    Failed(Failure),
    Flag(bool),
    Text(String),
    FoundText(Option<String>),
    Tab(String, String),
    Rects(Vec<PaneRect>),
    Tabs(Vec<String>),
    Agents(Vec<AgentInfo>),
    Snapshot(PaneSnapshot),
    State(Option<StateFile>),
    Settings(Config),
    Lock(Guard),
    Plan(RebuildPlan),
    Exit(Exit),
    Mined(Mined),
    FoundPaths(Option<Vec<String>>),
    FoundStats(Option<Vec<DiffStat>>),
    Candidates(Vec<Candidate>),
    Handoff(Handoff),
    Removal(Removal),
}

/// One exchange with the world outside.
pub struct Entry {
    pub call: Call,
    pub answer: Answer,
}

/// How an answer with nothing but success is noted.
pub open spec fn done_answer(answer: Result<(), Failure>) -> Answer {
    match answer {
        Ok(_) => Answer::Done,
        Err(failure) => Answer::Failed(failure),
    }
}

/// How an answer with a text is noted.
pub open spec fn text_answer(answer: Result<String, Failure>) -> Answer {
    match answer {
        Ok(value) => Answer::Text(value),
        Err(failure) => Answer::Failed(failure),
    }
}

/// How an answer with a truth value is noted.
pub open spec fn flag_answer(answer: Result<bool, Failure>) -> Answer {
    match answer {
        Ok(value) => Answer::Flag(value),
        Err(failure) => Answer::Failed(failure),
    }
}

/// How an answer with a new tab and its pane is noted.
pub open spec fn tab_answer(answer: Result<(String, String), Failure>) -> Answer {
    match answer {
        Ok((tab, pane)) => Answer::Tab(tab, pane),
        Err(failure) => Answer::Failed(failure),
    }
}

/// How an answer with rectangles is noted.
pub open spec fn rects_answer(answer: Result<Vec<PaneRect>, Failure>) -> Answer {
    match answer {
        Ok(value) => Answer::Rects(value),
        Err(failure) => Answer::Failed(failure),
    }
}

/// How an answer with tabs is noted.
pub open spec fn tabs_answer(answer: Result<Vec<String>, Failure>) -> Answer {
    match answer {
        Ok(value) => Answer::Tabs(value),
        Err(failure) => Answer::Failed(failure),
    }
}

/// How an answer with agents is noted.
pub open spec fn agents_answer(answer: Result<Vec<AgentInfo>, Failure>) -> Answer {
    match answer {
        Ok(value) => Answer::Agents(value),
        Err(failure) => Answer::Failed(failure),
    }
}

/// How an answer with a snapshot is noted.
pub open spec fn snapshot_answer(answer: Result<PaneSnapshot, Failure>) -> Answer {
    match answer {
        Ok(value) => Answer::Snapshot(value),
        Err(failure) => Answer::Failed(failure),
    }
}

/// How an answer with a record is noted.
pub open spec fn state_answer(answer: Result<Option<StateFile>, Failure>) -> Answer {
    match answer {
        Ok(value) => Answer::State(value),
        Err(failure) => Answer::Failed(failure),
    }
}

/// How an answer with a plan is noted.
pub open spec fn plan_answer(answer: Result<RebuildPlan, Failure>) -> Answer {
    match answer {
        Ok(value) => Answer::Plan(value),
        Err(failure) => Answer::Failed(failure),
    }
}

/// How an answer with a handoff is noted.
pub open spec fn handoff_answer(answer: Result<Handoff, Failure>) -> Answer {
    match answer {
        Ok(value) => Answer::Handoff(value),
        Err(failure) => Answer::Failed(failure),
    }
}

/// Whether `after` is `before` with nothing or something added at its end.
pub open spec fn extends(before: Seq<Entry>, after: Seq<Entry>) -> bool {
    before.len() <= after.len() && after.take(before.len() as int) == before
}

/// What was added to a log since it was `before`.
pub open spec fn since(before: Seq<Entry>, after: Seq<Entry>) -> Seq<Entry> {
    after.skip(before.len() as int)
}

/// Whether the exchange failed.
pub open spec fn failed(entry: Entry) -> bool {
    entry.answer is Failed
}

/// Whether a conversation starts with this call.
pub open spec fn asks(talk: Seq<Entry>, call: Call) -> bool {
    talk.len() > 0 && talk[0].call == call
}

/// Whether a conversation is over after its first exchange, which failed, and `outcome` is that
/// failure.
pub open spec fn stops<T>(talk: Seq<Entry>, outcome: Result<T, Failure>) -> bool {
    &&& talk.len() == 1
    &&& talk[0].answer is Failed
    &&& outcome == Err::<T, Failure>(talk[0].answer->Failed_0)
}

/// Whether a conversation goes through `calls` in order, up to the first one that is not answered
/// with success or to their end, and `outcome` is its failure or success.
pub open spec fn follows(
    talk: Seq<Entry>,
    calls: Seq<Call>,
    outcome: Result<(), Failure>,
) -> bool {
    &&& talk.len() <= calls.len()
    &&& forall|i: int| 0 <= i < talk.len() ==> (#[trigger] talk[i]).call == calls[i]
    &&& forall|i: int| 0 <= i < talk.len() - 1 ==> (#[trigger] talk[i]).answer is Done
    &&& match outcome {
        Ok(_) => talk.len() == calls.len() && (talk.len() > 0 ==> talk.last().answer is Done),
        Err(failure) => talk.len() > 0 && talk.last().answer == Answer::Failed(failure),
    }
}

/// Going on after an exchange.
pub proof fn lemma_since_push(before: Seq<Entry>, after: Seq<Entry>, entry: Entry)
    requires
        extends(before, after),
    ensures
        extends(before, after.push(entry)),
        since(before, after.push(entry)) == since(before, after).push(entry),
{
    assert(after.push(entry).take(before.len() as int) =~= after.take(before.len() as int));
    assert(since(before, after.push(entry)) =~= since(before, after).push(entry));
}

/// A conversation of one exchange.
pub proof fn lemma_one(before: Seq<Entry>, entry: Entry)
    ensures
        extends(before, before.push(entry)),
        since(before, before.push(entry)) == seq![entry],
{
    assert(before.push(entry).take(before.len() as int) =~= before);
    assert(since(before, before.push(entry)) =~= seq![entry]);
}

/// A conversation that goes on after its first exchange.
pub proof fn lemma_first(before: Seq<Entry>, entry: Entry, after: Seq<Entry>)
    requires
        extends(before.push(entry), after),
    ensures
        extends(before, after),
        since(before, after).len() == since(before.push(entry), after).len() + 1,
        since(before, after)[0] == entry,
        since(before, after).skip(1) == since(before.push(entry), after),
{
    assert(after.take(before.len() as int) =~= after.take(before.len() as int + 1).take(
        before.len() as int,
    ));
    assert(before.push(entry).take(before.len() as int) =~= before);
    assert(after[before.len() as int] == after.take(before.len() as int + 1)[before.len() as int]);
    assert(since(before, after).skip(1) =~= since(before.push(entry), after));
}

/// A conversation in which nothing was said.
pub proof fn lemma_nothing(before: Seq<Entry>)
    ensures
        extends(before, before),
        since(before, before) == Seq::<Entry>::empty(),
{
    assert(before.take(before.len() as int) =~= before);
    assert(since(before, before) =~= Seq::<Entry>::empty());
}

/// One stretch of a conversation after another.
pub proof fn lemma_since_join(first: Seq<Entry>, second: Seq<Entry>, third: Seq<Entry>)
    requires
        extends(first, second),
        extends(second, third),
    ensures
        extends(first, third),
        since(first, third) == since(first, second) + since(second, third),
{
    assert(third.take(first.len() as int) =~= second.take(first.len() as int));
    assert(since(first, third) =~= since(first, second) + since(second, third));
}

/// A conversation, cut where its first stretch ends.
pub proof fn lemma_split(first: Seq<Entry>, second: Seq<Entry>, third: Seq<Entry>)
    requires
        extends(first, second),
        extends(second, third),
    ensures
        extends(first, third),
        since(first, second).len() <= since(first, third).len(),
        since(first, third).take(since(first, second).len() as int) == since(first, second),
        since(first, third).skip(since(first, second).len() as int) == since(second, third),
{
    lemma_since_join(first, second, third);
    let talk = since(first, third);
    let length = since(first, second).len() as int;
    assert(talk.take(length) =~= since(first, second));
    assert(talk.skip(length) =~= since(second, third));
}

} // verus!
