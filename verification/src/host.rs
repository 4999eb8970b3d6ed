//! The world around a running herdr: records, settings, the editor, files and git.

use vstd::prelude::*;

use crate::candidates::{BuildInput, Candidate, DiffStat, Handoff, Mined};
use crate::config::{Config, Sidebar};
use crate::failure::Failure;
use crate::herdr::{self, AgentSession, Herdr, PaneRect};
use crate::log::{self, Answer, Call, Entry, Exit, Part, Removal};
use crate::sidebar_lock::Guard;
use crate::state::{RebuildPlan, StateFile};
use crate::text;

verus! {

/// A running herdr together with the machine that it runs on.
///
/// As for [`Herdr`], each operation is one exchange of the log, and nothing is promised of an
/// answer.
pub trait Host: Herdr {
    /// The record of a tab, if there is one.
    fn load_state(&mut self, tab: &str) -> (answer: Result<Option<StateFile>, Failure>)
        ensures
            final(self).log() == old(self).log().push(
                Entry {
                    call: Call::LoadState { tab: tab@ },
                    answer: log::state_answer(answer),
                },
            ),
    ;

    /// Put a record down in place of the earlier one of its tab.
    fn save_state(&mut self, state: &StateFile) -> (answer: Result<(), Failure>)
        ensures
            final(self).log() == old(self).log().push(
                Entry {
                    call: Call::SaveState { state: state@ },
                    answer: log::done_answer(answer),
                },
            ),
    ;

    /// Forget the record of a tab.
    fn remove_state(&mut self, tab: &str) -> (answer: Result<(), Failure>)
        ensures
            final(self).log() == old(self).log().push(
                Entry {
                    call: Call::RemoveState { tab: tab@ },
                    answer: log::done_answer(answer),
                },
            ),
    ;

    /// The settings.
    fn load_config(&mut self) -> (answer: Config)
        ensures
            final(self).log() == old(self).log().push(
                Entry {
                    call: Call::LoadConfig,
                    answer: Answer::Settings(answer),
                },
            ),
    ;

    /// Whether there is a directory for editor daemons.
    fn has_daemons(&mut self) -> (answer: bool)
        ensures
            final(self).log() == old(self).log().push(
                Entry {
                    call: Call::HasDaemons,
                    answer: Answer::Flag(answer),
                },
            ),
    ;

    /// Stop the editor daemons of all tabs but `tabs`.
    fn collect_daemons(
        &mut self,
        tabs: &Vec<String>,
        sidebar: &Sidebar,
    ) -> (answer: Result<(), Failure>)
        ensures
            final(self).log() == old(self).log().push(
                Entry {
                    call: Call::CollectDaemons { tabs: text::texts(tabs@), sidebar: sidebar@ },
                    answer: log::done_answer(answer),
                },
            ),
    ;

    /// Take the lock of the layout, if it can be had.
    fn hold_lock(&mut self) -> (answer: Guard)
        ensures
            final(self).log() == old(self).log().push(
                Entry {
                    call: Call::HoldLock,
                    answer: Answer::Lock(answer),
                },
            ),
    ;

    /// Give the lock of the layout back, if it was taken.
    fn release_lock(&mut self, guard: &Guard)
        ensures
            final(self).log() == old(self).log().push(
                Entry {
                    call: Call::ReleaseLock { taken: text::text_of(guard.dir) },
                    answer: Answer::Done,
                },
            ),
    ;

    /// Work out how a layout is rebuilt around one of its panes.
    fn plan_rebuild(&mut self, rects: &Vec<PaneRect>) -> (answer: Result<RebuildPlan, Failure>)
        ensures
            final(self).log() == old(self).log().push(
                Entry {
                    call: Call::PlanRebuild { rects: herdr::rects_of(rects@) },
                    answer: log::plan_answer(answer),
                },
            ),
    ;

    /// The directory that the plugin is installed in.
    fn plugin_root(&mut self) -> (answer: Result<String, Failure>)
        ensures
            final(self).log() == old(self).log().push(
                Entry {
                    call: Call::PluginRoot,
                    answer: log::text_answer(answer),
                },
            ),
    ;

    /// Bring up the editor daemon of a tab, and give its socket.
    fn ensure_daemon(
        &mut self,
        tab: &str,
        root: &str,
        config: &Config,
        cwd: &str,
    ) -> (answer: Result<String, Failure>)
        ensures
            final(self).log() == old(self).log().push(
                Entry {
                    call: Call::EnsureDaemon { tab: tab@, root: root@, config: config@, cwd: cwd@ },
                    answer: log::text_answer(answer),
                },
            ),
    ;

    /// Run the editor of the settings and wait for its exit status.
    fn nvim(&mut self, sidebar: &Sidebar, args: &Vec<String>, quiet: bool) -> (answer: Exit)
        ensures
            final(self).log() == old(self).log().push(
                Entry {
                    call: Call::Nvim { sidebar: sidebar@, args: text::texts(args@), quiet },
                    answer: Answer::Exit(answer),
                },
            ),
    ;

    /// Run herdr and wait for its exit status.
    fn herdr_status(&mut self, args: &Vec<String>, quiet: bool) -> (answer: Exit)
        ensures
            final(self).log() == old(self).log().push(
                Entry {
                    call: Call::HerdrStatus { args: text::texts(args@), quiet },
                    answer: Answer::Exit(answer),
                },
            ),
    ;

    /// Tell the user something on the error stream.
    fn warn(&mut self, text: &str)
        ensures
            final(self).log() == old(self).log().push(
                Entry {
                    call: Call::Warn { text: text@ },
                    answer: Answer::Done,
                },
            ),
    ;

    /// Whether a path leads to a file.
    fn is_file(&mut self, path: &str) -> (answer: bool)
        ensures
            final(self).log() == old(self).log().push(
                Entry {
                    call: Call::IsFile { path: path@ },
                    answer: Answer::Flag(answer),
                },
            ),
    ;

    /// The root of the git worktree that a directory is in, if it is in one.
    fn git_toplevel(&mut self, cwd: &str) -> (answer: Option<String>)
        ensures
            final(self).log() == old(self).log().push(
                Entry {
                    call: Call::GitToplevel { cwd: cwd@ },
                    answer: Answer::FoundText(answer),
                },
            ),
    ;

    /// The text of an agent's session record, if it can be read.
    fn session_text(&mut self, session: &AgentSession, cwd: &str) -> (answer: Option<String>)
        ensures
            final(self).log() == old(self).log().push(
                Entry {
                    call: Call::SessionText { session: session@, cwd: cwd@ },
                    answer: Answer::FoundText(answer),
                },
            ),
    ;

    /// The files that an agent's session record tells of.
    fn mine_session(&mut self, agent: &str, record: &str) -> (answer: Mined)
        ensures
            final(self).log() == old(self).log().push(
                Entry {
                    call: Call::MineSession { agent: agent@, text: record@ },
                    answer: Answer::Mined(answer),
                },
            ),
    ;

    /// The files of a worktree that differ from its last commit, if git can tell.
    fn dirty_paths(&mut self, toplevel: &str) -> (answer: Option<Vec<String>>)
        ensures
            final(self).log() == old(self).log().push(
                Entry {
                    call: Call::DirtyPaths { toplevel: toplevel@ },
                    answer: Answer::FoundPaths(answer),
                },
            ),
    ;

    /// The files of a worktree that were committed since a time, if git can tell.
    fn committed_since(&mut self, toplevel: &str, since: u64) -> (answer: Option<Vec<String>>)
        ensures
            final(self).log() == old(self).log().push(
                Entry {
                    call: Call::CommittedSince { toplevel: toplevel@, since },
                    answer: Answer::FoundPaths(answer),
                },
            ),
    ;

    /// How much each file of a worktree was changed, if git can tell.
    fn diff_stats(&mut self, toplevel: &str) -> (answer: Option<Vec<DiffStat>>)
        ensures
            final(self).log() == old(self).log().push(
                Entry {
                    call: Call::DiffStats { toplevel: toplevel@ },
                    answer: Answer::FoundStats(answer),
                },
            ),
    ;

    /// All files of a worktree, if git can tell.
    fn repo_files(&mut self, toplevel: &str) -> (answer: Option<Vec<String>>)
        ensures
            final(self).log() == old(self).log().push(
                Entry {
                    call: Call::RepoFiles { toplevel: toplevel@ },
                    answer: Answer::FoundPaths(answer),
                },
            ),
    ;

    /// The files that a text mentions, as far as there are such files.
    fn extract(&mut self, screen: &str, cwd: &str) -> (answer: Vec<Candidate>)
        ensures
            final(self).log() == old(self).log().push(
                Entry {
                    call: Call::Extract { text: screen@, cwd: cwd@ },
                    answer: Answer::Candidates(answer),
                },
            ),
    ;

    /// Build the candidates of the picker. Whether a file is in the worktree, and where to look
    /// whether it exists, is for [`BuildInput`] to tell.
    fn build_candidates(&mut self, input: &BuildInput) -> (answer: Vec<Candidate>)
        ensures
            final(self).log() == old(self).log().push(
                Entry {
                    call: Call::BuildCandidates { input: input@ },
                    answer: Answer::Candidates(answer),
                },
            ),
    ;

    /// Write a handoff to a new temporary file, and give its path.
    fn write_handoff(&mut self, handoff: &Handoff) -> (answer: Result<String, Failure>)
        ensures
            final(self).log() == old(self).log().push(
                Entry {
                    call: Call::WriteHandoff { handoff: handoff@ },
                    answer: log::text_answer(answer),
                },
            ),
    ;

    /// Read a handoff back.
    fn read_handoff(&mut self, path: &str) -> (answer: Result<Handoff, Failure>)
        ensures
            final(self).log() == old(self).log().push(
                Entry {
                    call: Call::ReadHandoff { path: path@ },
                    answer: log::handoff_answer(answer),
                },
            ),
    ;

    /// Run a part of the plugin that stands on its own.
    fn run_part(&mut self, part: Part) -> (answer: Result<(), Failure>)
        ensures
            final(self).log() == old(self).log().push(
                Entry {
                    call: Call::RunPart { part },
                    answer: log::done_answer(answer),
                },
            ),
    ;

    /// Remove a file.
    fn remove_file(&mut self, path: &str) -> (answer: Removal)
        ensures
            final(self).log() == old(self).log().push(
                Entry {
                    call: Call::RemoveFile { path: path@ },
                    answer: Answer::Removal(answer),
                },
            ),
    ;
}

/// The machine itself: programs, files and the parts of the plugin that only they can tell.
///
/// Here too each operation is one exchange of the log, and nothing is promised of an answer.
pub trait Machine {
    /// What was asked of the machine so far, and what it answered. A machine that is verified says
    /// where it keeps this; for one that is not, it is only spoken of.
    open spec fn log(&self) -> Seq<Entry> {
        Seq::empty()
    }

    /// The record of a tab, if there is one.
    fn load_state(&mut self, tab: &str) -> (answer: Result<Option<StateFile>, Failure>)
        ensures
            final(self).log() == old(self).log().push(
                Entry {
                    call: Call::LoadState { tab: tab@ },
                    answer: log::state_answer(answer),
                },
            ),
    ;

    /// Put a record down in place of the earlier one of its tab.
    fn save_state(&mut self, state: &StateFile) -> (answer: Result<(), Failure>)
        ensures
            final(self).log() == old(self).log().push(
                Entry {
                    call: Call::SaveState { state: state@ },
                    answer: log::done_answer(answer),
                },
            ),
    ;

    /// Forget the record of a tab.
    fn remove_state(&mut self, tab: &str) -> (answer: Result<(), Failure>)
        ensures
            final(self).log() == old(self).log().push(
                Entry {
                    call: Call::RemoveState { tab: tab@ },
                    answer: log::done_answer(answer),
                },
            ),
    ;

    /// The settings.
    fn load_config(&mut self) -> (answer: Config)
        ensures
            final(self).log() == old(self).log().push(
                Entry {
                    call: Call::LoadConfig,
                    answer: Answer::Settings(answer),
                },
            ),
    ;

    /// Whether there is a directory for editor daemons.
    fn has_daemons(&mut self) -> (answer: bool)
        ensures
            final(self).log() == old(self).log().push(
                Entry {
                    call: Call::HasDaemons,
                    answer: Answer::Flag(answer),
                },
            ),
    ;

    /// Stop the editor daemons of all tabs but `tabs`.
    fn collect_daemons(
        &mut self,
        tabs: &Vec<String>,
        sidebar: &Sidebar,
    ) -> (answer: Result<(), Failure>)
        ensures
            final(self).log() == old(self).log().push(
                Entry {
                    call: Call::CollectDaemons { tabs: text::texts(tabs@), sidebar: sidebar@ },
                    answer: log::done_answer(answer),
                },
            ),
    ;

    /// Take the lock of the layout, if it can be had.
    fn hold_lock(&mut self) -> (answer: Guard)
        ensures
            final(self).log() == old(self).log().push(
                Entry {
                    call: Call::HoldLock,
                    answer: Answer::Lock(answer),
                },
            ),
    ;

    /// Remove an empty directory, if it is there.
    fn remove_dir(&mut self, dir: &str)
        ensures
            final(self).log() == old(self).log().push(
                Entry {
                    call: Call::RemoveDir { dir: dir@ },
                    answer: Answer::Done,
                },
            ),
    ;

    /// Work out how a layout is rebuilt around one of its panes.
    fn plan_rebuild(&mut self, rects: &Vec<PaneRect>) -> (answer: Result<RebuildPlan, Failure>)
        ensures
            final(self).log() == old(self).log().push(
                Entry {
                    call: Call::PlanRebuild { rects: herdr::rects_of(rects@) },
                    answer: log::plan_answer(answer),
                },
            ),
    ;

    /// The directory that the plugin is installed in.
    fn plugin_root(&mut self) -> (answer: Result<String, Failure>)
        ensures
            final(self).log() == old(self).log().push(
                Entry {
                    call: Call::PluginRoot,
                    answer: log::text_answer(answer),
                },
            ),
    ;

    /// Bring up the editor daemon of a tab, and give its socket.
    fn ensure_daemon(
        &mut self,
        tab: &str,
        root: &str,
        config: &Config,
        cwd: &str,
    ) -> (answer: Result<String, Failure>)
        ensures
            final(self).log() == old(self).log().push(
                Entry {
                    call: Call::EnsureDaemon { tab: tab@, root: root@, config: config@, cwd: cwd@ },
                    answer: log::text_answer(answer),
                },
            ),
    ;

    /// Run the editor of the settings and wait for its exit status.
    fn nvim(&mut self, sidebar: &Sidebar, args: &Vec<String>, quiet: bool) -> (answer: Exit)
        ensures
            final(self).log() == old(self).log().push(
                Entry {
                    call: Call::Nvim { sidebar: sidebar@, args: text::texts(args@), quiet },
                    answer: Answer::Exit(answer),
                },
            ),
    ;

    /// Run herdr and wait for its exit status.
    fn herdr_status(&mut self, args: &Vec<String>, quiet: bool) -> (answer: Exit)
        ensures
            final(self).log() == old(self).log().push(
                Entry {
                    call: Call::HerdrStatus { args: text::texts(args@), quiet },
                    answer: Answer::Exit(answer),
                },
            ),
    ;

    /// Tell the user something on the error stream.
    fn warn(&mut self, text: &str)
        ensures
            final(self).log() == old(self).log().push(
                Entry {
                    call: Call::Warn { text: text@ },
                    answer: Answer::Done,
                },
            ),
    ;

    /// Whether a path leads to a file.
    fn is_file(&mut self, path: &str) -> (answer: bool)
        ensures
            final(self).log() == old(self).log().push(
                Entry {
                    call: Call::IsFile { path: path@ },
                    answer: Answer::Flag(answer),
                },
            ),
    ;

    /// The root of the git worktree that a directory is in, if it is in one.
    fn git_toplevel(&mut self, cwd: &str) -> (answer: Option<String>)
        ensures
            final(self).log() == old(self).log().push(
                Entry {
                    call: Call::GitToplevel { cwd: cwd@ },
                    answer: Answer::FoundText(answer),
                },
            ),
    ;

    /// The text of an agent's session record, if it can be read.
    fn session_text(&mut self, session: &AgentSession, cwd: &str) -> (answer: Option<String>)
        ensures
            final(self).log() == old(self).log().push(
                Entry {
                    call: Call::SessionText { session: session@, cwd: cwd@ },
                    answer: Answer::FoundText(answer),
                },
            ),
    ;

    /// The files that an agent's session record tells of.
    fn mine_session(&mut self, agent: &str, record: &str) -> (answer: Mined)
        ensures
            final(self).log() == old(self).log().push(
                Entry {
                    call: Call::MineSession { agent: agent@, text: record@ },
                    answer: Answer::Mined(answer),
                },
            ),
    ;

    /// The files of a worktree that differ from its last commit, if git can tell.
    fn dirty_paths(&mut self, toplevel: &str) -> (answer: Option<Vec<String>>)
        ensures
            final(self).log() == old(self).log().push(
                Entry {
                    call: Call::DirtyPaths { toplevel: toplevel@ },
                    answer: Answer::FoundPaths(answer),
                },
            ),
    ;

    /// The files of a worktree that were committed since a time, if git can tell.
    fn committed_since(&mut self, toplevel: &str, since: u64) -> (answer: Option<Vec<String>>)
        ensures
            final(self).log() == old(self).log().push(
                Entry {
                    call: Call::CommittedSince { toplevel: toplevel@, since },
                    answer: Answer::FoundPaths(answer),
                },
            ),
    ;

    /// How much each file of a worktree was changed, if git can tell.
    fn diff_stats(&mut self, toplevel: &str) -> (answer: Option<Vec<DiffStat>>)
        ensures
            final(self).log() == old(self).log().push(
                Entry {
                    call: Call::DiffStats { toplevel: toplevel@ },
                    answer: Answer::FoundStats(answer),
                },
            ),
    ;

    /// All files of a worktree, if git can tell.
    fn repo_files(&mut self, toplevel: &str) -> (answer: Option<Vec<String>>)
        ensures
            final(self).log() == old(self).log().push(
                Entry {
                    call: Call::RepoFiles { toplevel: toplevel@ },
                    answer: Answer::FoundPaths(answer),
                },
            ),
    ;

    /// The files that a text mentions, as far as there are such files.
    fn extract(&mut self, screen: &str, cwd: &str) -> (answer: Vec<Candidate>)
        ensures
            final(self).log() == old(self).log().push(
                Entry {
                    call: Call::Extract { text: screen@, cwd: cwd@ },
                    answer: Answer::Candidates(answer),
                },
            ),
    ;

    /// Build the candidates of the picker. Whether a file is in the worktree, and where to look
    /// whether it exists, is for [`BuildInput`] to tell.
    fn build_candidates(&mut self, input: &BuildInput) -> (answer: Vec<Candidate>)
        ensures
            final(self).log() == old(self).log().push(
                Entry {
                    call: Call::BuildCandidates { input: input@ },
                    answer: Answer::Candidates(answer),
                },
            ),
    ;

    /// Write a handoff to a new temporary file, and give its path.
    fn write_handoff(&mut self, handoff: &Handoff) -> (answer: Result<String, Failure>)
        ensures
            final(self).log() == old(self).log().push(
                Entry {
                    call: Call::WriteHandoff { handoff: handoff@ },
                    answer: log::text_answer(answer),
                },
            ),
    ;

    /// Read a handoff back.
    fn read_handoff(&mut self, path: &str) -> (answer: Result<Handoff, Failure>)
        ensures
            final(self).log() == old(self).log().push(
                Entry {
                    call: Call::ReadHandoff { path: path@ },
                    answer: log::handoff_answer(answer),
                },
            ),
    ;

    /// Run a part of the plugin that stands on its own.
    fn run_part(&mut self, part: Part) -> (answer: Result<(), Failure>)
        ensures
            final(self).log() == old(self).log().push(
                Entry {
                    call: Call::RunPart { part },
                    answer: log::done_answer(answer),
                },
            ),
    ;

    /// Remove a file.
    fn remove_file(&mut self, path: &str) -> (answer: Removal)
        ensures
            final(self).log() == old(self).log().push(
                Entry {
                    call: Call::RemoveFile { path: path@ },
                    answer: Answer::Removal(answer),
                },
            ),
    ;
}

} // verus!
