//! A running herdr together with the machine that it runs on.

use vstd::prelude::*;

use crate::candidates::{BuildInput, Candidate, DiffStat, Handoff, Mined};
use crate::config::{Config, Sidebar};
use crate::failure::Failure;
use crate::herdr::{self, AgentInfo, AgentSession, Dir, Herdr, PaneRect, PaneSnapshot};
use crate::host::{Host, Machine};
use crate::log::{self, Answer, Call, Entry, Exit, Part, Removal};
use crate::sidebar_lock::Guard;
use crate::state::{RebuildPlan, StateFile};
use crate::text;

verus! {

/// A herdr and a machine, with one log of all that is asked of either.
pub struct Workbench<H: Herdr, M: Machine> {
    pub herdr: H,
    pub machine: M,
    pub talk: Ghost<Seq<Entry>>,
}

impl<H: Herdr, M: Machine> Workbench<H, M> {
    /// A workbench at which nothing was asked yet.
    pub fn new(herdr: H, machine: M) -> (bench: Workbench<H, M>)
        ensures
            bench.herdr == herdr,
            bench.machine == machine,
            bench.talk@.len() == 0,
    {
        Workbench { herdr, machine, talk: Ghost(Seq::empty()) }
    }
}

/// What is asked of herdr is asked of the herdr at the workbench, and of nothing else.
impl<H: Herdr, M: Machine> Herdr for Workbench<H, M> {
    open spec fn log(&self) -> Seq<Entry> {
        self.talk@
    }

    fn pane_rects(&mut self, tab: &str) -> (answer: Result<Vec<PaneRect>, Failure>)
        ensures
            final(self).machine == old(self).machine,
            final(self).herdr.log() == old(self).herdr.log().push(final(self).talk@.last()),
    {
        let answer: Result<Vec<PaneRect>, Failure> = self.herdr.pane_rects(tab);
        let ghost entry = Entry {
            call: Call::PaneRects { tab: tab@ },
            answer: log::rects_answer(answer),
        };
        self.talk = Ghost(self.talk@.push(entry));
        answer
    }

    fn tab_of_pane(&mut self, pane: &str) -> (answer: Result<String, Failure>)
        ensures
            final(self).machine == old(self).machine,
            final(self).herdr.log() == old(self).herdr.log().push(final(self).talk@.last()),
    {
        let answer: Result<String, Failure> = self.herdr.tab_of_pane(pane);
        let ghost entry = Entry {
            call: Call::TabOfPane { pane: pane@ },
            answer: log::text_answer(answer),
        };
        self.talk = Ghost(self.talk@.push(entry));
        answer
    }

    fn create_tab(&mut self, workspace: &str) -> (answer: Result<(String, String), Failure>)
        ensures
            final(self).machine == old(self).machine,
            final(self).herdr.log() == old(self).herdr.log().push(final(self).talk@.last()),
    {
        let answer: Result<(String, String), Failure> = self.herdr.create_tab(workspace);
        let ghost entry = Entry {
            call: Call::CreateTab { workspace: workspace@ },
            answer: log::tab_answer(answer),
        };
        self.talk = Ghost(self.talk@.push(entry));
        answer
    }

    fn move_pane(
        &mut self,
        pane: &str,
        tab: &str,
        dir: Dir,
        target: Option<&str>,
        ratio: Option<&str>,
        focus: bool,
    ) -> (answer: Result<(), Failure>)
        ensures
            final(self).machine == old(self).machine,
            final(self).herdr.log() == old(self).herdr.log().push(final(self).talk@.last()),
    {
        let answer: Result<(), Failure> = self.herdr.move_pane(
            pane,
            tab,
            dir,
            target,
            ratio,
            focus,
        );
        let ghost entry = Entry {
            call: Call::MovePane {
                pane: pane@,
                tab: tab@,
                dir,
                target: herdr::slice_of(target),
                ratio: herdr::slice_of(ratio),
                focus,
            },
            answer: log::done_answer(answer),
        };
        self.talk = Ghost(self.talk@.push(entry));
        answer
    }

    fn split_pane(
        &mut self,
        pane: &str,
        dir: Dir,
        ratio: &str,
        focus: bool,
    ) -> (answer: Result<String, Failure>)
        ensures
            final(self).machine == old(self).machine,
            final(self).herdr.log() == old(self).herdr.log().push(final(self).talk@.last()),
    {
        let answer: Result<String, Failure> = self.herdr.split_pane(pane, dir, ratio, focus);
        let ghost entry = Entry {
            call: Call::SplitPane { pane: pane@, dir, ratio: ratio@, focus },
            answer: log::text_answer(answer),
        };
        self.talk = Ghost(self.talk@.push(entry));
        answer
    }

    fn open_sidebar_pane(
        &mut self,
        anchor: &str,
        dir: Dir,
        cwd: &str,
        focus: bool,
    ) -> (answer: Result<String, Failure>)
        ensures
            final(self).machine == old(self).machine,
            final(self).herdr.log() == old(self).herdr.log().push(final(self).talk@.last()),
    {
        let answer: Result<String, Failure> = self.herdr.open_sidebar_pane(anchor, dir, cwd, focus);
        let ghost entry = Entry {
            call: Call::OpenSidebarPane { anchor: anchor@, dir, cwd: cwd@, focus },
            answer: log::text_answer(answer),
        };
        self.talk = Ghost(self.talk@.push(entry));
        answer
    }

    fn run_in_pane(&mut self, pane: &str, cmd: &str) -> (answer: Result<(), Failure>)
        ensures
            final(self).machine == old(self).machine,
            final(self).herdr.log() == old(self).herdr.log().push(final(self).talk@.last()),
    {
        let answer: Result<(), Failure> = self.herdr.run_in_pane(pane, cmd);
        let ghost entry = Entry {
            call: Call::RunInPane { pane: pane@, cmd: cmd@ },
            answer: log::done_answer(answer),
        };
        self.talk = Ghost(self.talk@.push(entry));
        answer
    }

    fn close_pane(&mut self, pane: &str) -> (answer: Result<(), Failure>)
        ensures
            final(self).machine == old(self).machine,
            final(self).herdr.log() == old(self).herdr.log().push(final(self).talk@.last()),
    {
        let answer: Result<(), Failure> = self.herdr.close_pane(pane);
        let ghost entry = Entry {
            call: Call::ClosePane { pane: pane@ },
            answer: log::done_answer(answer),
        };
        self.talk = Ghost(self.talk@.push(entry));
        answer
    }

    fn pane_alive(&mut self, pane: &str) -> (answer: Result<bool, Failure>)
        ensures
            final(self).machine == old(self).machine,
            final(self).herdr.log() == old(self).herdr.log().push(final(self).talk@.last()),
    {
        let answer: Result<bool, Failure> = self.herdr.pane_alive(pane);
        let ghost entry = Entry {
            call: Call::PaneAlive { pane: pane@ },
            answer: log::flag_answer(answer),
        };
        self.talk = Ghost(self.talk@.push(entry));
        answer
    }

    fn list_tabs(&mut self) -> (answer: Result<Vec<String>, Failure>)
        ensures
            final(self).machine == old(self).machine,
            final(self).herdr.log() == old(self).herdr.log().push(final(self).talk@.last()),
    {
        let answer: Result<Vec<String>, Failure> = self.herdr.list_tabs();
        let ghost entry = Entry {
            call: Call::ListTabs,
            answer: log::tabs_answer(answer),
        };
        self.talk = Ghost(self.talk@.push(entry));
        answer
    }

    fn read_pane(&mut self, pane: &str, lines: u32) -> (answer: Result<String, Failure>)
        ensures
            final(self).machine == old(self).machine,
            final(self).herdr.log() == old(self).herdr.log().push(final(self).talk@.last()),
    {
        let answer: Result<String, Failure> = self.herdr.read_pane(pane, lines);
        let ghost entry = Entry {
            call: Call::ReadPane { pane: pane@, lines },
            answer: log::text_answer(answer),
        };
        self.talk = Ghost(self.talk@.push(entry));
        answer
    }

    fn pane_cwd(&mut self, pane: &str) -> (answer: Result<String, Failure>)
        ensures
            final(self).machine == old(self).machine,
            final(self).herdr.log() == old(self).herdr.log().push(final(self).talk@.last()),
    {
        let answer: Result<String, Failure> = self.herdr.pane_cwd(pane);
        let ghost entry = Entry {
            call: Call::PaneCwd { pane: pane@ },
            answer: log::text_answer(answer),
        };
        self.talk = Ghost(self.talk@.push(entry));
        answer
    }

    fn agents(&mut self, workspace: &str) -> (answer: Result<Vec<AgentInfo>, Failure>)
        ensures
            final(self).machine == old(self).machine,
            final(self).herdr.log() == old(self).herdr.log().push(final(self).talk@.last()),
    {
        let answer: Result<Vec<AgentInfo>, Failure> = self.herdr.agents(workspace);
        let ghost entry = Entry {
            call: Call::Agents { workspace: workspace@ },
            answer: log::agents_answer(answer),
        };
        self.talk = Ghost(self.talk@.push(entry));
        answer
    }

    fn pane_snapshot(&mut self, pane: &str) -> (answer: Result<PaneSnapshot, Failure>)
        ensures
            final(self).machine == old(self).machine,
            final(self).herdr.log() == old(self).herdr.log().push(final(self).talk@.last()),
    {
        let answer: Result<PaneSnapshot, Failure> = self.herdr.pane_snapshot(pane);
        let ghost entry = Entry {
            call: Call::PaneSnapshot { pane: pane@ },
            answer: log::snapshot_answer(answer),
        };
        self.talk = Ghost(self.talk@.push(entry));
        answer
    }
}

/// What is asked of the machine is asked of the machine at the workbench, and of nothing else.
impl<H: Herdr, M: Machine> Host for Workbench<H, M> {
    fn load_state(&mut self, tab: &str) -> (answer: Result<Option<StateFile>, Failure>)
        ensures
            final(self).herdr == old(self).herdr,
            final(self).machine.log() == old(self).machine.log().push(final(self).talk@.last()),
    {
        let answer: Result<Option<StateFile>, Failure> = self.machine.load_state(tab);
        let ghost entry = Entry {
            call: Call::LoadState { tab: tab@ },
            answer: log::state_answer(answer),
        };
        self.talk = Ghost(self.talk@.push(entry));
        answer
    }

    fn save_state(&mut self, state: &StateFile) -> (answer: Result<(), Failure>)
        ensures
            final(self).herdr == old(self).herdr,
            final(self).machine.log() == old(self).machine.log().push(final(self).talk@.last()),
    {
        let answer: Result<(), Failure> = self.machine.save_state(state);
        let ghost entry = Entry {
            call: Call::SaveState { state: state@ },
            answer: log::done_answer(answer),
        };
        self.talk = Ghost(self.talk@.push(entry));
        answer
    }

    fn remove_state(&mut self, tab: &str) -> (answer: Result<(), Failure>)
        ensures
            final(self).herdr == old(self).herdr,
            final(self).machine.log() == old(self).machine.log().push(final(self).talk@.last()),
    {
        let answer: Result<(), Failure> = self.machine.remove_state(tab);
        let ghost entry = Entry {
            call: Call::RemoveState { tab: tab@ },
            answer: log::done_answer(answer),
        };
        self.talk = Ghost(self.talk@.push(entry));
        answer
    }

    fn load_config(&mut self) -> (answer: Config)
        ensures
            final(self).herdr == old(self).herdr,
            final(self).machine.log() == old(self).machine.log().push(final(self).talk@.last()),
    {
        let answer: Config = self.machine.load_config();
        let ghost entry = Entry {
            call: Call::LoadConfig,
            answer: Answer::Settings(answer),
        };
        self.talk = Ghost(self.talk@.push(entry));
        answer
    }

    fn has_daemons(&mut self) -> (answer: bool)
        ensures
            final(self).herdr == old(self).herdr,
            final(self).machine.log() == old(self).machine.log().push(final(self).talk@.last()),
    {
        let answer: bool = self.machine.has_daemons();
        let ghost entry = Entry {
            call: Call::HasDaemons,
            answer: Answer::Flag(answer),
        };
        self.talk = Ghost(self.talk@.push(entry));
        answer
    }

    fn collect_daemons(
        &mut self,
        tabs: &Vec<String>,
        sidebar: &Sidebar,
    ) -> (answer: Result<(), Failure>)
        ensures
            final(self).herdr == old(self).herdr,
            final(self).machine.log() == old(self).machine.log().push(final(self).talk@.last()),
    {
        let answer: Result<(), Failure> = self.machine.collect_daemons(tabs, sidebar);
        let ghost entry = Entry {
            call: Call::CollectDaemons { tabs: text::texts(tabs@), sidebar: sidebar@ },
            answer: log::done_answer(answer),
        };
        self.talk = Ghost(self.talk@.push(entry));
        answer
    }

    fn hold_lock(&mut self) -> (answer: Guard)
        ensures
            final(self).herdr == old(self).herdr,
            final(self).machine.log() == old(self).machine.log().push(final(self).talk@.last()),
    {
        let answer: Guard = self.machine.hold_lock();
        let ghost entry = Entry {
            call: Call::HoldLock,
            answer: Answer::Lock(answer),
        };
        self.talk = Ghost(self.talk@.push(entry));
        answer
    }

    fn release_lock(&mut self, guard: &Guard)
        ensures
            final(self).herdr == old(self).herdr,
            match guard.dir {
                Some(dir) => final(self).machine.log() == old(self).machine.log().push(
                    Entry { call: Call::RemoveDir { dir: dir@ }, answer: Answer::Done },
                ),
                None => final(self).machine == old(self).machine,
            },
    {
        match &guard.dir {
            Some(dir) => self.machine.remove_dir(dir.as_str()),
            None => {},
        }
        let ghost entry = Entry {
            call: Call::ReleaseLock { taken: text::text_of(guard.dir) },
            answer: Answer::Done,
        };
        self.talk = Ghost(self.talk@.push(entry));
    }

    fn plan_rebuild(&mut self, rects: &Vec<PaneRect>) -> (answer: Result<RebuildPlan, Failure>)
        ensures
            final(self).herdr == old(self).herdr,
            final(self).machine.log() == old(self).machine.log().push(final(self).talk@.last()),
    {
        let answer: Result<RebuildPlan, Failure> = self.machine.plan_rebuild(rects);
        let ghost entry = Entry {
            call: Call::PlanRebuild { rects: herdr::rects_of(rects@) },
            answer: log::plan_answer(answer),
        };
        self.talk = Ghost(self.talk@.push(entry));
        answer
    }

    fn plugin_root(&mut self) -> (answer: Result<String, Failure>)
        ensures
            final(self).herdr == old(self).herdr,
            final(self).machine.log() == old(self).machine.log().push(final(self).talk@.last()),
    {
        let answer: Result<String, Failure> = self.machine.plugin_root();
        let ghost entry = Entry {
            call: Call::PluginRoot,
            answer: log::text_answer(answer),
        };
        self.talk = Ghost(self.talk@.push(entry));
        answer
    }

    fn ensure_daemon(
        &mut self,
        tab: &str,
        root: &str,
        config: &Config,
        cwd: &str,
    ) -> (answer: Result<String, Failure>)
        ensures
            final(self).herdr == old(self).herdr,
            final(self).machine.log() == old(self).machine.log().push(final(self).talk@.last()),
    {
        let answer: Result<String, Failure> = self.machine.ensure_daemon(tab, root, config, cwd);
        let ghost entry = Entry {
            call: Call::EnsureDaemon { tab: tab@, root: root@, config: config@, cwd: cwd@ },
            answer: log::text_answer(answer),
        };
        self.talk = Ghost(self.talk@.push(entry));
        answer
    }

    fn nvim(&mut self, sidebar: &Sidebar, args: &Vec<String>, quiet: bool) -> (answer: Exit)
        ensures
            final(self).herdr == old(self).herdr,
            final(self).machine.log() == old(self).machine.log().push(final(self).talk@.last()),
    {
        let answer: Exit = self.machine.nvim(sidebar, args, quiet);
        let ghost entry = Entry {
            call: Call::Nvim { sidebar: sidebar@, args: text::texts(args@), quiet },
            answer: Answer::Exit(answer),
        };
        self.talk = Ghost(self.talk@.push(entry));
        answer
    }

    fn herdr_status(&mut self, args: &Vec<String>, quiet: bool) -> (answer: Exit)
        ensures
            final(self).herdr == old(self).herdr,
            final(self).machine.log() == old(self).machine.log().push(final(self).talk@.last()),
    {
        let answer: Exit = self.machine.herdr_status(args, quiet);
        let ghost entry = Entry {
            call: Call::HerdrStatus { args: text::texts(args@), quiet },
            answer: Answer::Exit(answer),
        };
        self.talk = Ghost(self.talk@.push(entry));
        answer
    }

    fn warn(&mut self, text: &str)
        ensures
            final(self).herdr == old(self).herdr,
            final(self).machine.log() == old(self).machine.log().push(final(self).talk@.last()),
    {
        self.machine.warn(text);
        let ghost entry = Entry {
            call: Call::Warn { text: text@ },
            answer: Answer::Done,
        };
        self.talk = Ghost(self.talk@.push(entry));
    }

    fn is_file(&mut self, path: &str) -> (answer: bool)
        ensures
            final(self).herdr == old(self).herdr,
            final(self).machine.log() == old(self).machine.log().push(final(self).talk@.last()),
    {
        let answer: bool = self.machine.is_file(path);
        let ghost entry = Entry {
            call: Call::IsFile { path: path@ },
            answer: Answer::Flag(answer),
        };
        self.talk = Ghost(self.talk@.push(entry));
        answer
    }

    fn git_toplevel(&mut self, cwd: &str) -> (answer: Option<String>)
        ensures
            final(self).herdr == old(self).herdr,
            final(self).machine.log() == old(self).machine.log().push(final(self).talk@.last()),
    {
        let answer: Option<String> = self.machine.git_toplevel(cwd);
        let ghost entry = Entry {
            call: Call::GitToplevel { cwd: cwd@ },
            answer: Answer::FoundText(answer),
        };
        self.talk = Ghost(self.talk@.push(entry));
        answer
    }

    fn session_text(&mut self, session: &AgentSession, cwd: &str) -> (answer: Option<String>)
        ensures
            final(self).herdr == old(self).herdr,
            final(self).machine.log() == old(self).machine.log().push(final(self).talk@.last()),
    {
        let answer: Option<String> = self.machine.session_text(session, cwd);
        let ghost entry = Entry {
            call: Call::SessionText { session: session@, cwd: cwd@ },
            answer: Answer::FoundText(answer),
        };
        self.talk = Ghost(self.talk@.push(entry));
        answer
    }

    fn mine_session(&mut self, agent: &str, record: &str) -> (answer: Mined)
        ensures
            final(self).herdr == old(self).herdr,
            final(self).machine.log() == old(self).machine.log().push(final(self).talk@.last()),
    {
        let answer: Mined = self.machine.mine_session(agent, record);
        let ghost entry = Entry {
            call: Call::MineSession { agent: agent@, text: record@ },
            answer: Answer::Mined(answer),
        };
        self.talk = Ghost(self.talk@.push(entry));
        answer
    }

    fn dirty_paths(&mut self, toplevel: &str) -> (answer: Option<Vec<String>>)
        ensures
            final(self).herdr == old(self).herdr,
            final(self).machine.log() == old(self).machine.log().push(final(self).talk@.last()),
    {
        let answer: Option<Vec<String>> = self.machine.dirty_paths(toplevel);
        let ghost entry = Entry {
            call: Call::DirtyPaths { toplevel: toplevel@ },
            answer: Answer::FoundPaths(answer),
        };
        self.talk = Ghost(self.talk@.push(entry));
        answer
    }

    fn committed_since(&mut self, toplevel: &str, since: u64) -> (answer: Option<Vec<String>>)
        ensures
            final(self).herdr == old(self).herdr,
            final(self).machine.log() == old(self).machine.log().push(final(self).talk@.last()),
    {
        let answer: Option<Vec<String>> = self.machine.committed_since(toplevel, since);
        let ghost entry = Entry {
            call: Call::CommittedSince { toplevel: toplevel@, since },
            answer: Answer::FoundPaths(answer),
        };
        self.talk = Ghost(self.talk@.push(entry));
        answer
    }

    fn diff_stats(&mut self, toplevel: &str) -> (answer: Option<Vec<DiffStat>>)
        ensures
            final(self).herdr == old(self).herdr,
            final(self).machine.log() == old(self).machine.log().push(final(self).talk@.last()),
    {
        let answer: Option<Vec<DiffStat>> = self.machine.diff_stats(toplevel);
        let ghost entry = Entry {
            call: Call::DiffStats { toplevel: toplevel@ },
            answer: Answer::FoundStats(answer),
        };
        self.talk = Ghost(self.talk@.push(entry));
        answer
    }

    fn repo_files(&mut self, toplevel: &str) -> (answer: Option<Vec<String>>)
        ensures
            final(self).herdr == old(self).herdr,
            final(self).machine.log() == old(self).machine.log().push(final(self).talk@.last()),
    {
        let answer: Option<Vec<String>> = self.machine.repo_files(toplevel);
        let ghost entry = Entry {
            call: Call::RepoFiles { toplevel: toplevel@ },
            answer: Answer::FoundPaths(answer),
        };
        self.talk = Ghost(self.talk@.push(entry));
        answer
    }

    fn extract(&mut self, screen: &str, cwd: &str) -> (answer: Vec<Candidate>)
        ensures
            final(self).herdr == old(self).herdr,
            final(self).machine.log() == old(self).machine.log().push(final(self).talk@.last()),
    {
        let answer: Vec<Candidate> = self.machine.extract(screen, cwd);
        let ghost entry = Entry {
            call: Call::Extract { text: screen@, cwd: cwd@ },
            answer: Answer::Candidates(answer),
        };
        self.talk = Ghost(self.talk@.push(entry));
        answer
    }

    fn build_candidates(&mut self, input: &BuildInput) -> (answer: Vec<Candidate>)
        ensures
            final(self).herdr == old(self).herdr,
            final(self).machine.log() == old(self).machine.log().push(final(self).talk@.last()),
    {
        let answer: Vec<Candidate> = self.machine.build_candidates(input);
        let ghost entry = Entry {
            call: Call::BuildCandidates { input: input@ },
            answer: Answer::Candidates(answer),
        };
        self.talk = Ghost(self.talk@.push(entry));
        answer
    }

    fn write_handoff(&mut self, handoff: &Handoff) -> (answer: Result<String, Failure>)
        ensures
            final(self).herdr == old(self).herdr,
            final(self).machine.log() == old(self).machine.log().push(final(self).talk@.last()),
    {
        let answer: Result<String, Failure> = self.machine.write_handoff(handoff);
        let ghost entry = Entry {
            call: Call::WriteHandoff { handoff: handoff@ },
            answer: log::text_answer(answer),
        };
        self.talk = Ghost(self.talk@.push(entry));
        answer
    }

    fn read_handoff(&mut self, path: &str) -> (answer: Result<Handoff, Failure>)
        ensures
            final(self).herdr == old(self).herdr,
            final(self).machine.log() == old(self).machine.log().push(final(self).talk@.last()),
    {
        let answer: Result<Handoff, Failure> = self.machine.read_handoff(path);
        let ghost entry = Entry {
            call: Call::ReadHandoff { path: path@ },
            answer: log::handoff_answer(answer),
        };
        self.talk = Ghost(self.talk@.push(entry));
        answer
    }

    fn run_part(&mut self, part: Part) -> (answer: Result<(), Failure>)
        ensures
            final(self).herdr == old(self).herdr,
            final(self).machine.log() == old(self).machine.log().push(final(self).talk@.last()),
    {
        let answer: Result<(), Failure> = self.machine.run_part(part);
        let ghost entry = Entry {
            call: Call::RunPart { part },
            answer: log::done_answer(answer),
        };
        self.talk = Ghost(self.talk@.push(entry));
        answer
    }

    fn remove_file(&mut self, path: &str) -> (answer: Removal)
        ensures
            final(self).herdr == old(self).herdr,
            final(self).machine.log() == old(self).machine.log().push(final(self).talk@.last()),
    {
        let answer: Removal = self.machine.remove_file(path);
        let ghost entry = Entry {
            call: Call::RemoveFile { path: path@ },
            answer: Answer::Removal(answer),
        };
        self.talk = Ghost(self.talk@.push(entry));
        answer
    }
}

} // verus!
